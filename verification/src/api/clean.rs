//! Reading payloads out of nodes, without their spans.

use vstd::prelude::*;

use crate::api::ast;
use crate::api::ast::{Branch, Clean, Field, Ident, Pattern, PatternV, Type, TypeV};
use crate::api::expr;
use crate::api::expr::Expr;
use crate::span::{SimpleSpan, Spanned};

verus! {

/// The values of a list of spanned values.
pub open spec fn unspanned<V>(vs: Seq<Spanned<V>>) -> Seq<V> {
    vs.map_values(|v: Spanned<V>| v.inner)
}

/// The types that `ts` are.
pub open spec fn type_views(ts: Seq<Type>) -> Seq<TypeV> {
    ts.map_values(|t: Type| ast::type_view(t))
}

/// The patterns that `ps` are.
pub open spec fn pattern_views(ps: Seq<Pattern>) -> Seq<PatternV> {
    ps.map_values(|p: Pattern| ast::pattern_view(p))
}

fn clean_types(ts: &Vec<Spanned<Type>>) -> (r: Vec<Type>)
    ensures
        type_views(r@) == unspanned(ast::types_view(ts@)),
{
    let mut out: Vec<Type> = Vec::new();
    for i in 0..ts.len()
        invariant
            out@.len() == i,
            forall|j: int|
                0 <= j < i ==> ast::type_view(#[trigger] out@[j]) == ast::type_view(ts@[j].inner),
    {
        out.push(ts[i].inner.dup());
    }
    proof {
        assert(type_views(out@) =~= unspanned(ast::types_view(ts@)));
    }
    out
}

impl Clean<Ident> for Type {
    open spec fn cleanable(&self) -> bool {
        self is Named
    }

    open spec fn cleaned(&self, r: Ident) -> bool {
        r == self->Named_0.inner
    }

    fn clean(&self) -> (r: Ident) {
        match self {
            Type::Named(id) => id.inner.dup(),
            _ => Ident::new(""),
        }
    }
}

impl Clean<(Ident, Vec<Type>)> for Type {
    open spec fn cleanable(&self) -> bool {
        self is Generic
    }

    open spec fn cleaned(&self, r: (Ident, Vec<Type>)) -> bool {
        &&& r.0 == self->Generic_0.inner
        &&& type_views(r.1@) == unspanned(ast::types_view(self->Generic_1@))
    }

    fn clean(&self) -> (r: (Ident, Vec<Type>)) {
        match self {
            Type::Generic(id, args) => (id.inner.dup(), clean_types(args)),
            _ => (Ident::new(""), Vec::new()),
        }
    }
}

impl Clean<(Ident, Box<Type>)> for Type {
    open spec fn cleanable(&self) -> bool {
        self is Path
    }

    open spec fn cleaned(&self, r: (Ident, Box<Type>)) -> bool {
        &&& r.0 == self->Path_0.inner
        &&& ast::type_view(*r.1) == ast::type_view(*self->Path_1.inner)
    }

    fn clean(&self) -> (r: (Ident, Box<Type>)) {
        match self {
            Type::Path(id, rest) => (id.inner.dup(), Box::new(rest.inner.dup())),
            _ => (Ident::new(""), Box::new(Type::Unit)),
        }
    }
}

impl Clean<Vec<Type>> for Type {
    open spec fn cleanable(&self) -> bool {
        self is Struct
    }

    open spec fn cleaned(&self, r: Vec<Type>) -> bool {
        type_views(r@) == unspanned(ast::types_view(self->Struct_0@))
    }

    fn clean(&self) -> (r: Vec<Type>) {
        match self {
            Type::Struct(fields) => clean_types(fields),
            _ => Vec::new(),
        }
    }
}

impl Clean<Ident> for Pattern {
    open spec fn cleanable(&self) -> bool {
        true
    }

    open spec fn cleaned(&self, r: Ident) -> bool {
        r == self.ident.inner
    }

    fn clean(&self) -> (r: Ident) {
        self.ident.inner.dup()
    }
}

impl Clean<Type> for Pattern {
    open spec fn cleanable(&self) -> bool {
        true
    }

    open spec fn cleaned(&self, r: Type) -> bool {
        ast::type_view(r) == ast::type_view(self.ty.inner)
    }

    fn clean(&self) -> (r: Type) {
        self.ty.inner.dup()
    }
}

/// The label without its span.
pub open spec fn unspanned_label(label: Option<Spanned<Ident>>) -> Option<Ident> {
    match label {
        Some(id) => Some(id.inner),
        None => None,
    }
}

fn clean_label(label: &Option<Spanned<Ident>>) -> (r: Option<Ident>)
    ensures
        r == unspanned_label(*label),
{
    match label {
        Some(id) => Some(id.inner.dup()),
        None => None,
    }
}

impl Clean<Option<Ident>> for Field {
    open spec fn cleanable(&self) -> bool {
        true
    }

    open spec fn cleaned(&self, r: Option<Ident>) -> bool {
        r == unspanned_label(self.label)
    }

    fn clean(&self) -> (r: Option<Ident>) {
        clean_label(&self.label)
    }
}

impl Clean<Type> for Field {
    open spec fn cleanable(&self) -> bool {
        true
    }

    open spec fn cleaned(&self, r: Type) -> bool {
        ast::type_view(r) == ast::type_view(self.ty.inner)
    }

    fn clean(&self) -> (r: Type) {
        self.ty.inner.dup()
    }
}

impl Clean<Option<Ident>> for Branch {
    open spec fn cleanable(&self) -> bool {
        true
    }

    open spec fn cleaned(&self, r: Option<Ident>) -> bool {
        r == unspanned_label(self.label)
    }

    fn clean(&self) -> (r: Option<Ident>) {
        clean_label(&self.label)
    }
}

impl Clean<Vec<Pattern>> for Branch {
    open spec fn cleanable(&self) -> bool {
        true
    }

    open spec fn cleaned(&self, r: Vec<Pattern>) -> bool {
        pattern_views(r@) == unspanned(ast::patterns_view(self.patterns@))
    }

    fn clean(&self) -> (r: Vec<Pattern>) {
        let ps = &self.patterns;
        let mut out: Vec<Pattern> = Vec::new();
        for i in 0..ps.len()
            invariant
                out@.len() == i,
                forall|j: int|
                    0 <= j < i ==> ast::pattern_view(#[trigger] out@[j]) == ast::pattern_view(
                        ps@[j].inner,
                    ),
        {
            out.push(ps[i].inner.dup());
        }
        proof {
            assert(pattern_views(out@) =~= unspanned(ast::patterns_view(ps@)));
        }
        out
    }
}

impl Clean<Option<Type>> for Branch {
    open spec fn cleanable(&self) -> bool {
        true
    }

    open spec fn cleaned(&self, r: Option<Type>) -> bool {
        match self.ret_ty {
            Some(t) => r is Some && ast::type_view(r->Some_0) == ast::type_view(t.inner),
            None => r is None,
        }
    }

    fn clean(&self) -> (r: Option<Type>) {
        match &self.ret_ty {
            Some(t) => Some(t.inner.dup()),
            None => None,
        }
    }
}

impl Clean<Vec<Expr>> for Branch {
    open spec fn cleanable(&self) -> bool {
        true
    }

    /// The same expressions: with its span put back, each is the tree it was.
    open spec fn cleaned(&self, r: Vec<Expr>) -> bool {
        &&& r@.len() == self.body@.len()
        &&& forall|i: int|
            0 <= i < r@.len() ==> expr::tree(#[trigger] r@[i], self.body@[i].span)
                == expr::tree_of(self.body@[i])
    }

    fn clean(&self) -> (r: Vec<Expr>) {
        let es = &self.body;
        let mut out: Vec<Expr> = Vec::new();
        for i in 0..es.len()
            invariant
                out@.len() == i,
                forall|j: int|
                    0 <= j < i ==> expr::tree(#[trigger] out@[j], es@[j].span) == expr::tree_of(
                        es@[j],
                    ),
        {
            out.push(es[i].inner.dup());
        }
        out
    }
}

impl Expr {
    /// The binding that a branch parameter stands for: `let name type`,
    /// without a value.
    pub fn from_pattern(value: &Pattern) -> (r: Expr)
        ensures
            forall|span: SimpleSpan| #[trigger]
                expr::tree(r, span) == expr::leaf(
                    expr::Head::Let(value.ident.deep_view(), value.ty.deep_view()),
                    span,
                ),
    {
        Expr::Let {
            ident: ast::dup_ident(&value.ident),
            ty: ast::dup_type(&value.ty),
            default: None,
        }
    }
}

} // verus!
