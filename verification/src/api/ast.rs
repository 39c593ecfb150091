//! Types, patterns and declarations of the syntax tree.
//!
//! Every type here has a mathematical counterpart (`TypeV` for [`Type`],
//! `MachineV` for [`Machine`], ...) that `deep_view` yields and that
//! contracts speak of.

use vstd::prelude::*;

use crate::api::expr;
use crate::api::expr::{dup_exprs, parse_int_literal, Expr, HandlerV, Tree};
use crate::span::{SimpleSpan, SpanWrap, Spanned};
use crate::text::{same, Text};

verus! {

/// Reading the payload out of a node, without its spans.
pub trait Clean<T> {
    /// When the payload is there to be read.
    spec fn cleanable(&self) -> bool;

    /// What a correct payload is.
    spec fn cleaned(&self, r: T) -> bool;

    fn clean(&self) -> (r: T)
        requires
            self.cleanable(),
        ensures
            self.cleaned(r),
    ;
}

/// An identifier.
#[derive(Debug, PartialEq, PartialOrd, Clone, Hash)]
pub struct Ident(pub String);

impl DeepView for Ident {
    type V = Text;

    open spec fn deep_view(&self) -> Text {
        self.0@
    }
}

impl Ident {
    pub fn new(inner: &str) -> (r: Ident)
        ensures
            r.deep_view() == inner@,
    {
        Ident(inner.to_owned())
    }

    pub fn as_str(&self) -> (r: &str)
        ensures
            r@ == self.deep_view(),
    {
        self.0.as_str()
    }

    /// The identifier as it appears in source.
    pub fn to_string(&self) -> (r: String)
        ensures
            r@ == self.deep_view(),
    {
        self.0.clone()
    }

    pub fn dup(&self) -> (r: Ident)
        ensures
            r == *self,
    {
        Ident(self.0.clone())
    }
}

/// Copies a spanned identifier.
pub fn dup_ident(id: &Spanned<Ident>) -> (r: Spanned<Ident>)
    ensures
        r == *id,
{
    Spanned { inner: id.inner.dup(), span: id.span }
}

/// Copies a list of spanned identifiers.
pub fn dup_idents(v: &Vec<Spanned<Ident>>) -> (r: Vec<Spanned<Ident>>)
    ensures
        r@ == v@,
        r.deep_view() == v.deep_view(),
{
    let mut out: Vec<Spanned<Ident>> = Vec::new();
    let mut i: usize = 0;
    while i < v.len()
        invariant
            i <= v.len(),
            out@ == v@.take(i as int),
        decreases v.len() - i,
    {
        out.push(dup_ident(&v[i]));
        i = i + 1;
    }
    proof {
        assert(out@ =~= v@);
        assert(out.deep_view() =~= v.deep_view());
    }
    out
}

/// Copies an optional spanned identifier.
pub fn dup_opt_ident(o: &Option<Spanned<Ident>>) -> (r: Option<Spanned<Ident>>)
    ensures
        r == *o,
{
    match o {
        Some(id) => Some(dup_ident(id)),
        None => None,
    }
}

// ── types ──────────────────────────────────────────────────────────────────

#[derive(Debug, PartialEq, PartialOrd)]
pub enum Type {
    /// Simple named type: `i32`, `str`
    Named(Spanned<Ident>),
    /// Generic type in call form: `box(T)`, `result({})`
    Generic(Spanned<Ident>, Vec<Spanned<Type>>),
    /// Generic type in bracket form: `Vec[i64]`
    NamedGeneric { name: Spanned<Ident>, args: Vec<Spanned<Type>> },
    /// A type parameter of the enclosing declaration.
    TypeVar(Spanned<Ident>),
    /// Module-qualified type: `core:io:writer`
    Path(Spanned<Ident>, Spanned<Box<Type>>),
    /// Empty struct / unit: `{}`
    Unit,
    /// Anonymous struct: `{ str }`, `{ i64 usize }`
    Struct(Vec<Spanned<Type>>),
    /// Placeholder for a type that has not been filled in yet.  Distinct
    /// from [`Type::Unit`], which is an explicit `{}` in source.
    Unknown,
}

/// The mathematical counterpart of [`Type`].
#[verifier::ext_equal]
pub enum TypeV {
    Named(Spanned<Text>),
    Generic(Spanned<Text>, Seq<Spanned<TypeV>>),
    NamedGeneric(Spanned<Text>, Seq<Spanned<TypeV>>),
    TypeVar(Spanned<Text>),
    Path(Spanned<Text>, Box<TypeV>, SimpleSpan),
    Unit,
    Struct(Seq<Spanned<TypeV>>),
    Unknown,
}

pub open spec fn type_view(t: Type) -> TypeV
    decreases t,
{
    match t {
        Type::Named(id) => TypeV::Named(id.deep_view()),
        Type::Generic(id, args) => TypeV::Generic(id.deep_view(), types_view(args@)),
        Type::NamedGeneric { name, args } => TypeV::NamedGeneric(
            name.deep_view(),
            types_view(args@),
        ),
        Type::TypeVar(id) => TypeV::TypeVar(id.deep_view()),
        Type::Path(id, rest) => TypeV::Path(
            id.deep_view(),
            Box::new(type_view(*rest.inner)),
            rest.span,
        ),
        Type::Unit => TypeV::Unit,
        Type::Struct(fields) => TypeV::Struct(types_view(fields@)),
        Type::Unknown => TypeV::Unknown,
    }
}

pub open spec fn types_view(ts: Seq<Spanned<Type>>) -> Seq<Spanned<TypeV>>
    decreases ts,
{
    Seq::new(
        ts.len(),
        |i: int|
            if 0 <= i < ts.len() {
                Spanned { inner: type_view(ts[i].inner), span: ts[i].span }
            } else {
                arbitrary()
            },
    )
}

impl DeepView for Type {
    type V = TypeV;

    open spec fn deep_view(&self) -> TypeV {
        type_view(*self)
    }
}

/// The two ways of viewing a list of types agree.
pub broadcast proof fn types_view_is_deep_view(ts: Vec<Spanned<Type>>)
    ensures
        #[trigger] types_view(ts@) == ts.deep_view(),
{
    assert(types_view(ts@) =~= ts.deep_view());
}

/// How a type is written in diagnostics and signatures.
pub open spec fn type_text(t: TypeV) -> Text
    decreases t,
{
    match t {
        TypeV::Named(id) => id.inner,
        TypeV::TypeVar(id) => id.inner,
        TypeV::Generic(id, args) => id.inner + "("@ + types_text(args, args.len()) + ")"@,
        TypeV::NamedGeneric(id, args) => id.inner + "<"@ + types_text(args, args.len()) + ">"@,
        TypeV::Path(id, rest, _) => id.inner + ":"@ + type_text(*rest),
        TypeV::Unit => "{}"@,
        TypeV::Unknown => "?"@,
        TypeV::Struct(fields) => "{ "@ + types_text(fields, fields.len()) + " }"@,
    }
}

/// The first `n` types, separated by single spaces.
pub open spec fn types_text(ts: Seq<Spanned<TypeV>>, n: nat) -> Text
    decreases ts, n,
{
    if n == 0 || n > ts.len() {
        Seq::empty()
    } else if n == 1 {
        type_text(ts[0].inner)
    } else {
        types_text(ts, (n - 1) as nat) + " "@ + type_text(ts[n - 1].inner)
    }
}

impl Type {
    pub fn dup(&self) -> (r: Type)
        ensures
            type_view(r) == type_view(*self),
        decreases *self,
    {
        match self {
            Type::Named(id) => Type::Named(dup_ident(id)),
            Type::Generic(id, args) => Type::Generic(dup_ident(id), dup_types(args)),
            Type::NamedGeneric { name, args } => Type::NamedGeneric {
                name: dup_ident(name),
                args: dup_types(args),
            },
            Type::TypeVar(id) => Type::TypeVar(dup_ident(id)),
            Type::Path(id, rest) => {
                let inner = rest.inner.dup();
                Type::Path(dup_ident(id), Spanned { inner: Box::new(inner), span: rest.span })
            },
            Type::Unit => Type::Unit,
            Type::Struct(fields) => Type::Struct(dup_types(fields)),
            Type::Unknown => Type::Unknown,
        }
    }

    /// The type as diagnostics and signatures write it.
    pub fn to_string(&self) -> (r: String)
        ensures
            r@ == type_text(type_view(*self)),
        decreases *self,
    {
        match self {
            Type::Named(id) => id.inner.to_string(),
            Type::TypeVar(id) => id.inner.to_string(),
            Type::Generic(id, args) => {
                let mut s = id.inner.to_string();
                s.append("(");
                let inner = types_to_string(args);
                s.append(inner.as_str());
                s.append(")");
                s
            },
            Type::NamedGeneric { name, args } => {
                let mut s = name.inner.to_string();
                s.append("<");
                let inner = types_to_string(args);
                s.append(inner.as_str());
                s.append(">");
                s
            },
            Type::Path(id, rest) => {
                let mut s = id.inner.to_string();
                s.append(":");
                let inner = rest.inner.to_string();
                s.append(inner.as_str());
                s
            },
            Type::Unit => "{}".to_owned(),
            Type::Unknown => "?".to_owned(),
            Type::Struct(fields) => {
                let mut s = "{ ".to_owned();
                let inner = types_to_string(fields);
                s.append(inner.as_str());
                s.append(" }");
                s
            },
        }
    }
}

impl Clone for Type {
    fn clone(&self) -> (r: Type)
        ensures
            type_view(r) == type_view(*self),
    {
        self.dup()
    }
}

fn types_to_string(ts: &Vec<Spanned<Type>>) -> (r: String)
    ensures
        r@ == types_text(types_view(ts@), ts@.len()),
    decreases *ts,
{
    let mut s = String::new();
    let mut i: usize = 0;
    while i < ts.len()
        invariant
            i <= ts.len(),
            s@ == types_text(types_view(ts@), i as nat),
        decreases ts.len() - i,
    {
        if i > 0 {
            s.append(" ");
        }
        proof {
            assert(decreases_to!(*ts => ts@[i as int].inner));
        }
        let one = ts[i].inner.to_string();
        s.append(one.as_str());
        proof {
            if i == 0 {
                assert(s@ =~= type_text(types_view(ts@)[0].inner));
            }
        }
        i = i + 1;
    }
    s
}

/// Copies a list of types.
pub fn dup_types(ts: &Vec<Spanned<Type>>) -> (r: Vec<Spanned<Type>>)
    ensures
        types_view(r@) == types_view(ts@),
        r.deep_view() == ts.deep_view(),
        r@.len() == ts@.len(),
    decreases *ts,
{
    let mut out: Vec<Spanned<Type>> = Vec::new();
    let mut i: usize = 0;
    while i < ts.len()
        invariant
            i <= ts.len(),
            out@.len() == i,
            forall|j: int|
                0 <= j < i ==> #[trigger] types_view(out@)[j] == types_view(ts@)[j],
        decreases ts.len() - i,
    {
        proof {
            assert(decreases_to!(*ts => ts@[i as int].inner));
        }
        let ghost before = out@;
        out.push(Spanned { inner: ts[i].inner.dup(), span: ts[i].span });
        proof {
            assert forall|j: int| 0 <= j < i + 1 implies #[trigger] types_view(out@)[j]
                == types_view(ts@)[j] by {
                if j < i {
                    assert(types_view(before)[j] == types_view(ts@)[j]);
                }
            }
        }
        i = i + 1;
    }
    proof {
        assert(types_view(out@) =~= types_view(ts@));
        types_view_is_deep_view(out);
        types_view_is_deep_view(*ts);
    }
    out
}

/// Copies a spanned type.
pub fn dup_type(t: &Spanned<Type>) -> (r: Spanned<Type>)
    ensures
        r.deep_view() == t.deep_view(),
{
    Spanned { inner: t.inner.dup(), span: t.span }
}

/// Copies an optional spanned type.
pub fn dup_opt_type(t: &Option<Spanned<Type>>) -> (r: Option<Spanned<Type>>)
    ensures
        r.deep_view() == t.deep_view(),
{
    match t {
        Some(t) => Some(dup_type(t)),
        None => None,
    }
}

} // verus!

verus! {

// ── patterns ───────────────────────────────────────────────────────────────

/// What a [`Pattern`] *means*.  Computed once at construction time so
/// downstream passes never have to re-parse the ident string.
#[derive(Debug, PartialEq, PartialOrd)]
pub enum PatternKind {
    /// `n i32` — a regular variable binding.
    Var,
    /// `_` — wildcard parameter.
    Wildcard,
    /// `0 i64`, `42 i64` — numeric literal guard.
    NumGuard(i64),
    /// `"hello" str` — string literal guard, with the raw (unquoted) content.
    StrGuard(String),
    /// `:ok` — atom guard, with the atom's name.
    AtomGuard(String),
    /// `{ a b _ }` — positional destructuring.
    Tuple(Vec<Spanned<Pattern>>),
}

/// A branch parameter: `n i32`, `_`, `0 i64`, `"hello" str`
#[derive(Debug, PartialEq, PartialOrd)]
pub struct Pattern {
    pub ident: Spanned<Ident>,
    pub ty: Spanned<Type>,
    pub kind: PatternKind,
}

#[verifier::ext_equal]
pub enum PatternKindV {
    Var,
    Wildcard,
    NumGuard(i64),
    StrGuard(Text),
    AtomGuard(Text),
    Tuple(Seq<Spanned<PatternV>>),
}

/// The mathematical counterpart of [`Pattern`].
#[verifier::ext_equal]
pub struct PatternV {
    pub ident: Spanned<Text>,
    pub ty: Spanned<TypeV>,
    pub kind: PatternKindV,
}

pub open spec fn pattern_view(p: Pattern) -> PatternV
    decreases p,
{
    PatternV {
        ident: p.ident.deep_view(),
        ty: p.ty.deep_view(),
        kind: match p.kind {
            PatternKind::Var => PatternKindV::Var,
            PatternKind::Wildcard => PatternKindV::Wildcard,
            PatternKind::NumGuard(n) => PatternKindV::NumGuard(n),
            PatternKind::StrGuard(s) => PatternKindV::StrGuard(s@),
            PatternKind::AtomGuard(s) => PatternKindV::AtomGuard(s@),
            PatternKind::Tuple(elems) => PatternKindV::Tuple(patterns_view(elems@)),
        },
    }
}

pub open spec fn patterns_view(ps: Seq<Spanned<Pattern>>) -> Seq<Spanned<PatternV>>
    decreases ps,
{
    Seq::new(
        ps.len(),
        |i: int|
            if 0 <= i < ps.len() {
                Spanned { inner: pattern_view(ps[i].inner), span: ps[i].span }
            } else {
                arbitrary()
            },
    )
}

impl DeepView for Pattern {
    type V = PatternV;

    open spec fn deep_view(&self) -> PatternV {
        pattern_view(*self)
    }
}

/// A process branch inside a machine: `@init _ -> { ... }`
#[derive(Debug, PartialEq, PartialOrd)]
pub struct Branch {
    /// Optional `@name` label
    pub label: Option<Spanned<Ident>>,
    pub patterns: Vec<Spanned<Pattern>>,
    /// Optional `ret Type` annotation
    pub ret_ty: Option<Spanned<Type>>,
    pub body: Vec<Spanned<Expr>>,
}


impl DeepView for Branch {
    type V = BranchV;

    open spec fn deep_view(&self) -> BranchV {
        BranchV { head: expr::branch_head(*self), body: expr::trees(self.body@) }
    }
}

/// The mathematical counterpart of [`Branch`].
#[verifier::ext_equal]
pub struct BranchV {
    pub head: HandlerV,
    pub body: Seq<Tree>,
}

impl PatternKind {
    pub fn dup(&self) -> (r: PatternKind)
        ensures
            forall|p: Pattern|
                p.kind == r ==> #[trigger] pattern_view(p) == pattern_view(
                    Pattern { kind: *self, ..p },
                ),
        decreases *self,
    {
        match self {
            PatternKind::Var => PatternKind::Var,
            PatternKind::Wildcard => PatternKind::Wildcard,
            PatternKind::NumGuard(n) => PatternKind::NumGuard(*n),
            PatternKind::StrGuard(s) => PatternKind::StrGuard(s.clone()),
            PatternKind::AtomGuard(s) => PatternKind::AtomGuard(s.clone()),
            PatternKind::Tuple(elems) => PatternKind::Tuple(dup_patterns(elems)),
        }
    }
}

impl Pattern {
    pub fn dup(&self) -> (r: Pattern)
        ensures
            pattern_view(r) == pattern_view(*self),
        decreases *self,
    {
        let kind = self.kind.dup();
        let r = Pattern { ident: dup_ident(&self.ident), ty: dup_type(&self.ty), kind };
        proof {
            assert(pattern_view(r) == pattern_view(Pattern { kind: self.kind, ..r }));
        }
        r
    }
}

impl Clone for PatternKind {
    fn clone(&self) -> (r: PatternKind) {
        self.dup()
    }
}

impl Clone for Pattern {
    fn clone(&self) -> (r: Pattern)
        ensures
            pattern_view(r) == pattern_view(*self),
    {
        self.dup()
    }
}

/// Copies a list of patterns.
pub fn dup_patterns(ps: &Vec<Spanned<Pattern>>) -> (r: Vec<Spanned<Pattern>>)
    ensures
        patterns_view(r@) == patterns_view(ps@),
        r@.len() == ps@.len(),
    decreases *ps,
{
    let mut out: Vec<Spanned<Pattern>> = Vec::new();
    let mut i: usize = 0;
    while i < ps.len()
        invariant
            i <= ps.len(),
            out@.len() == i,
            forall|j: int|
                0 <= j < i ==> pattern_view((#[trigger] out@[j]).inner) == pattern_view(ps@[j].inner)
                    && out@[j].span == ps@[j].span,
        decreases ps.len() - i,
    {
        proof {
            assert(decreases_to!(*ps => ps@[i as int].inner));
        }
        out.push(Spanned { inner: ps[i].inner.dup(), span: ps[i].span });
        i = i + 1;
    }
    proof {
        assert(patterns_view(out@) =~= patterns_view(ps@));
    }
    out
}

impl Branch {
    pub fn new(
        label: Option<Spanned<Ident>>,
        patterns: Vec<Spanned<Pattern>>,
        ret_ty: Option<Spanned<Type>>,
        body: Vec<Spanned<Expr>>,
    ) -> (r: Branch)
        ensures
            r == (Branch { label, patterns, ret_ty, body }),
    {
        Branch { label, patterns, ret_ty, body }
    }

    pub fn dup(&self) -> (r: Branch)
        ensures
            expr::branch_head(r) == expr::branch_head(*self),
            expr::trees(r.body@) == expr::trees(self.body@),
        decreases *self,
    {
        let r = Branch {
            label: dup_opt_ident(&self.label),
            patterns: dup_patterns(&self.patterns),
            ret_ty: dup_opt_type(&self.ret_ty),
            body: dup_exprs(&self.body),
        };
        r
    }
}

impl Clone for Branch {
    fn clone(&self) -> (r: Branch)
        ensures
            r.deep_view() == self.deep_view(),
    {
        self.dup()
    }
}

impl Pattern {
    /// Build a pattern from an ident token.  `_` is the wildcard, an integer
    /// literal a numeric guard, anything else a binding.
    pub fn new(ident: Spanned<Ident>, ty: Spanned<Type>) -> (r: Pattern)
        ensures
            pattern_view(r) == new_pattern(ident.deep_view(), ty.deep_view()),
    {
        let kind = if same(ident.inner.as_str(), "_") {
            PatternKind::Wildcard
        } else {
            match parse_int_literal(ident.inner.as_str()) {
                Ok(n) => PatternKind::NumGuard(n),
                Err(_) => PatternKind::Var,
            }
        };
        Pattern { ident, ty, kind }
    }

    /// Build a string-literal guard pattern.
    pub fn new_string_guard(ident: Spanned<Ident>, ty: Spanned<Type>) -> (r: Pattern)
        ensures
            pattern_view(r) == (PatternV {
                ident: ident.deep_view(),
                ty: ty.deep_view(),
                kind: PatternKindV::StrGuard(ident.inner.deep_view()),
            }),
    {
        let s = ident.inner.0.clone();
        Pattern { ident, ty, kind: PatternKind::StrGuard(s) }
    }

    /// Build an atom guard `:name`; it carries no type annotation.
    pub fn new_atom_guard(name: &str, span: SimpleSpan) -> (r: Pattern)
        ensures
            pattern_view(r) == (PatternV {
                ident: Spanned { inner: name@, span },
                ty: Spanned { inner: TypeV::Unit, span },
                kind: PatternKindV::AtomGuard(name@),
            }),
    {
        Pattern {
            ident: Ident::new(name).with_span(span),
            ty: Type::Unit.with_span(span),
            kind: PatternKind::AtomGuard(name.to_owned()),
        }
    }

    /// Build a tuple destructuring pattern; its own identifier is `_`.
    pub fn new_tuple(elems: Vec<Spanned<Pattern>>, span: SimpleSpan) -> (r: Pattern)
        ensures
            pattern_view(r) == tuple_pattern(patterns_view(elems@), span),
    {
        Pattern {
            ident: Ident::new("_").with_span(span),
            ty: Type::Unit.with_span(span),
            kind: PatternKind::Tuple(elems),
        }
    }

    pub fn is_wildcard(&self) -> (r: bool)
        ensures
            r == (pattern_view(*self).kind is Wildcard),
    {
        matches!(self.kind, PatternKind::Wildcard)
    }

    /// Returns true when the pattern is a literal guard (numeric or string).
    pub fn is_literal_guard(&self) -> (r: bool)
        ensures
            r == (pattern_view(*self).kind is NumGuard || pattern_view(*self).kind is StrGuard),
    {
        matches!(self.kind, PatternKind::NumGuard(_) | PatternKind::StrGuard(_))
    }

    /// Returns true when this is a string literal guard (e.g. `"hello" str`).
    pub fn is_string_guard(&self) -> (r: bool)
        ensures
            r == (pattern_view(*self).kind is StrGuard),
    {
        matches!(self.kind, PatternKind::StrGuard(_))
    }

    /// Returns the i64 guard value if this is a numeric literal guard.
    pub fn guard_i64(&self) -> (r: Option<i64>)
        ensures
            r == (match pattern_view(*self).kind {
                PatternKindV::NumGuard(n) => Some(n),
                _ => None,
            }),
    {
        match &self.kind {
            PatternKind::NumGuard(n) => Some(*n),
            _ => None,
        }
    }

    /// Returns the string guard value if this is a string literal guard.
    pub fn guard_str(&self) -> (r: Option<&str>)
        ensures
            match pattern_view(*self).kind {
                PatternKindV::StrGuard(s) => r is Some && r->0@ == s,
                _ => r is None,
            },
    {
        match &self.kind {
            PatternKind::StrGuard(s) => Some(s.as_str()),
            _ => None,
        }
    }
}

/// The pattern that an identifier or number token makes.
pub open spec fn new_pattern(ident: Spanned<Text>, ty: Spanned<TypeV>) -> PatternV {
    PatternV {
        ident,
        ty,
        kind: if ident.inner == "_"@ {
            PatternKindV::Wildcard
        } else {
            match expr::int_literal(ident.inner) {
                Some(n) => PatternKindV::NumGuard(n),
                None => PatternKindV::Var,
            }
        },
    }
}

/// The pattern that destructures a tuple.
pub open spec fn tuple_pattern(elems: Seq<Spanned<PatternV>>, span: SimpleSpan) -> PatternV {
    PatternV {
        ident: Spanned { inner: "_"@, span },
        ty: Spanned { inner: TypeV::Unit, span },
        kind: PatternKindV::Tuple(elems),
    }
}

} // verus!

verus! {

// ── declarations ───────────────────────────────────────────────────────────

/// A data field declaration inside a machine: `@ok.T`, `@.raw_box(T)`, `@.{ str }`
#[derive(Debug, PartialEq, PartialOrd, Clone)]
pub struct Field {
    /// `None` for anonymous fields (`@.type`)
    pub label: Option<Spanned<Ident>>,
    pub ty: Spanned<Type>,
}

pub struct FieldV {
    pub label: Option<Spanned<Text>>,
    pub ty: Spanned<TypeV>,
}

impl DeepView for Field {
    type V = FieldV;

    open spec fn deep_view(&self) -> FieldV {
        FieldV { label: self.label.deep_view(), ty: self.ty.deep_view() }
    }
}

impl Field {
    pub fn new(label: Option<Spanned<Ident>>, ty: Spanned<Type>) -> (r: Field)
        ensures
            r == (Field { label, ty }),
    {
        Field { label, ty }
    }
}

#[derive(Debug, PartialEq, PartialOrd, Clone)]
pub enum MachineItem {
    Field(Field),
    Branch(Branch),
}

#[verifier::ext_equal]
pub enum MachineItemV {
    Field(FieldV),
    Branch(BranchV),
}

impl DeepView for MachineItem {
    type V = MachineItemV;

    open spec fn deep_view(&self) -> MachineItemV {
        match *self {
            MachineItem::Field(f) => MachineItemV::Field(f.deep_view()),
            MachineItem::Branch(b) => MachineItemV::Branch(b.deep_view()),
        }
    }
}

/// Built-in macro attribute: `@rt_st(...)`, `@ffi(...)`, `@rt(...)`,
/// `@cfg(key="value")`
#[derive(Debug, PartialEq, PartialOrd, Clone)]
pub struct Directive {
    pub name: Spanned<Ident>,
    pub args: Vec<Spanned<Type>>,
    /// `key="value"` arguments
    pub kv_args: Vec<(Spanned<Ident>, Spanned<String>)>,
}

#[verifier::ext_equal]
pub struct DirectiveV {
    pub name: Spanned<Text>,
    pub args: Seq<Spanned<TypeV>>,
    pub kv_args: Seq<(Spanned<Text>, Spanned<Text>)>,
}

impl DeepView for Directive {
    type V = DirectiveV;

    open spec fn deep_view(&self) -> DirectiveV {
        DirectiveV {
            name: self.name.deep_view(),
            args: self.args.deep_view(),
            kv_args: kv_view(self.kv_args@),
        }
    }
}

pub open spec fn kv_view(kvs: Seq<(Spanned<Ident>, Spanned<String>)>) -> Seq<
    (Spanned<Text>, Spanned<Text>),
> {
    Seq::new(
        kvs.len(),
        |i: int|
            (kvs[i].0.deep_view(), Spanned { inner: kvs[i].1.inner@, span: kvs[i].1.span }),
    )
}

impl Directive {
    pub fn new(name: Spanned<Ident>, args: Vec<Spanned<Type>>) -> (r: Directive)
        ensures
            r.name == name,
            r.args == args,
            r.kv_args@.len() == 0,
    {
        Directive { name, args, kv_args: Vec::new() }
    }

    /// A directive with `key="value"` arguments only.
    pub fn with_kv(name: Spanned<Ident>, kv_args: Vec<(Spanned<Ident>, Spanned<String>)>) -> (r:
        Directive)
        ensures
            r.name == name,
            r.args@.len() == 0,
            r.kv_args == kv_args,
    {
        Directive { name, args: Vec::new(), kv_args }
    }
}

/// Named field in a record declaration: `name Type`.
#[derive(Debug, PartialEq, PartialOrd, Clone)]
pub struct RecordField {
    pub name: Spanned<Ident>,
    pub ty: Spanned<Type>,
}

pub struct RecordFieldV {
    pub name: Spanned<Text>,
    pub ty: Spanned<TypeV>,
}

impl DeepView for RecordField {
    type V = RecordFieldV;

    open spec fn deep_view(&self) -> RecordFieldV {
        RecordFieldV { name: self.name.deep_view(), ty: self.ty.deep_view() }
    }
}

/// `[pub] Name[T ...] is { field Type ... }` — nominal record type declaration.
#[derive(Debug, PartialEq, PartialOrd, Clone)]
pub struct RecordDecl {
    pub vis: bool,
    pub ident: Spanned<Ident>,
    pub type_params: Vec<Spanned<Ident>>,
    pub fields: Vec<Spanned<RecordField>>,
}

#[verifier::ext_equal]
pub struct RecordDeclV {
    pub vis: bool,
    pub ident: Spanned<Text>,
    pub type_params: Seq<Spanned<Text>>,
    pub fields: Seq<Spanned<RecordFieldV>>,
}

impl DeepView for RecordDecl {
    type V = RecordDeclV;

    open spec fn deep_view(&self) -> RecordDeclV {
        RecordDeclV {
            vis: self.vis,
            ident: self.ident.deep_view(),
            type_params: self.type_params.deep_view(),
            fields: self.fields.deep_view(),
        }
    }
}

/// `Name[T ...] is enum { ... }` — tagged-sum type declaration.
#[derive(Debug, PartialEq, PartialOrd, Clone)]
pub struct EnumDecl {
    pub name: Spanned<Ident>,
    pub type_params: Vec<Spanned<Ident>>,
    pub variants: Vec<Spanned<Variant>>,
}

/// One variant of an enum: `Get`, `Post(buf)` or `Open { from i64 }`.
#[derive(Debug, PartialEq, PartialOrd, Clone)]
pub struct Variant {
    pub name: Spanned<Ident>,
    pub payload: VariantPayload,
}

#[derive(Debug, PartialEq, PartialOrd, Clone)]
pub enum VariantPayload {
    NoPayload,
    Tuple(Vec<Spanned<Type>>),
    Record(Vec<(Spanned<Ident>, Spanned<Type>)>),
}

#[verifier::ext_equal]
pub struct EnumDeclV {
    pub name: Spanned<Text>,
    pub type_params: Seq<Spanned<Text>>,
    pub variants: Seq<Spanned<VariantV>>,
}

#[verifier::ext_equal]
pub struct VariantV {
    pub name: Spanned<Text>,
    pub payload: VariantPayloadV,
}

#[verifier::ext_equal]
pub enum VariantPayloadV {
    NoPayload,
    Tuple(Seq<Spanned<TypeV>>),
    Record(Seq<(Spanned<Text>, Spanned<TypeV>)>),
}

impl DeepView for EnumDecl {
    type V = EnumDeclV;

    open spec fn deep_view(&self) -> EnumDeclV {
        EnumDeclV {
            name: self.name.deep_view(),
            type_params: self.type_params.deep_view(),
            variants: self.variants.deep_view(),
        }
    }
}

impl DeepView for Variant {
    type V = VariantV;

    open spec fn deep_view(&self) -> VariantV {
        VariantV { name: self.name.deep_view(), payload: self.payload.deep_view() }
    }
}

impl DeepView for VariantPayload {
    type V = VariantPayloadV;

    open spec fn deep_view(&self) -> VariantPayloadV {
        match *self {
            VariantPayload::NoPayload => VariantPayloadV::NoPayload,
            VariantPayload::Tuple(ts) => VariantPayloadV::Tuple(ts.deep_view()),
            VariantPayload::Record(fs) => VariantPayloadV::Record(fs.deep_view()),
        }
    }
}

/// `Name is proto +Parent { method is { Self -> bool } ... }`
#[derive(Debug, PartialEq, PartialOrd, Clone)]
pub struct ProtoDecl {
    pub name: Spanned<Ident>,
    pub parents: Vec<Spanned<Ident>>,
    pub methods: Vec<Spanned<MethodSig>>,
}

/// One required method of a proto.
#[derive(Debug, PartialEq, PartialOrd, Clone)]
pub struct MethodSig {
    pub name: Spanned<Ident>,
    pub params: Vec<Spanned<Type>>,
    pub ret: Option<Spanned<Type>>,
}

#[verifier::ext_equal]
pub struct ProtoDeclV {
    pub name: Spanned<Text>,
    pub parents: Seq<Spanned<Text>>,
    pub methods: Seq<Spanned<MethodSigV>>,
}

#[verifier::ext_equal]
pub struct MethodSigV {
    pub name: Spanned<Text>,
    pub params: Seq<Spanned<TypeV>>,
    pub ret: Option<Spanned<TypeV>>,
}

impl DeepView for ProtoDecl {
    type V = ProtoDeclV;

    open spec fn deep_view(&self) -> ProtoDeclV {
        ProtoDeclV {
            name: self.name.deep_view(),
            parents: self.parents.deep_view(),
            methods: self.methods.deep_view(),
        }
    }
}

impl DeepView for MethodSig {
    type V = MethodSigV;

    open spec fn deep_view(&self) -> MethodSigV {
        MethodSigV {
            name: self.name.deep_view(),
            params: self.params.deep_view(),
            ret: self.ret.deep_view(),
        }
    }
}

/// `X is Eq Show` — the promise that `X` satisfies the named protos.
#[derive(Debug, PartialEq, PartialOrd, Clone)]
pub struct ImplDecl {
    pub ty: Spanned<Ident>,
    pub protos: Vec<Spanned<Ident>>,
}

#[verifier::ext_equal]
pub struct ImplDeclV {
    pub ty: Spanned<Text>,
    pub protos: Seq<Spanned<Text>>,
}

impl DeepView for ImplDecl {
    type V = ImplDeclV;

    open spec fn deep_view(&self) -> ImplDeclV {
        ImplDeclV { ty: self.ty.deep_view(), protos: self.protos.deep_view() }
    }
}

/// `[pub] const NAME = <literal>`.  The type follows from the literal kind
/// (Num → i64, String → str, Bool → bool).
#[derive(Debug, PartialEq, PartialOrd, Clone)]
pub struct ConstDecl {
    pub vis: bool,
    pub ident: Spanned<Ident>,
    pub value: Spanned<Expr>,
}

pub struct ConstDeclV {
    pub vis: bool,
    pub ident: Spanned<Text>,
    pub value: Tree,
}

impl DeepView for ConstDecl {
    type V = ConstDeclV;

    open spec fn deep_view(&self) -> ConstDeclV {
        ConstDeclV {
            vis: self.vis,
            ident: self.ident.deep_view(),
            value: expr::tree_of(self.value),
        }
    }
}

impl ConstDecl {
    pub fn new(vis: bool, ident: Spanned<Ident>, value: Spanned<Expr>) -> (r: ConstDecl)
        ensures
            r == (ConstDecl { vis, ident, value }),
    {
        ConstDecl { vis, ident, value }
    }
}

/// `[pub] name[T: Bound ...] is { ... }` — process / function definition.
#[derive(Debug, PartialEq, PartialOrd, Clone)]
pub struct Machine {
    /// Attributes like `@rt`, `@ffi` that precede the machine
    pub attrs: Vec<Spanned<Directive>>,
    pub vis: bool,
    pub ident: Spanned<Ident>,
    /// Generic type parameters
    pub generics: Vec<Spanned<Ident>>,
    /// Protos that the type parameters are bound by
    pub bounds: Vec<(Spanned<Ident>, Vec<Spanned<Ident>>)>,
    pub items: Vec<Spanned<MachineItem>>,
}

#[verifier::ext_equal]
pub struct MachineV {
    pub attrs: Seq<Spanned<DirectiveV>>,
    pub vis: bool,
    pub ident: Spanned<Text>,
    pub generics: Seq<Spanned<Text>>,
    pub bounds: Seq<(Spanned<Text>, Seq<Spanned<Text>>)>,
    pub items: Seq<Spanned<MachineItemV>>,
}

impl DeepView for Machine {
    type V = MachineV;

    open spec fn deep_view(&self) -> MachineV {
        MachineV {
            attrs: self.attrs.deep_view(),
            vis: self.vis,
            ident: self.ident.deep_view(),
            generics: self.generics.deep_view(),
            bounds: self.bounds.deep_view(),
            items: self.items.deep_view(),
        }
    }
}

impl Machine {
    pub fn new(
        attrs: Vec<Spanned<Directive>>,
        vis: bool,
        ident: Spanned<Ident>,
        generics: Vec<Spanned<Ident>>,
        items: Vec<Spanned<MachineItem>>,
    ) -> (r: Machine)
        ensures
            r.attrs == attrs,
            r.vis == vis,
            r.ident == ident,
            r.generics == generics,
            r.bounds@.len() == 0,
            r.items == items,
    {
        Machine { attrs, vis, ident, generics, bounds: Vec::new(), items }
    }

    /// A machine whose type parameters are bound by protos.
    pub fn with_bounds(
        attrs: Vec<Spanned<Directive>>,
        vis: bool,
        ident: Spanned<Ident>,
        generics: Vec<Spanned<Ident>>,
        bounds: Vec<(Spanned<Ident>, Vec<Spanned<Ident>>)>,
        items: Vec<Spanned<MachineItem>>,
    ) -> (r: Machine)
        ensures
            r == (Machine { attrs, vis, ident, generics, bounds, items }),
    {
        Machine { attrs, vis, ident, generics, bounds, items }
    }
}

/// An import tree.
#[derive(Debug, PartialEq, PartialOrd)]
pub enum Import {
    /// `+core.io.writer` or `+core.io.writer as wr`: a segment, what follows
    /// it, and the alias.  The alias only means something on a leaf.
    Import(Spanned<Ident>, Option<Box<Spanned<Import>>>, Option<Spanned<Ident>>),
    /// `+core.{ box.box result.result }`
    MultiImport(Vec<Spanned<Import>>),
}

#[verifier::ext_equal]
pub enum ImportV {
    Import(Spanned<Text>, Option<Box<Spanned<ImportV>>>, Option<Spanned<Text>>),
    MultiImport(Seq<Spanned<ImportV>>),
}

pub open spec fn import_view(i: Import) -> ImportV
    decreases i,
{
    match i {
        Import::Import(id, next, alias) => ImportV::Import(
            id.deep_view(),
            match next {
                Some(n) => Some(Box::new(Spanned { inner: import_view(n.inner), span: n.span })),
                None => None,
            },
            alias.deep_view(),
        ),
        Import::MultiImport(entries) => ImportV::MultiImport(imports_view(entries@)),
    }
}

pub open spec fn imports_view(es: Seq<Spanned<Import>>) -> Seq<Spanned<ImportV>>
    decreases es,
{
    Seq::new(
        es.len(),
        |i: int|
            if 0 <= i < es.len() {
                Spanned { inner: import_view(es[i].inner), span: es[i].span }
            } else {
                arbitrary()
            },
    )
}

impl DeepView for Import {
    type V = ImportV;

    open spec fn deep_view(&self) -> ImportV {
        import_view(*self)
    }
}

impl Import {
    /// Put `next` behind this segment.
    pub fn set_next(&mut self, next: Spanned<Import>)
        requires
            *old(self) is Import,
        ensures
            match *old(self) {
                Import::Import(id, _, alias) => *final(self) == Import::Import(
                    id,
                    Some(Box::new(next)),
                    alias,
                ),
                Import::MultiImport(_) => true,
            },
    {
        match self {
            Import::Import(_, slot, _) => {
                *slot = Some(Box::new(next));
            },
            Import::MultiImport(_) => {},
        }
    }

    /// Attach an alias to this node.
    pub fn set_alias(&mut self, alias: Spanned<Ident>)
        requires
            *old(self) is Import,
        ensures
            match *old(self) {
                Import::Import(id, next, _) => *final(self) == Import::Import(
                    id,
                    next,
                    Some(alias),
                ),
                Import::MultiImport(_) => true,
            },
    {
        match self {
            Import::Import(_, _, slot) => {
                *slot = Some(alias);
            },
            Import::MultiImport(_) => {},
        }
    }
}

/// A top-level item in a Lake program.
#[derive(Debug, PartialEq, PartialOrd)]
pub enum Item {
    /// `+core.io.writer` or `+core.{ a b }`
    Import(Spanned<Import>),
    /// `@rt(name)` / `@ffi(...)` — built-in macro attribute
    Directive(Spanned<Directive>),
    /// `[pub] name is { ... }` — process / function definition
    Machine(Spanned<Machine>),
    /// `[pub] const NAME = <literal>` — module-level compile-time constant.
    Const(Spanned<ConstDecl>),
    /// `[pub] Name is { field Type ... }` — nominal record type.
    Record(Spanned<RecordDecl>),
    /// `Name is enum { ... }` — tagged-sum type.
    Enum(Spanned<EnumDecl>),
    /// `Name is proto { ... }` — a set of required methods.
    Proto(Spanned<ProtoDecl>),
    /// `X is Eq Show` — the promise that `X` satisfies protos.
    Impl(Spanned<ImplDecl>),
}

#[verifier::ext_equal]
pub enum ItemV {
    Import(Spanned<ImportV>),
    Directive(Spanned<DirectiveV>),
    Machine(Spanned<MachineV>),
    Const(Spanned<ConstDeclV>),
    Record(Spanned<RecordDeclV>),
    Enum(Spanned<EnumDeclV>),
    Proto(Spanned<ProtoDeclV>),
    Impl(Spanned<ImplDeclV>),
}

impl DeepView for Item {
    type V = ItemV;

    open spec fn deep_view(&self) -> ItemV {
        match *self {
            Item::Import(x) => ItemV::Import(x.deep_view()),
            Item::Directive(x) => ItemV::Directive(x.deep_view()),
            Item::Machine(x) => ItemV::Machine(x.deep_view()),
            Item::Const(x) => ItemV::Const(x.deep_view()),
            Item::Record(x) => ItemV::Record(x.deep_view()),
            Item::Enum(x) => ItemV::Enum(x.deep_view()),
            Item::Proto(x) => ItemV::Proto(x.deep_view()),
            Item::Impl(x) => ItemV::Impl(x.deep_view()),
        }
    }
}

} // verus!

verus! {

// ── comparing types ────────────────────────────────────────────────────────

/// Whether two types are the same, spans included.
pub fn same_type(a: &Type, b: &Type) -> (r: bool)
    ensures
        r == (type_view(*a) == type_view(*b)),
    decreases *a,
{
    match (a, b) {
        (Type::Named(x), Type::Named(y)) => same_ident(x, y),
        (Type::TypeVar(x), Type::TypeVar(y)) => same_ident(x, y),
        (Type::Generic(x, xs), Type::Generic(y, ys)) => {
            let r = same_types(xs, ys);
            same_ident(x, y) && r
        },
        (
            Type::NamedGeneric { name: x, args: xs },
            Type::NamedGeneric { name: y, args: ys },
        ) => {
            let r = same_types(xs, ys);
            same_ident(x, y) && r
        },
        (Type::Path(x, xr), Type::Path(y, yr)) => {
            let r = same_type(&xr.inner, &yr.inner);
            same_ident(x, y) && xr.span == yr.span && r
        },
        (Type::Unit, Type::Unit) => true,
        (Type::Unknown, Type::Unknown) => true,
        (Type::Struct(xs), Type::Struct(ys)) => same_types(xs, ys),
        _ => false,
    }
}

/// Whether two lists of types are the same, spans included.
pub fn same_types(a: &Vec<Spanned<Type>>, b: &Vec<Spanned<Type>>) -> (r: bool)
    ensures
        r == (types_view(a@) == types_view(b@)),
    decreases *a,
{
    if a.len() != b.len() {
        proof {
            assert(types_view(a@).len() != types_view(b@).len());
        }
        return false;
    }
    let mut i: usize = 0;
    while i < a.len()
        invariant
            a.len() == b.len(),
            i <= a.len(),
            forall|j: int|
                0 <= j < i ==> type_view((#[trigger] a@[j]).inner) == type_view(b@[j].inner)
                    && a@[j].span == b@[j].span,
        decreases a.len() - i,
    {
        proof {
            assert(decreases_to!(*a => a@[i as int].inner));
        }
        if !(same_type(&a[i].inner, &b[i].inner) && a[i].span == b[i].span) {
            proof {
                assert(types_view(a@)[i as int] != types_view(b@)[i as int]);
            }
            return false;
        }
        i = i + 1;
    }
    proof {
        assert(types_view(a@) =~= types_view(b@));
    }
    true
}

/// Whether two identifiers are the same, spans included.
pub fn same_ident(a: &Spanned<Ident>, b: &Spanned<Ident>) -> (r: bool)
    ensures
        r == (a.deep_view() == b.deep_view()),
{
    same(a.inner.as_str(), b.inner.as_str()) && a.span == b.span
}

} // verus!

verus! {

// ── copies of declarations ─────────────────────────────────────────────────

impl Field {
    pub fn dup(&self) -> (r: Field)
        ensures
            r.deep_view() == self.deep_view(),
    {
        Field { label: dup_opt_ident(&self.label), ty: dup_type(&self.ty) }
    }
}

impl Directive {
    pub fn dup(&self) -> (r: Directive)
        ensures
            r.deep_view() == self.deep_view(),
    {
        let args = dup_types(&self.args);
        let mut kv_args: Vec<(Spanned<Ident>, Spanned<String>)> = Vec::new();
        let mut i: usize = 0;
        while i < self.kv_args.len()
            invariant
                i <= self.kv_args.len(),
                kv_args@.len() == i,
                forall|j: int|
                    0 <= j < i ==> (#[trigger] kv_args@[j]).0.deep_view()
                        == self.kv_args@[j].0.deep_view() && kv_args@[j].1.inner@
                        == self.kv_args@[j].1.inner@ && kv_args@[j].1.span
                        == self.kv_args@[j].1.span,
            decreases self.kv_args.len() - i,
        {
            let kv = &self.kv_args[i];
            kv_args.push(
                (dup_ident(&kv.0), Spanned { inner: kv.1.inner.clone(), span: kv.1.span }),
            );
            i = i + 1;
        }
        let r = Directive { name: dup_ident(&self.name), args, kv_args };
        proof {
            types_view_is_deep_view(self.args);
            types_view_is_deep_view(args);
            assert(kv_view(kv_args@) =~= kv_view(self.kv_args@));
        }
        r
    }
}

/// A copy of a list of directives.
pub fn dup_directives(ds: &Vec<Spanned<Directive>>) -> (r: Vec<Spanned<Directive>>)
    ensures
        r.deep_view() == ds.deep_view(),
{
    let mut out: Vec<Spanned<Directive>> = Vec::new();
    let mut i: usize = 0;
    while i < ds.len()
        invariant
            i <= ds.len(),
            out@.len() == i,
            forall|j: int| 0 <= j < i ==> (#[trigger] out@[j]).deep_view() == ds@[j].deep_view(),
        decreases ds.len() - i,
    {
        out.push(Spanned { inner: ds[i].inner.dup(), span: ds[i].span });
        i = i + 1;
    }
    proof {
        assert(out.deep_view() =~= ds.deep_view());
    }
    out
}

} // verus!
