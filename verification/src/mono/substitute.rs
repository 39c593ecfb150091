//! Putting concrete types for type parameters.

use vstd::prelude::*;

use crate::api::ast;
use crate::api::ast::{
    dup_ident, Branch, Ident, Pattern, PatternKind, PatternKindV, PatternV, Type, TypeV,
};
use crate::api::expr;
use crate::api::expr::{close, open, Expr, HandlerV, Head, Shape, Tree};
use crate::lowering::tuples;
use crate::mono::state;
use crate::mono::state::{EnvV, MonoCx, MonoState, MonoV};
use crate::mono::types;
use crate::mono::types::look_up;
use crate::name_map::NameMap;
use crate::span::{SpanWrap, Spanned};
use crate::text::Text;

verus! {

/// The types of a list, without their places.
pub open spec fn inners(ts: Seq<Spanned<TypeV>>) -> Seq<TypeV> {
    Seq::new(ts.len(), |i: int| ts[i].inner)
}

/// A type with its parameters replaced; generic records and enums become
/// the names of their copies.
pub open spec fn substituted(env: EnvV, m: MonoV, t: TypeV, subst: Map<Text, TypeV>) -> (
    TypeV,
    MonoV,
)
    decreases t, 0nat,
{
    match t {
        TypeV::TypeVar(id) => (types::looked_up(t, id.inner, subst), m),
        TypeV::Named(id) => (types::looked_up(t, id.inner, subst), m),
        TypeV::NamedGeneric(name, args) => {
            let (args2, m2) = substituted_all(env, m, args, args.len(), subst);
            folded(env, m2, name, args2)
        },
        TypeV::Struct(fields) => {
            let (fields2, m2) = substituted_all(env, m, fields, fields.len(), subst);
            (TypeV::Struct(fields2), m2)
        },
        TypeV::Path(seg, rest, span) => {
            let (rest2, m2) = substituted(env, m, *rest, subst);
            (TypeV::Path(seg, Box::new(rest2), span), m2)
        },
        TypeV::Generic(name, args) => {
            let (args2, m2) = substituted_all(env, m, args, args.len(), subst);
            (TypeV::Generic(name, args2), m2)
        },
        TypeV::Unit => (t, m),
        TypeV::Unknown => (t, m),
    }
}

/// A generic type with concrete arguments: the name of a copy, where the
/// head is a known template.
pub open spec fn folded(env: EnvV, m: MonoV, name: Spanned<Text>, args: Seq<Spanned<TypeV>>) -> (
    TypeV,
    MonoV,
) {
    if env.templates.records.contains_key(name.inner) {
        let (copy, m2) = state::record_asked(m, name.inner, inners(args));
        (TypeV::Named(Spanned { inner: copy, span: name.span }), m2)
    } else if env.templates.enums.contains_key(name.inner) {
        let (copy, m2) = state::enum_asked(m, name.inner, inners(args));
        (TypeV::Named(Spanned { inner: copy, span: name.span }), m2)
    } else {
        (TypeV::NamedGeneric(name, args), m)
    }
}

/// [`substituted`] on the first `n` types, from left to right.
pub open spec fn substituted_all(
    env: EnvV,
    m: MonoV,
    ts: Seq<Spanned<TypeV>>,
    n: nat,
    subst: Map<Text, TypeV>,
) -> (Seq<Spanned<TypeV>>, MonoV)
    decreases ts, n,
{
    if n == 0 || n > ts.len() {
        (Seq::empty(), m)
    } else {
        let (before, m1) = substituted_all(env, m, ts, (n - 1) as nat, subst);
        let (t, m2) = substituted(env, m1, ts[n - 1].inner, subst);
        (before.push(Spanned { inner: t, span: ts[n - 1].span }), m2)
    }
}

pub fn inner_types(ts: &Vec<Spanned<Type>>) -> (r: Vec<Type>)
    ensures
        r.deep_view() == inners(ast::types_view(ts@)),
{
    let ghost tv = ast::types_view(ts@);
    let mut out: Vec<Type> = Vec::new();
    let mut i: usize = 0;
    while i < ts.len()
        invariant
            i <= ts.len(),
            tv == ast::types_view(ts@),
            out@.len() == i,
            forall|j: int| 0 <= j < i ==> ast::type_view(#[trigger] out@[j]) == tv[j].inner,
        decreases ts.len() - i,
    {
        out.push(ts[i].inner.dup());
        i = i + 1;
    }
    proof {
        assert(out.deep_view() =~= inners(tv));
    }
    out
}

impl<'a> MonoCx<'a> {
    /// Apply a substitution to one type, asking for the copies that it
    /// names.
    pub fn substitute_type(&self, t: &Type, subst: &NameMap<Type>, st: &mut MonoState) -> (r: Type)
        ensures
            (ast::type_view(r), final(st).deep_view()) == substituted(
                self.deep_view(),
                old(st).deep_view(),
                ast::type_view(*t),
                subst.deep_view(),
            ),
        decreases *t, 0nat,
    {
        match t {
            Type::TypeVar(id) => look_up(t, id.inner.0.as_str(), subst),
            Type::Named(id) => look_up(t, id.inner.0.as_str(), subst),
            Type::NamedGeneric { name, args } => {
                proof {
                    assert(ast::type_view(*t) == TypeV::NamedGeneric(
                        name.deep_view(),
                        ast::types_view(args@),
                    ));
                }
                let args = self.substitute_types(args, subst, st);
                if self.templates.records.contains_key(name.inner.0.as_str()) {
                    let copy = st.intern_record_mono(name.inner.0.as_str(), inner_types(&args));
                    Type::Named(Ident(copy).with_span(name.span))
                } else if self.templates.enums.contains_key(name.inner.0.as_str()) {
                    let copy = st.intern_enum_mono(name.inner.0.as_str(), inner_types(&args));
                    Type::Named(Ident(copy).with_span(name.span))
                } else {
                    Type::NamedGeneric { name: dup_ident(name), args }
                }
            },
            Type::Struct(fields) => {
                proof {
                    assert(ast::type_view(*t) == TypeV::Struct(ast::types_view(fields@)));
                }
                Type::Struct(self.substitute_types(fields, subst, st))
            },
            Type::Path(seg, rest) => {
                let inner = self.substitute_type(&*rest.inner, subst, st);
                Type::Path(dup_ident(seg), Spanned { inner: Box::new(inner), span: rest.span })
            },
            Type::Generic(name, args) => {
                proof {
                    assert(ast::type_view(*t) == TypeV::Generic(
                        name.deep_view(),
                        ast::types_view(args@),
                    ));
                }
                let args = self.substitute_types(args, subst, st);
                Type::Generic(dup_ident(name), args)
            },
            Type::Unit => Type::Unit,
            Type::Unknown => Type::Unknown,
        }
    }

    pub fn substitute_types(
        &self,
        ts: &Vec<Spanned<Type>>,
        subst: &NameMap<Type>,
        st: &mut MonoState,
    ) -> (r: Vec<Spanned<Type>>)
        ensures
            (ast::types_view(r@), final(st).deep_view()) == substituted_all(
                self.deep_view(),
                old(st).deep_view(),
                ast::types_view(ts@),
                ts@.len(),
                subst.deep_view(),
            ),
        decreases *ts, 1nat,
    {
        let ghost env = self.deep_view();
        let ghost m = st.deep_view();
        let ghost tv = ast::types_view(ts@);
        let ghost sv = subst.deep_view();
        let mut out: Vec<Spanned<Type>> = Vec::new();
        proof {
            assert(ast::types_view(out@) =~= Seq::<Spanned<TypeV>>::empty());
        }
        let mut i: usize = 0;
        while i < ts.len()
            invariant
                i <= ts.len(),
                env == self.deep_view(),
                tv == ast::types_view(ts@),
                sv == subst.deep_view(),
                (ast::types_view(out@), st.deep_view()) == substituted_all(
                    env,
                    m,
                    tv,
                    i as nat,
                    sv,
                ),
            decreases ts.len() - i,
        {
            let ghost before = out@;
            proof {
                assert(tv[i as int] == Spanned {
                    inner: ast::type_view(ts@[i as int].inner),
                    span: ts@[i as int].span,
                });
            }
            let one = self.substitute_type(&ts[i].inner, subst, st).with_span(ts[i].span);
            let ghost ov = Spanned { inner: ast::type_view(one.inner), span: one.span };
            out.push(one);
            proof {
                assert(ast::types_view(out@) =~= ast::types_view(before).push(ov));
            }
            i = i + 1;
        }
        out
    }
}

// ── patterns ───────────────────────────────────────────────────────────────

/// A pattern whose type is substituted.
pub open spec fn sub_pattern(env: EnvV, m: MonoV, p: PatternV, subst: Map<Text, TypeV>) -> (
    PatternV,
    MonoV,
) {
    let (ty, m2) = substituted(env, m, p.ty.inner, subst);
    (PatternV { ty: Spanned { inner: ty, span: p.ty.span }, ..p }, m2)
}

/// The first `n` patterns, their types substituted.
pub open spec fn sub_patterns(
    env: EnvV,
    m: MonoV,
    ps: Seq<Spanned<PatternV>>,
    n: nat,
    subst: Map<Text, TypeV>,
) -> (Seq<Spanned<PatternV>>, MonoV)
    decreases n,
{
    if n == 0 {
        (Seq::empty(), m)
    } else {
        let (before, m1) = sub_patterns(env, m, ps, (n - 1) as nat, subst);
        let (p, m2) = sub_pattern(env, m1, ps[n - 1].inner, subst);
        (before.push(Spanned { inner: p, span: ps[n - 1].span }), m2)
    }
}

/// A pattern whose type is substituted, and those of its elements.
pub open spec fn sub_pattern_deep(env: EnvV, m: MonoV, p: PatternV, subst: Map<Text, TypeV>) -> (
    PatternV,
    MonoV,
) {
    let (p2, m2) = sub_pattern(env, m, p, subst);
    match p.kind {
        PatternKindV::Tuple(elems) => {
            let (elems2, m3) = sub_patterns(env, m2, elems, elems.len(), subst);
            (PatternV { kind: PatternKindV::Tuple(elems2), ..p2 }, m3)
        },
        _ => (p2, m2),
    }
}

/// The first `n` patterns, their types and those of their elements
/// substituted.
pub open spec fn sub_patterns_deep(
    env: EnvV,
    m: MonoV,
    ps: Seq<Spanned<PatternV>>,
    n: nat,
    subst: Map<Text, TypeV>,
) -> (Seq<Spanned<PatternV>>, MonoV)
    decreases n,
{
    if n == 0 {
        (Seq::empty(), m)
    } else {
        let (before, m1) = sub_patterns_deep(env, m, ps, (n - 1) as nat, subst);
        let (p, m2) = sub_pattern_deep(env, m1, ps[n - 1].inner, subst);
        (before.push(Spanned { inner: p, span: ps[n - 1].span }), m2)
    }
}

/// A return type, substituted.
pub open spec fn sub_ret(
    env: EnvV,
    m: MonoV,
    ret: Option<Spanned<TypeV>>,
    subst: Map<Text, TypeV>,
) -> (Option<Spanned<TypeV>>, MonoV) {
    match ret {
        Some(t) => {
            let (ty, m2) = substituted(env, m, t.inner, subst);
            (Some(Spanned { inner: ty, span: t.span }), m2)
        },
        None => (None, m),
    }
}

impl<'a> MonoCx<'a> {
    fn substitute_pattern(&self, p: Pattern, subst: &NameMap<Type>, st: &mut MonoState) -> (r:
        Pattern)
        ensures
            (ast::pattern_view(r), final(st).deep_view()) == sub_pattern(
                self.deep_view(),
                old(st).deep_view(),
                ast::pattern_view(p),
                subst.deep_view(),
            ),
    {
        let ty = self.substitute_type(&p.ty.inner, subst, st).with_span(p.ty.span);
        Pattern { ident: p.ident, ty, kind: p.kind }
    }

    /// The types of patterns, substituted.
    pub fn substitute_patterns(
        &self,
        ps: Vec<Spanned<Pattern>>,
        subst: &NameMap<Type>,
        st: &mut MonoState,
    ) -> (r: Vec<Spanned<Pattern>>)
        ensures
            (ast::patterns_view(r@), final(st).deep_view()) == sub_patterns(
                self.deep_view(),
                old(st).deep_view(),
                ast::patterns_view(ps@),
                ps@.len(),
                subst.deep_view(),
            ),
    {
        let ghost env = self.deep_view();
        let ghost m = st.deep_view();
        let ghost ps0 = ps@;
        let ghost pv = ast::patterns_view(ps0);
        let ghost sv = subst.deep_view();
        let mut out: Vec<Spanned<Pattern>> = Vec::new();
        proof {
            assert(ast::patterns_view(out@) =~= Seq::<Spanned<PatternV>>::empty());
        }
        for p in it: ps
            invariant
                it.seq() == ps0,
                env == self.deep_view(),
                pv == ast::patterns_view(ps0),
                sv == subst.deep_view(),
                (ast::patterns_view(out@), st.deep_view()) == sub_patterns(
                    env,
                    m,
                    pv,
                    it.index() as nat,
                    sv,
                ),
        {
            let ghost before = out@;
            proof {
                assert(pv[it.index() as int] == Spanned {
                    inner: ast::pattern_view(p.inner),
                    span: p.span,
                });
            }
            let span = p.span;
            let one = self.substitute_pattern(p.inner, subst, st).with_span(span);
            let ghost ov = Spanned { inner: ast::pattern_view(one.inner), span };
            out.push(one);
            proof {
                assert(ast::patterns_view(out@) =~= ast::patterns_view(before).push(ov));
            }
        }
        out
    }

    fn substitute_pattern_deep(&self, p: Pattern, subst: &NameMap<Type>, st: &mut MonoState) -> (r:
        Pattern)
        ensures
            (ast::pattern_view(r), final(st).deep_view()) == sub_pattern_deep(
                self.deep_view(),
                old(st).deep_view(),
                ast::pattern_view(p),
                subst.deep_view(),
            ),
    {
        let ty = self.substitute_type(&p.ty.inner, subst, st).with_span(p.ty.span);
        let kind = match p.kind {
            PatternKind::Tuple(elems) => {
                proof {
                    assert(ast::pattern_view(p).kind == PatternKindV::Tuple(
                        ast::patterns_view(elems@),
                    ));
                }
                PatternKind::Tuple(self.substitute_patterns(elems, subst, st))
            },
            other => other,
        };
        Pattern { ident: p.ident, ty, kind }
    }

    pub fn substitute_patterns_deep(
        &self,
        ps: Vec<Spanned<Pattern>>,
        subst: &NameMap<Type>,
        st: &mut MonoState,
    ) -> (r: Vec<Spanned<Pattern>>)
        ensures
            (ast::patterns_view(r@), final(st).deep_view()) == sub_patterns_deep(
                self.deep_view(),
                old(st).deep_view(),
                ast::patterns_view(ps@),
                ps@.len(),
                subst.deep_view(),
            ),
    {
        let ghost env = self.deep_view();
        let ghost m = st.deep_view();
        let ghost ps0 = ps@;
        let ghost pv = ast::patterns_view(ps0);
        let ghost sv = subst.deep_view();
        let mut out: Vec<Spanned<Pattern>> = Vec::new();
        proof {
            assert(ast::patterns_view(out@) =~= Seq::<Spanned<PatternV>>::empty());
        }
        for p in it: ps
            invariant
                it.seq() == ps0,
                env == self.deep_view(),
                pv == ast::patterns_view(ps0),
                sv == subst.deep_view(),
                (ast::patterns_view(out@), st.deep_view()) == sub_patterns_deep(
                    env,
                    m,
                    pv,
                    it.index() as nat,
                    sv,
                ),
        {
            let ghost before = out@;
            proof {
                assert(pv[it.index() as int] == Spanned {
                    inner: ast::pattern_view(p.inner),
                    span: p.span,
                });
            }
            let span = p.span;
            let one = self.substitute_pattern_deep(p.inner, subst, st).with_span(span);
            let ghost ov = Spanned { inner: ast::pattern_view(one.inner), span };
            out.push(one);
            proof {
                assert(ast::patterns_view(out@) =~= ast::patterns_view(before).push(ov));
            }
        }
        out
    }

    /// A return type, substituted.
    pub fn substitute_ret(
        &self,
        ret: &Option<Spanned<Type>>,
        subst: &NameMap<Type>,
        st: &mut MonoState,
    ) -> (r: Option<Spanned<Type>>)
        ensures
            (r.deep_view(), final(st).deep_view()) == sub_ret(
                self.deep_view(),
                old(st).deep_view(),
                ret.deep_view(),
                subst.deep_view(),
            ),
    {
        match ret {
            Some(t) => Some(self.substitute_type(&t.inner, subst, st).with_span(t.span)),
            None => None,
        }
    }
}

// ── expressions ────────────────────────────────────────────────────────────

/// A node without its subtrees, the types in it substituted.
pub open spec fn sub_head(env: EnvV, m: MonoV, head: Head, subst: Map<Text, TypeV>) -> (
    Head,
    MonoV,
) {
    match head {
        Head::Var(name, ty) => {
            let (ty2, m2) = substituted(env, m, ty, subst);
            (Head::Var(name, ty2), m2)
        },
        Head::Num(s, ty) => {
            let (ty2, m2) = substituted(env, m, ty, subst);
            (Head::Num(s, ty2), m2)
        },
        Head::Str(s, ty) => {
            let (ty2, m2) = substituted(env, m, ty, subst);
            (Head::Str(s, ty2), m2)
        },
        Head::Let(ident, ty) => {
            let (ty2, m2) = substituted(env, m, ty.inner, subst);
            (Head::Let(ident, Spanned { inner: ty2, span: ty.span }), m2)
        },
        Head::Handler(h) => {
            let (ps, m2) = sub_patterns(env, m, h.patterns, h.patterns.len(), subst);
            let (ret, m3) = sub_ret(env, m2, h.ret_ty, subst);
            (Head::Handler(HandlerV { label: h.label, patterns: ps, ret_ty: ret }), m3)
        },
        _ => (head, m),
    }
}

/// Whether a substitution binds the first `n` parameters.
pub open spec fn binds_first(
    params: Seq<Spanned<Text>>,
    n: nat,
    subst: Map<Text, TypeV>,
) -> bool {
    forall|i: int| 0 <= i < n ==> subst.contains_key((#[trigger] params[i]).inner)
}

/// What the parameters of a template stand for, in order.
pub open spec fn bound_args(params: Seq<Spanned<Text>>, subst: Map<Text, TypeV>) -> Seq<TypeV> {
    Seq::new(params.len(), |i: int| subst[params[i].inner])
}

/// Whether a callee is the constructor of a generic record whose parameters
/// the substitution binds.
pub open spec fn folds(env: EnvV, callee: Tree, subst: Map<Text, TypeV>) -> bool {
    match callee.head {
        Head::Var(name, _) => {
            let records = env.templates.records;
            records.contains_key(name) && records[name].type_params.len() > 0 && binds_first(
                records[name].type_params,
                records[name].type_params.len(),
                subst,
            )
        },
        _ => false,
    }
}

/// A constructor of a generic record, named after the copy.
pub open spec fn folded_callee(env: EnvV, m: MonoV, callee: Tree, subst: Map<Text, TypeV>) -> (
    Tree,
    MonoV,
) {
    match callee.head {
        Head::Var(name, ty) => {
            let params = env.templates.records[name].type_params;
            let (copy, m2) = state::record_asked(m, name, bound_args(params, subst));
            (expr::leaf(Head::Var(copy, ty), callee.span), m2)
        },
        _ => (callee, m),
    }
}

/// An expression, the types in it substituted.  Names stay as they are.
pub open spec fn sub_tree(env: EnvV, m: MonoV, t: Tree, subst: Map<Text, TypeV>) -> (Tree, MonoV)
    decreases t, 0nat,
{
    let (head, m2) = sub_head(env, m, t.head, subst);
    let (kids, m3) = sub_kids(env, m2, t.kids, t.kids.len(), subst);
    (Tree { head, span: t.span, kids }, m3)
}

/// [`sub_tree`] on the first `n` trees, from left to right.
pub open spec fn sub_kids(
    env: EnvV,
    m: MonoV,
    ts: Seq<Tree>,
    n: nat,
    subst: Map<Text, TypeV>,
) -> (Seq<Tree>, MonoV)
    decreases ts, n,
{
    if n == 0 || n > ts.len() {
        (Seq::empty(), m)
    } else {
        let (before, m1) = sub_kids(env, m, ts, (n - 1) as nat, subst);
        let (t, m2) = sub_tree(env, m1, ts[n - 1], subst);
        (before.push(t), m2)
    }
}

proof fn sub_kids_after_first(
    env: EnvV,
    m: MonoV,
    ts: Seq<Tree>,
    n: nat,
    subst: Map<Text, TypeV>,
)
    requires
        1 <= n <= ts.len(),
    ensures
        sub_kids(env, m, ts, n, subst) == ({
            let (first, m2) = sub_tree(env, m, ts[0], subst);
            let (rest, m3) = sub_kids(env, m2, ts.skip(1), (n - 1) as nat, subst);
            (seq![first] + rest, m3)
        }),
    decreases n,
{
    reveal_with_fuel(sub_kids, 2);
    let (first, m2) = sub_tree(env, m, ts[0], subst);
    if n == 1 {
        assert(Seq::<Tree>::empty().push(first) =~= seq![first] + Seq::<Tree>::empty());
    } else {
        sub_kids_after_first(env, m, ts, (n - 1) as nat, subst);
        let (rest, m3) = sub_kids(env, m2, ts.skip(1), (n - 2) as nat, subst);
        assert(ts.skip(1)[n - 2] == ts[n - 1]);
        let (last, m4) = sub_tree(env, m3, ts[n - 1], subst);
        assert((seq![first] + rest).push(last) =~= seq![first] + rest.push(last));
    }
}

impl<'a> MonoCx<'a> {
    fn substitute_shape(&self, shape: Shape, subst: &NameMap<Type>, st: &mut MonoState) -> (r:
        Shape)
        ensures
            (r.deep_view(), final(st).deep_view()) == sub_head(
                self.deep_view(),
                old(st).deep_view(),
                shape.deep_view(),
                subst.deep_view(),
            ),
            forall|n: nat| expr::arity_ok(shape.deep_view(), n) ==> #[trigger] expr::arity_ok(
                r.deep_view(),
                n,
            ),
    {
        match shape {
            Shape::Var(name, ty) => Shape::Var(name, self.substitute_type(&ty, subst, st)),
            Shape::Num(s, ty) => Shape::Num(s, self.substitute_type(&ty, subst, st)),
            Shape::Str(s, ty) => Shape::Str(s, self.substitute_type(&ty, subst, st)),
            Shape::Let(ident, ty) => {
                let ty2 = self.substitute_type(&ty.inner, subst, st).with_span(ty.span);
                Shape::Let(ident, ty2)
            },
            other => other,
        }
    }

    /// The name of the copy that a record constructor in a template stands
    /// for, where the substitution binds all of the record's parameters.
    pub fn fold_ctor(&self, callee: &Spanned<Expr>, subst: &NameMap<Type>, st: &mut MonoState) -> (r:
        Option<Spanned<Expr>>)
        ensures
            match r {
                Some(e) => folds(
                    self.deep_view(),
                    expr::tree_of(*callee),
                    subst.deep_view(),
                ) && (expr::tree_of(e), final(st).deep_view()) == folded_callee(
                    self.deep_view(),
                    old(st).deep_view(),
                    expr::tree_of(*callee),
                    subst.deep_view(),
                ),
                None => !folds(self.deep_view(), expr::tree_of(*callee), subst.deep_view())
                    && final(st).deep_view() == old(st).deep_view(),
            },
    {
        match &callee.inner {
            Expr::Var(name, ty) => match self.templates.records.get(name.as_str()) {
                None => None,
                Some(decl) => {
                    let ghost pv = decl.deep_view().type_params;
                    let ghost sv = subst.deep_view();
                    proof {
                        assert(self.deep_view().templates.records[name@] == decl.deep_view());
                        assert(pv.len() == decl.type_params@.len());
                    }
                    if decl.type_params.len() == 0 {
                        return None;
                    }
                    let mut args: Vec<Type> = Vec::new();
                    let mut ok = true;
                    let mut i: usize = 0;
                    while i < decl.type_params.len()
                        invariant
                            i <= decl.type_params.len(),
                            pv == decl.deep_view().type_params,
                            sv == subst.deep_view(),
                            ok == binds_first(pv, i as nat, sv),
                            ok ==> args@.len() == i,
                            ok ==> forall|j: int|
                                0 <= j < i ==> ast::type_view(#[trigger] args@[j])
                                    == sv[pv[j].inner],
                        decreases decl.type_params.len() - i,
                    {
                        proof {
                            assert(pv[i as int].inner == decl.type_params@[i as int].inner.0@);
                        }
                        match subst.get(decl.type_params[i].inner.0.as_str()) {
                            Some(t) => {
                                args.push(t.dup());
                            },
                            None => {
                                proof {
                                    assert(!sv.contains_key(pv[i as int].inner));
                                }
                                ok = false;
                            },
                        }
                        i = i + 1;
                    }
                    if !ok {
                        return None;
                    }
                    proof {
                        assert(args.deep_view() =~= bound_args(pv, sv));
                    }
                    let copy = st.intern_record_mono(name.as_str(), args);
                    Some(Expr::Var(copy, ty.dup()).with_span(callee.span))
                },
            },
            _ => None,
        }
    }

    /// Walk an expression and substitute the types in it.  No call is renamed
    /// here.
    pub fn substitute_expr(
        &self,
        e: Spanned<Expr>,
        subst: &NameMap<Type>,
        st: &mut MonoState,
    ) -> (r: Spanned<Expr>)
        ensures
            (expr::tree_of(r), final(st).deep_view()) == sub_tree(
                self.deep_view(),
                old(st).deep_view(),
                expr::tree_of(e),
                subst.deep_view(),
            ),
        decreases expr::tree_of(e), 0nat,
    {
        let ghost env = self.deep_view();
        let ghost sv = subst.deep_view();
        let ghost t = expr::tree_of(e);
        let ghost m = st.deep_view();
        let span = e.span;
        match e.inner {
            Expr::When { cond, branches } => {
                let ghost c = expr::tree_of(*cond);
                let ghost av = expr::arms_view(branches@);
                proof {
                    assert(t.kids == seq![c] + av);
                    assert(t.kids[0] == c);
                    assert(t.kids.skip(1) =~= av);
                    assert(decreases_to!(t => t.kids[0]));
                    assert(decreases_to!(t => t.kids.skip(1)));
                    sub_kids_after_first(env, m, t.kids, t.kids.len(), sv);
                }
                let cond = self.substitute_expr(*cond, subst, st);
                let branches = self.substitute_arms(branches, subst, st);
                Expr::When { cond: Box::new(cond), branches }.with_span(span)
            },
            Expr::Wait { handlers, filter } => {
                let ghost f = t.kids[0];
                let ghost hv = expr::handlers_view(handlers@);
                proof {
                    assert(f.kids == expr::trees(filter@));
                    assert(t.kids == seq![f] + hv);
                    assert(t.kids.skip(1) =~= hv);
                    assert(decreases_to!(t => t.kids[0]));
                    assert(decreases_to!(t => t.kids[0].kids));
                    assert(decreases_to!(t => t.kids.skip(1)));
                    sub_kids_after_first(env, m, t.kids, t.kids.len(), sv);
                }
                let filter = self.substitute_exprs(filter, subst, st);
                proof {
                    assert(sub_tree(env, m, f, sv) == (
                        Tree { kids: expr::trees(filter@), ..f },
                        st.deep_view(),
                    ));
                }
                let handlers = self.substitute_handlers(handlers, subst, st);
                Expr::Wait { handlers, filter }.with_span(span)
            },
            Expr::Jump { ident, args } => {
                let ghost c = expr::tree_of(*ident);
                proof {
                    assert(t.kids == seq![c] + expr::trees(args@));
                    assert(t.kids[0] == c);
                    assert(t.kids.skip(1) =~= expr::trees(args@));
                    assert(decreases_to!(t => t.kids[0]));
                    assert(decreases_to!(t => t.kids.skip(1)));
                }
                let callee = self.substitute_expr(*ident, subst, st);
                let ghost cv = expr::tree_of(callee);
                let args = self.substitute_exprs(args, subst, st);
                proof {
                    sub_kids_after_first(env, m, t.kids, t.kids.len(), sv);
                    assert(expr::tree(
                        Expr::Jump { ident: Box::new(callee), args },
                        span,
                    ).kids == seq![cv] + expr::trees(args@));
                }
                Expr::Jump { ident: Box::new(callee), args }.with_span(span)
            },
            other => {
                let (shape, kids) = open(other);
                proof {
                    assert(t == expr::tree(other, span));
                    assert(decreases_to!(t => t.kids));
                }
                let shape = self.substitute_shape(shape, subst, st);
                let kids = self.substitute_exprs(kids, subst, st);
                close(shape, kids).with_span(span)
            },
        }
    }

    /// [`substitute_expr`](Self::substitute_expr) on every expression.
    pub fn substitute_exprs(
        &self,
        es: Vec<Spanned<Expr>>,
        subst: &NameMap<Type>,
        st: &mut MonoState,
    ) -> (r: Vec<Spanned<Expr>>)
        ensures
            (expr::trees(r@), final(st).deep_view()) == sub_kids(
                self.deep_view(),
                old(st).deep_view(),
                expr::trees(es@),
                es@.len(),
                subst.deep_view(),
            ),
            r@.len() == es@.len(),
        decreases expr::trees(es@), 1nat,
    {
        let ghost env = self.deep_view();
        let ghost sv = subst.deep_view();
        let ghost m = st.deep_view();
        let ghost es0 = es@;
        let ghost ts = expr::trees(es0);
        let mut out: Vec<Spanned<Expr>> = Vec::new();
        proof {
            assert(expr::trees(out@) =~= Seq::<Tree>::empty());
        }
        for e in it: es
            invariant
                it.seq() == es0,
                es0 == es@,
                env == self.deep_view(),
                sv == subst.deep_view(),
                ts == expr::trees(es0),
                out@.len() == it.index(),
                (expr::trees(out@), st.deep_view()) == sub_kids(
                    env,
                    m,
                    ts,
                    it.index() as nat,
                    sv,
                ),
        {
            let ghost before = out@;
            proof {
                assert(ts[it.index() as int] == expr::tree_of(e));
                assert(decreases_to!(ts => ts[it.index() as int]));
            }
            let one = self.substitute_expr(e, subst, st);
            let ghost ov = expr::tree_of(one);
            out.push(one);
            proof {
                assert(expr::trees(out@) =~= expr::trees(before).push(ov));
            }
        }
        out
    }

    fn substitute_arms(
        &self,
        arms: Vec<(Spanned<Expr>, Vec<Spanned<Expr>>)>,
        subst: &NameMap<Type>,
        st: &mut MonoState,
    ) -> (r: Vec<(Spanned<Expr>, Vec<Spanned<Expr>>)>)
        ensures
            (expr::arms_view(r@), final(st).deep_view()) == sub_kids(
                self.deep_view(),
                old(st).deep_view(),
                expr::arms_view(arms@),
                arms@.len(),
                subst.deep_view(),
            ),
        decreases expr::arms_view(arms@), 1nat,
    {
        let ghost env = self.deep_view();
        let ghost sv = subst.deep_view();
        let ghost m = st.deep_view();
        let ghost arms0 = arms@;
        let ghost av = expr::arms_view(arms0);
        let mut out: Vec<(Spanned<Expr>, Vec<Spanned<Expr>>)> = Vec::new();
        proof {
            assert(expr::arms_view(out@) =~= Seq::<Tree>::empty());
        }
        for arm in it: arms
            invariant
                it.seq() == arms0,
                arms0 == arms@,
                env == self.deep_view(),
                sv == subst.deep_view(),
                av == expr::arms_view(arms0),
                (expr::arms_view(out@), st.deep_view()) == sub_kids(
                    env,
                    m,
                    av,
                    it.index() as nat,
                    sv,
                ),
        {
            let ghost t = av[it.index() as int];
            let ghost before = out@;
            let ghost m1 = st.deep_view();
            let (pat, body) = arm;
            proof {
                assert(t == expr::arm_tree(expr::tree_of(pat), expr::trees(body@)));
                assert(t.kids[0] == expr::tree_of(pat));
                assert(t.kids.skip(1) =~= expr::trees(body@));
                assert(decreases_to!(av => t));
                assert(decreases_to!(av => t.kids[0]));
                assert(decreases_to!(av => t.kids.skip(1)));
                sub_kids_after_first(env, m1, t.kids, t.kids.len(), sv);
            }
            let pat = self.substitute_expr(pat, subst, st);
            let body = self.substitute_exprs(body, subst, st);
            let ghost one = expr::arm_tree(expr::tree_of(pat), expr::trees(body@));
            proof {
                assert((one, st.deep_view()) == sub_tree(env, m1, t, sv));
            }
            out.push((pat, body));
            proof {
                assert(out@.drop_last() =~= before);
                tuples::push_arm(before, out@);
            }
        }
        out
    }

    fn substitute_handlers(
        &self,
        hs: Vec<Spanned<Branch>>,
        subst: &NameMap<Type>,
        st: &mut MonoState,
    ) -> (r: Vec<Spanned<Branch>>)
        ensures
            (expr::handlers_view(r@), final(st).deep_view()) == sub_kids(
                self.deep_view(),
                old(st).deep_view(),
                expr::handlers_view(hs@),
                hs@.len(),
                subst.deep_view(),
            ),
        decreases expr::handlers_view(hs@), 1nat,
    {
        let ghost env = self.deep_view();
        let ghost sv = subst.deep_view();
        let ghost m = st.deep_view();
        let ghost hs0 = hs@;
        let ghost hv = expr::handlers_view(hs0);
        let mut out: Vec<Spanned<Branch>> = Vec::new();
        proof {
            assert(expr::handlers_view(out@) =~= Seq::<Tree>::empty());
        }
        for h in it: hs
            invariant
                it.seq() == hs0,
                hs0 == hs@,
                env == self.deep_view(),
                sv == subst.deep_view(),
                hv == expr::handlers_view(hs0),
                (expr::handlers_view(out@), st.deep_view()) == sub_kids(
                    env,
                    m,
                    hv,
                    it.index() as nat,
                    sv,
                ),
        {
            let ghost t = hv[it.index() as int];
            let ghost before = out@;
            let ghost m1 = st.deep_view();
            let ghost head = expr::branch_head(h.inner);
            proof {
                assert(t.kids == expr::trees(h.inner.body@));
                assert(t.head == Head::Handler(head));
                assert(decreases_to!(hv => t));
                assert(decreases_to!(hv => t.kids));
            }
            let span = h.span;
            let b = h.inner;
            let patterns = self.substitute_patterns(b.patterns, subst, st);
            let ret_ty = self.substitute_ret(&b.ret_ty, subst, st);
            let body = self.substitute_exprs(b.body, subst, st);
            let nb = Branch { label: b.label, patterns, ret_ty, body };
            proof {
                let one = Tree {
                    head: Head::Handler(expr::branch_head(nb)),
                    span,
                    kids: expr::trees(body@),
                };
                assert((one, st.deep_view()) == sub_tree(env, m1, t, sv));
            }
            out.push(Spanned { inner: nb, span });
            proof {
                assert(out@.drop_last() =~= before);
                tuples::push_handler(before, out@);
            }
        }
        out
    }
}

} // verus!
