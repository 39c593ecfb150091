//! Walking expressions and renaming what they call.

use vstd::prelude::*;

use crate::api::ast;
use crate::api::ast::{Branch, BranchV, Ident, Pattern, PatternV, Type, TypeV};
use crate::api::expr;
use crate::api::expr::{close, open, Expr, HandlerV, Head, Shape, Tree};
use crate::lowering::synth;
use crate::lowering::tuples;
use crate::mono::callee;
use crate::mono::callee::{dup_plain_types, Hint, HintV};
use crate::mono::infer;
use crate::mono::state::{EnvV, MonoCx, MonoState, MonoV};
use crate::mono::substitute;
use crate::mono::substitute::inner_types;
use crate::name_map;
use crate::name_map::NameMap;
use crate::span::{SimpleSpan, SpanWrap, Spanned};
use crate::text::Text;

verus! {

/// What is known at a point of the walk: the copies asked for and the types
/// of the variables in scope.
#[verifier::ext_equal]
pub struct WalkV {
    pub m: MonoV,
    pub scope: Map<Text, TypeV>,
}

/// The type of a binding.  A generic record or enum becomes the name of its
/// copy, and an enum's type arguments are remembered for the constructors in
/// the value.
pub open spec fn let_type(env: EnvV, m: MonoV, ty: TypeV, hints: Seq<HintV>) -> (
    TypeV,
    MonoV,
    Seq<HintV>,
) {
    let (ty2, m2) = substitute::substituted(env, m, ty, Map::empty());
    match ty {
        TypeV::NamedGeneric(name, args) => if env.templates.enums.contains_key(name.inner) {
            (ty2, m2, hints.push(HintV { name: name.inner, args: substitute::inners(args) }))
        } else {
            (ty2, m2, hints)
        },
        _ => (ty2, m2, hints),
    }
}

/// What is expected of the value of a binding: its type, where the value is
/// a call without arguments.
pub open spec fn value_hint(value: Tree, ty: TypeV) -> Option<TypeV> {
    if value.head is Jump && value.kids.len() == 1 && !(ty is Unknown) {
        Some(ty)
    } else {
        None
    }
}

/// The types of the variables that the first `n` patterns bind.
pub open spec fn pattern_scope(ps: Seq<Spanned<PatternV>>, n: nat) -> Map<Text, TypeV>
    decreases n,
{
    if n == 0 {
        Map::empty()
    } else {
        let before = pattern_scope(ps, (n - 1) as nat);
        let p = ps[n - 1].inner;
        if callee::takes_arg(p) {
            before.insert(p.ident.inner, p.ty.inner)
        } else {
            before
        }
    }
}

/// A handler or branch without its body: parameter and return types name
/// copies.
pub open spec fn walked_handler(env: EnvV, m: MonoV, h: HandlerV) -> (HandlerV, MonoV) {
    let (ps, m1) = substitute::sub_patterns(env, m, h.patterns, h.patterns.len(), Map::empty());
    let (ret, m2) = substitute::sub_ret(env, m1, h.ret_ty, Map::empty());
    (HandlerV { label: h.label, patterns: ps, ret_ty: ret }, m2)
}

/// `recv[i]` whose parts have been walked: a call of `index` where the type
/// of the receiver asks for one.
pub open spec fn walked_index(env: EnvV, t: Tree, kids: Seq<Tree>, w: WalkV) -> (Tree, WalkV) {
    if kids.len() == 2 && callee::indexed_by_method(
        env,
        w.m,
        infer::inferred(env, w.m, kids[0], w.scope),
    ) {
        let (c, m2) = callee::rewritten_callee(
            env,
            w.m,
            synth::open_var("index"@, t.span),
            kids,
            w.scope,
            None,
            t.span,
        );
        (expr::node(Head::Jump, t.span, seq![c] + kids), WalkV { m: m2, ..w })
    } else {
        (Tree { kids, ..t }, w)
    }
}

/// An expression in which every call of a generic goes to a copy.  In a copy,
/// the constructor of a record whose parameters the copy fixes is that of the
/// record's copy.
pub open spec fn walked(
    env: EnvV,
    t: Tree,
    w: WalkV,
    hints: Seq<HintV>,
    ret_hint: Option<TypeV>,
) -> (Tree, WalkV)
    decreases t, 0nat,
{
    match t.head {
        Head::Let(ident, ty) => {
            let (ty2, m1, hints2) = let_type(env, w.m, ty.inner, hints);
            let head = Head::Let(ident, Spanned { inner: ty2, span: ty.span });
            if t.kids.len() == 1 {
                let (d, w1) = walked(
                    env,
                    t.kids[0],
                    WalkV { m: m1, ..w },
                    hints2,
                    value_hint(t.kids[0], ty2),
                );
                let bound = if ty2 is Unknown {
                    infer::inferred(env, w1.m, d, w1.scope)
                } else {
                    ty2
                };
                (
                    Tree { head, span: t.span, kids: seq![d] },
                    WalkV { scope: w1.scope.insert(ident.inner, bound), ..w1 },
                )
            } else {
                (
                    Tree { head, ..t },
                    WalkV { m: m1, scope: w.scope.insert(ident.inner, ty2) },
                )
            }
        },
        Head::Jump => if t.kids.len() > 0 {
            proof {
                assert(decreases_to!(t => t.kids.skip(1)));
            }
            let (args, w1) = walked_all(
                env,
                t.kids.skip(1),
                (t.kids.len() - 1) as nat,
                w,
                hints,
            );
            let (ctor, m2) = callee::enum_ctor(
                env,
                w1.m,
                t.kids[0],
                args,
                w1.scope,
                hints,
                t.span,
            );
            let (c, m3) = match ctor {
                Some(c) => (c, m2),
                None => if substitute::folds(env, t.kids[0], env.subst) {
                    substitute::folded_callee(env, m2, t.kids[0], env.subst)
                } else {
                    callee::rewritten_callee(
                        env,
                        m2,
                        t.kids[0],
                        args,
                        w1.scope,
                        ret_hint,
                        t.span,
                    )
                },
            };
            (Tree { kids: seq![c] + args, ..t }, WalkV { m: m3, ..w1 })
        } else {
            (t, w)
        },
        Head::DotAccess(_) => {
            let (ctor, m1) = callee::enum_ctor(
                env,
                w.m,
                t,
                Seq::empty(),
                w.scope,
                hints,
                t.span,
            );
            match ctor {
                Some(c) => (c, WalkV { m: m1, ..w }),
                None => {
                    let (kids, w2) = walked_all(
                        env,
                        t.kids,
                        t.kids.len(),
                        WalkV { m: m1, ..w },
                        hints,
                    );
                    (Tree { kids, ..t }, w2)
                },
            }
        },
        Head::Index => {
            let (kids, w1) = walked_all(env, t.kids, t.kids.len(), w, hints);
            walked_index(env, t, kids, w1)
        },
        Head::Arm => {
            let (kids, w1) = walked_all(env, t.kids, t.kids.len(), w, hints);
            (Tree { kids, ..t }, WalkV { m: w1.m, scope: w.scope })
        },
        Head::Handler(h) => {
            let (h2, m1) = walked_handler(env, w.m, h);
            let inside = WalkV {
                m: m1,
                scope: pattern_scope(h2.patterns, h2.patterns.len()),
            };
            let (kids, w1) = walked_all(env, t.kids, t.kids.len(), inside, hints);
            (
                Tree { head: Head::Handler(h2), span: t.span, kids },
                WalkV { m: w1.m, scope: w.scope },
            )
        },
        _ => {
            let (kids, w1) = walked_all(env, t.kids, t.kids.len(), w, hints);
            (Tree { kids, ..t }, w1)
        },
    }
}

/// [`walked`] on the first `n` trees, from left to right.
pub open spec fn walked_all(
    env: EnvV,
    ts: Seq<Tree>,
    n: nat,
    w: WalkV,
    hints: Seq<HintV>,
) -> (Seq<Tree>, WalkV)
    decreases ts, n,
{
    if n == 0 || n > ts.len() {
        (Seq::empty(), w)
    } else {
        let (before, w1) = walked_all(env, ts, (n - 1) as nat, w, hints);
        let (t, w2) = walked(env, ts[n - 1], w1, hints, None);
        (before.push(t), w2)
    }
}

/// A branch in which every call of a generic goes to a copy.
pub open spec fn walked_branch(env: EnvV, m: MonoV, b: BranchV, hints: Seq<HintV>) -> (
    BranchV,
    MonoV,
) {
    let (head, m1) = walked_handler(env, m, b.head);
    let inside = WalkV { m: m1, scope: pattern_scope(head.patterns, head.patterns.len()) };
    let (body, w) = walked_all(env, b.body, b.body.len(), inside, hints);
    (BranchV { head, body }, w.m)
}

proof fn walked_after_first(env: EnvV, ts: Seq<Tree>, n: nat, w: WalkV, hints: Seq<HintV>)
    requires
        1 <= n <= ts.len(),
    ensures
        walked_all(env, ts, n, w, hints) == ({
            let (first, w1) = walked(env, ts[0], w, hints, None);
            let (rest, w2) = walked_all(env, ts.skip(1), (n - 1) as nat, w1, hints);
            (seq![first] + rest, w2)
        }),
    decreases n,
{
    reveal_with_fuel(walked_all, 2);
    let (first, w1) = walked(env, ts[0], w, hints, None);
    if n == 1 {
        assert(Seq::<Tree>::empty().push(first) =~= seq![first] + Seq::<Tree>::empty());
    } else {
        walked_after_first(env, ts, (n - 1) as nat, w, hints);
        let (rest, w2) = walked_all(env, ts.skip(1), (n - 2) as nat, w1, hints);
        assert(ts.skip(1)[n - 2] == ts[n - 1]);
        let (last, w3) = walked(env, ts[n - 1], w2, hints, None);
        assert((seq![first] + rest).push(last) =~= seq![first] + rest.push(last));
    }
}

// ── executable side ────────────────────────────────────────────────────────

fn with_hint(hints: &Vec<Hint>, name: &str, args: Vec<Type>) -> (r: Vec<Hint>)
    ensures
        r.deep_view() == hints.deep_view().push(HintV { name: name@, args: args.deep_view() }),
{
    let mut out: Vec<Hint> = Vec::new();
    let mut i: usize = 0;
    while i < hints.len()
        invariant
            i <= hints.len(),
            out@.len() == i,
            forall|j: int| 0 <= j < i ==> (#[trigger] out@[j]).deep_view() == hints@[j].deep_view(),
        decreases hints.len() - i,
    {
        out.push(
            Hint { name: hints[i].name.clone(), args: dup_plain_types(&hints[i].args) },
        );
        i = i + 1;
    }
    let last = Hint { name: name.to_owned(), args };
    let ghost lv = last.deep_view();
    out.push(last);
    proof {
        assert(out.deep_view() =~= hints.deep_view().push(lv));
    }
    out
}

fn bind_var(scope: &mut NameMap<Type>, name: &str, ty: Type)
    ensures
        final(scope).deep_view() == old(scope).deep_view().insert(name@, ast::type_view(ty)),
{
    let ghost before = *scope;
    scope.insert(name.to_owned(), ty);
    proof {
        name_map::insert_deep(before, *scope, name@, ty);
    }
}

fn scope_of_patterns(ps: &Vec<Spanned<Pattern>>) -> (r: NameMap<Type>)
    ensures
        r.deep_view() == pattern_scope(ast::patterns_view(ps@), ps@.len()),
{
    let ghost pv = ast::patterns_view(ps@);
    let mut scope: NameMap<Type> = NameMap::new();
    proof {
        assert(scope.deep_view() =~= Map::<Text, TypeV>::empty());
    }
    let mut i: usize = 0;
    while i < ps.len()
        invariant
            i <= ps.len(),
            pv == ast::patterns_view(ps@),
            scope.deep_view() == pattern_scope(pv, i as nat),
        decreases ps.len() - i,
    {
        proof {
            assert(pv[i as int].inner == ast::pattern_view(ps@[i as int].inner));
        }
        if !ps[i].inner.is_wildcard() && !ps[i].inner.is_literal_guard() {
            bind_var(
                &mut scope,
                ps[i].inner.ident.inner.0.as_str(),
                ps[i].inner.ty.inner.dup(),
            );
        }
        i = i + 1;
    }
    scope
}

pub fn empty_subst() -> (r: NameMap<Type>)
    ensures
        r.deep_view() == Map::<Text, TypeV>::empty(),
{
    let r: NameMap<Type> = NameMap::new();
    proof {
        assert(r.deep_view() =~= Map::<Text, TypeV>::empty());
    }
    r
}

impl<'a> MonoCx<'a> {
    /// The type of a binding, and the hints for its value.
    fn fold_let_type(&self, ty: &Type, hints: &Vec<Hint>, st: &mut MonoState) -> (r: (
        Type,
        Option<Vec<Hint>>,
    ))
        ensures
            ({
                let (ty2, m2, hints2) = let_type(
                    self.deep_view(),
                    old(st).deep_view(),
                    ast::type_view(*ty),
                    hints.deep_view(),
                );
                &&& ast::type_view(r.0) == ty2
                &&& final(st).deep_view() == m2
                &&& match r.1 {
                    Some(hs) => hs.deep_view() == hints2,
                    None => hints.deep_view() == hints2,
                }
            }),
    {
        match ty {
            Type::NamedGeneric { name, args } => {
                proof {
                    assert(ast::type_view(*ty) == TypeV::NamedGeneric(
                        name.deep_view(),
                        ast::types_view(args@),
                    ));
                }
                if self.templates.enums.contains_key(name.inner.0.as_str()) {
                    let ty2 = self.substitute_type(ty, &empty_subst(), st);
                    let hs = with_hint(hints, name.inner.0.as_str(), inner_types(args));
                    (ty2, Some(hs))
                } else {
                    (self.substitute_type(ty, &empty_subst(), st), None)
                }
            },
            _ => (self.substitute_type(ty, &empty_subst(), st), None),
        }
    }

    fn walk_let(
        &self,
        ident: Spanned<Ident>,
        ty: Spanned<Type>,
        default: Option<Box<Spanned<Expr>>>,
        span: SimpleSpan,
        scope: &mut NameMap<Type>,
        hints: &Vec<Hint>,
        st: &mut MonoState,
    ) -> (r: Spanned<Expr>)
        requires
            self.deep_view().reg.wf(),
        ensures
            ({
                let t = expr::tree(Expr::Let { ident, ty, default }, span);
                let w = WalkV { m: old(st).deep_view(), scope: old(scope).deep_view() };
                (
                    expr::tree_of(r),
                    WalkV { m: final(st).deep_view(), scope: final(scope).deep_view() },
                ) == walked(self.deep_view(), t, w, hints.deep_view(), None)
            }),
        decreases expr::tree(Expr::Let { ident, ty, default }, span), 0nat,
    {
        let ghost t = expr::tree(Expr::Let { ident, ty, default }, span);
        let (ty2, more) = self.fold_let_type(&ty.inner, hints, st);
        match default {
            Some(d) => {
                let ghost dt = expr::tree_of(*d);
                proof {
                    assert(t.kids == seq![dt]);
                    assert(t.kids[0] == dt);
                    assert(decreases_to!(t => t.kids[0]));
                }
                let bare_call = match &d.inner {
                    Expr::Jump { ident: c, args } => {
                        proof {
                            assert(dt.kids == seq![expr::tree_of(**c)] + expr::trees(args@));
                            assert(dt.kids.len() == args@.len() + 1);
                        }
                        args.len() == 0
                    },
                    _ => false,
                };
                let ret_hint = if bare_call && !matches!(ty2, Type::Unknown) {
                    Some(ty2.dup())
                } else {
                    None
                };
                proof {
                    assert(ret_hint.deep_view() == value_hint(dt, ast::type_view(ty2)));
                }
                let d2 = match &more {
                    Some(hs) => self.walk_expr(*d, scope, hs, &ret_hint, st),
                    None => self.walk_expr(*d, scope, hints, &ret_hint, st),
                };
                let bound = if matches!(ty2, Type::Unknown) {
                    self.infer_expr_type(&d2, scope, st)
                } else {
                    ty2.dup()
                };
                bind_var(scope, ident.inner.0.as_str(), bound);
                let r = Expr::Let {
                    ident,
                    ty: ty2.with_span(ty.span),
                    default: Some(Box::new(d2)),
                }.with_span(span);
                proof {
                    assert(expr::tree_of(r).kids =~= seq![expr::tree_of(d2)]);
                }
                r
            },
            None => {
                bind_var(scope, ident.inner.0.as_str(), ty2.dup());
                let r = Expr::Let { ident, ty: ty2.with_span(ty.span), default: None }.with_span(
                    span,
                );
                proof {
                    assert(t.kids =~= Seq::<Tree>::empty());
                    assert(expr::tree_of(r).kids =~= Seq::<Tree>::empty());
                }
                r
            },
        }
    }

    fn walk_index(
        &self,
        kids: Vec<Spanned<Expr>>,
        span: SimpleSpan,
        scope: &NameMap<Type>,
        st: &mut MonoState,
        Ghost(t): Ghost<Tree>,
    ) -> (r: Spanned<Expr>)
        requires
            self.deep_view().reg.wf(),
            kids@.len() == 2,
            t.head is Index,
            t.span == span,
        ensures
            ({
                let w = WalkV { m: old(st).deep_view(), scope: scope.deep_view() };
                (
                    expr::tree_of(r),
                    WalkV { m: final(st).deep_view(), scope: scope.deep_view() },
                ) == walked_index(self.deep_view(), t, expr::trees(kids@), w)
            }),
    {
        let ghost ks = expr::trees(kids@);
        proof {
            assert(ks[0] == expr::tree_of(kids@[0]));
        }
        let recv_ty = self.infer_expr_type(&kids[0], scope, st);
        if self.is_indexable_via_proto(&recv_ty, st) {
            let index = Expr::Var("index".to_owned(), Type::Unknown).with_span(span);
            let none: Option<Type> = None;
            let c = self.maybe_rewrite_callee(index, &kids, scope, &none, span, st);
            let ghost ct = expr::tree_of(c);
            let r = Expr::Jump { ident: Box::new(c), args: kids }.with_span(span);
            proof {
                assert(expr::tree_of(r).kids == seq![ct] + expr::trees(kids@));
            }
            r
        } else {
            close(Shape::Index, kids).with_span(span)
        }
    }

    /// Walk an expression: bindings, calls, constructors and indexing, and
    /// everything inside.
    pub fn walk_expr(
        &self,
        e: Spanned<Expr>,
        scope: &mut NameMap<Type>,
        hints: &Vec<Hint>,
        ret_hint: &Option<Type>,
        st: &mut MonoState,
    ) -> (r: Spanned<Expr>)
        requires
            self.deep_view().reg.wf(),
        ensures
            ({
                let w = WalkV { m: old(st).deep_view(), scope: old(scope).deep_view() };
                (
                    expr::tree_of(r),
                    WalkV { m: final(st).deep_view(), scope: final(scope).deep_view() },
                ) == walked(
                    self.deep_view(),
                    expr::tree_of(e),
                    w,
                    hints.deep_view(),
                    ret_hint.deep_view(),
                )
            }),
        decreases expr::tree_of(e), 1nat,
    {
        let ghost env = self.deep_view();
        let ghost t = expr::tree_of(e);
        let ghost w = WalkV { m: st.deep_view(), scope: scope.deep_view() };
        let ghost hv = hints.deep_view();
        let span = e.span;
        match e.inner {
            Expr::Let { ident, ty, default } => {
                self.walk_let(ident, ty, default, span, scope, hints, st)
            },
            Expr::Jump { ident, args } => {
                let ghost c = expr::tree_of(*ident);
                proof {
                    assert(t.kids == seq![c] + expr::trees(args@));
                    assert(t.kids[0] == c);
                    assert(t.kids.skip(1) =~= expr::trees(args@));
                    assert(decreases_to!(t => t.kids.skip(1)));
                }
                let args = self.walk_exprs(args, scope, hints, st);
                let callee = match self.maybe_rewrite_enum_dot_ctor(
                    &ident,
                    &args,
                    scope,
                    hints,
                    span,
                    st,
                ) {
                    Some(ctor) => ctor,
                    None => match self.fold_ctor(&ident, self.subst, st) {
                        Some(copy) => copy,
                        None => self.maybe_rewrite_callee(
                            *ident,
                            &args,
                            scope,
                            ret_hint,
                            span,
                            st,
                        ),
                    },
                };
                let ghost cv = expr::tree_of(callee);
                let r = Expr::Jump { ident: Box::new(callee), args }.with_span(span);
                proof {
                    assert(expr::tree_of(r).kids == seq![cv] + expr::trees(args@));
                }
                r
            },
            Expr::When { cond, branches } => {
                let ghost c = expr::tree_of(*cond);
                let ghost av = expr::arms_view(branches@);
                proof {
                    assert(t.kids == seq![c] + av);
                    assert(t.kids[0] == c);
                    assert(t.kids.skip(1) =~= av);
                    assert(decreases_to!(t => t.kids[0]));
                    assert(decreases_to!(t => t.kids.skip(1)));
                    walked_after_first(env, t.kids, t.kids.len(), w, hv);
                }
                let none: Option<Type> = None;
                let cond = self.walk_expr(*cond, scope, hints, &none, st);
                let branches = self.walk_arms(branches, scope, hints, st);
                Expr::When { cond: Box::new(cond), branches }.with_span(span)
            },
            Expr::Wait { handlers, filter } => {
                let ghost f = t.kids[0];
                let ghost hsv = expr::handlers_view(handlers@);
                proof {
                    assert(f.kids == expr::trees(filter@));
                    assert(t.kids == seq![f] + hsv);
                    assert(t.kids.skip(1) =~= hsv);
                    assert(decreases_to!(t => t.kids[0]));
                    assert(decreases_to!(t => t.kids[0].kids));
                    assert(decreases_to!(t => t.kids.skip(1)));
                    walked_after_first(env, t.kids, t.kids.len(), w, hv);
                }
                let filter = self.walk_exprs(filter, scope, hints, st);
                proof {
                    assert(walked(env, f, w, hv, None) == (
                        Tree { kids: expr::trees(filter@), ..f },
                        WalkV { m: st.deep_view(), scope: scope.deep_view() },
                    ));
                }
                let handlers = self.walk_handlers(
                    handlers,
                    hints,
                    st,
                    Ghost(scope.deep_view()),
                );
                Expr::Wait { handlers, filter }.with_span(span)
            },
            Expr::DotAccess { receiver, field } => {
                let ghost rt = expr::tree_of(*receiver);
                let whole = Expr::DotAccess { receiver, field }.with_span(span);
                let no_args: Vec<Spanned<Expr>> = Vec::new();
                proof {
                    assert(expr::trees(no_args@) =~= Seq::<Tree>::empty());
                    assert(expr::tree_of(whole) == t);
                }
                match self.maybe_rewrite_enum_dot_ctor(
                    &whole,
                    &no_args,
                    scope,
                    hints,
                    span,
                    st,
                ) {
                    Some(ctor) => ctor,
                    None => {
                        let (shape, kids) = open(whole.inner);
                        proof {
                            assert(t == expr::tree(whole.inner, span));
                            assert(decreases_to!(t => t.kids));
                        }
                        let kids = self.walk_exprs(kids, scope, hints, st);
                        close(shape, kids).with_span(span)
                    },
                }
            },
            other => {
                let is_index = matches!(other, Expr::Index { .. });
                let (shape, kids) = open(other);
                proof {
                    assert(t == expr::tree(other, span));
                    assert(decreases_to!(t => t.kids));
                }
                let kids = self.walk_exprs(kids, scope, hints, st);
                if is_index {
                    self.walk_index(kids, span, scope, st, Ghost(t))
                } else {
                    close(shape, kids).with_span(span)
                }
            },
        }
    }

    fn walk_exprs(
        &self,
        es: Vec<Spanned<Expr>>,
        scope: &mut NameMap<Type>,
        hints: &Vec<Hint>,
        st: &mut MonoState,
    ) -> (r: Vec<Spanned<Expr>>)
        requires
            self.deep_view().reg.wf(),
        ensures
            ({
                let w = WalkV { m: old(st).deep_view(), scope: old(scope).deep_view() };
                (
                    expr::trees(r@),
                    WalkV { m: final(st).deep_view(), scope: final(scope).deep_view() },
                ) == walked_all(
                    self.deep_view(),
                    expr::trees(es@),
                    es@.len(),
                    w,
                    hints.deep_view(),
                )
            }),
            r@.len() == es@.len(),
        decreases expr::trees(es@), 2nat,
    {
        let ghost env = self.deep_view();
        let ghost es0 = es@;
        let ghost ts = expr::trees(es0);
        let ghost w = WalkV { m: st.deep_view(), scope: scope.deep_view() };
        let ghost hv = hints.deep_view();
        let none: Option<Type> = None;
        let mut out: Vec<Spanned<Expr>> = Vec::new();
        proof {
            assert(expr::trees(out@) =~= Seq::<Tree>::empty());
        }
        for e in it: es
            invariant
                it.seq() == es0,
                es0 == es@,
                env == self.deep_view(),
                env.reg.wf(),
                ts == expr::trees(es0),
                hv == hints.deep_view(),
                none is None,
                out@.len() == it.index(),
                (expr::trees(out@), WalkV { m: st.deep_view(), scope: scope.deep_view() })
                    == walked_all(env, ts, it.index() as nat, w, hv),
        {
            let ghost before = out@;
            proof {
                assert(ts[it.index() as int] == expr::tree_of(e));
                assert(decreases_to!(ts => ts[it.index() as int]));
            }
            let one = self.walk_expr(e, scope, hints, &none, st);
            let ghost ov = expr::tree_of(one);
            out.push(one);
            proof {
                assert(expr::trees(out@) =~= expr::trees(before).push(ov));
            }
        }
        out
    }

    fn walk_arms(
        &self,
        arms: Vec<(Spanned<Expr>, Vec<Spanned<Expr>>)>,
        scope: &NameMap<Type>,
        hints: &Vec<Hint>,
        st: &mut MonoState,
    ) -> (r: Vec<(Spanned<Expr>, Vec<Spanned<Expr>>)>)
        requires
            self.deep_view().reg.wf(),
        ensures
            ({
                let w = WalkV { m: old(st).deep_view(), scope: scope.deep_view() };
                (
                    expr::arms_view(r@),
                    WalkV { m: final(st).deep_view(), scope: scope.deep_view() },
                ) == walked_all(
                    self.deep_view(),
                    expr::arms_view(arms@),
                    arms@.len(),
                    w,
                    hints.deep_view(),
                )
            }),
        decreases expr::arms_view(arms@), 2nat,
    {
        let ghost env = self.deep_view();
        let ghost arms0 = arms@;
        let ghost av = expr::arms_view(arms0);
        let ghost w = WalkV { m: st.deep_view(), scope: scope.deep_view() };
        let ghost hv = hints.deep_view();
        let none: Option<Type> = None;
        let mut out: Vec<(Spanned<Expr>, Vec<Spanned<Expr>>)> = Vec::new();
        proof {
            assert(expr::arms_view(out@) =~= Seq::<Tree>::empty());
        }
        for arm in it: arms
            invariant
                it.seq() == arms0,
                arms0 == arms@,
                env == self.deep_view(),
                env.reg.wf(),
                av == expr::arms_view(arms0),
                hv == hints.deep_view(),
                none is None,
                (expr::arms_view(out@), WalkV { m: st.deep_view(), scope: scope.deep_view() })
                    == walked_all(env, av, it.index() as nat, w, hv),
        {
            let ghost t = av[it.index() as int];
            let ghost before = out@;
            let ghost w1 = WalkV { m: st.deep_view(), scope: scope.deep_view() };
            let (pat, body) = arm;
            proof {
                assert(t == expr::arm_tree(expr::tree_of(pat), expr::trees(body@)));
                assert(t.kids[0] == expr::tree_of(pat));
                assert(t.kids.skip(1) =~= expr::trees(body@));
                assert(decreases_to!(av => t));
                assert(decreases_to!(av => t.kids[0]));
                assert(decreases_to!(av => t.kids.skip(1)));
                walked_after_first(env, t.kids, t.kids.len(), w1, hv);
            }
            let mut arm_scope = scope.dup();
            let pat = self.walk_expr(pat, &mut arm_scope, hints, &none, st);
            let body = self.walk_exprs(body, &mut arm_scope, hints, st);
            let ghost one = expr::arm_tree(expr::tree_of(pat), expr::trees(body@));
            proof {
                assert((one, WalkV { m: st.deep_view(), scope: scope.deep_view() }) == walked(
                    env,
                    t,
                    w1,
                    hv,
                    None,
                ));
            }
            out.push((pat, body));
            proof {
                assert(out@.drop_last() =~= before);
                tuples::push_arm(before, out@);
            }
        }
        out
    }

    fn walk_handlers(
        &self,
        hs: Vec<Spanned<Branch>>,
        hints: &Vec<Hint>,
        st: &mut MonoState,
        Ghost(scope): Ghost<Map<Text, TypeV>>,
    ) -> (r: Vec<Spanned<Branch>>)
        requires
            self.deep_view().reg.wf(),
        ensures
            (expr::handlers_view(r@), WalkV { m: final(st).deep_view(), scope }) == walked_all(
                self.deep_view(),
                expr::handlers_view(hs@),
                hs@.len(),
                WalkV { m: old(st).deep_view(), scope },
                hints.deep_view(),
            ),
        decreases expr::handlers_view(hs@), 2nat,
    {
        let ghost env = self.deep_view();
        let ghost hs0 = hs@;
        let ghost hsv = expr::handlers_view(hs0);
        let ghost w = WalkV { m: st.deep_view(), scope };
        let ghost hv = hints.deep_view();
        let mut out: Vec<Spanned<Branch>> = Vec::new();
        proof {
            assert(expr::handlers_view(out@) =~= Seq::<Tree>::empty());
        }
        for h in it: hs
            invariant
                it.seq() == hs0,
                hs0 == hs@,
                env == self.deep_view(),
                env.reg.wf(),
                hsv == expr::handlers_view(hs0),
                hv == hints.deep_view(),
                (expr::handlers_view(out@), WalkV { m: st.deep_view(), scope }) == walked_all(
                    env,
                    hsv,
                    it.index() as nat,
                    w,
                    hv,
                ),
        {
            let ghost t = hsv[it.index() as int];
            let ghost before = out@;
            let ghost w1 = WalkV { m: st.deep_view(), scope };
            proof {
                assert(t.kids == expr::trees(h.inner.body@));
                assert(t.head == Head::Handler(expr::branch_head(h.inner)));
                assert(decreases_to!(hsv => t));
                assert(decreases_to!(hsv => t.kids));
            }
            let span = h.span;
            let nb = self.walk_branch(h.inner, hints, st);
            proof {
                let one = Tree {
                    head: Head::Handler(expr::branch_head(nb)),
                    span,
                    kids: expr::trees(nb.body@),
                };
                assert((one, WalkV { m: st.deep_view(), scope }) == walked(
                    env,
                    t,
                    w1,
                    hv,
                    None,
                ));
            }
            out.push(Spanned { inner: nb, span });
            proof {
                assert(out@.drop_last() =~= before);
                tuples::push_handler(before, out@);
            }
        }
        out
    }

    /// Walk one branch: its parameter and return types, and its body with
    /// the parameters in scope.
    pub fn walk_branch(&self, b: Branch, hints: &Vec<Hint>, st: &mut MonoState) -> (r: Branch)
        requires
            self.deep_view().reg.wf(),
        ensures
            (r.deep_view(), final(st).deep_view()) == walked_branch(
                self.deep_view(),
                old(st).deep_view(),
                b.deep_view(),
                hints.deep_view(),
            ),
        decreases expr::trees(b.body@), 3nat,
    {
        let ghost bv = b.deep_view();
        let subst = empty_subst();
        let patterns = self.substitute_patterns(b.patterns, &subst, st);
        let ret_ty = self.substitute_ret(&b.ret_ty, &subst, st);
        let mut scope = scope_of_patterns(&patterns);
        proof {
            assert(ast::patterns_view(patterns@).len() == patterns@.len());
        }
        let body = self.walk_exprs(b.body, &mut scope, hints, st);
        let r = Branch { label: b.label, patterns, ret_ty, body };
        proof {
            let (head, m1) = walked_handler(self.deep_view(), old(st).deep_view(), bv.head);
            assert(expr::branch_head(r) == head);
        }
        r
    }
}

} // verus!
