//! What making copies leaves as it is.

use vstd::prelude::*;

use crate::api::ast::{ItemV, PatternV, TypeV};
use crate::api::expr::{Head, Tree};
use crate::mono::callee::HintV;
use crate::mono::copies::are_distinct;
use crate::mono::infer;
use crate::mono::program;
use crate::mono::protos;
use crate::mono::state::{EnvV, MonoV};
use crate::mono::substitute;
use crate::mono::types;
use crate::mono::walk;
use crate::mono::walk::WalkV;
use crate::order::{picks, picks_last, picks_not_last};
use crate::span::Spanned;
use crate::text::Text;

verus! {

// ── items ──────────────────────────────────────────────────────────────────

/// Which items have no type parameters.
pub open spec fn plain_items(ast: Seq<Spanned<ItemV>>) -> spec_fn(int) -> bool {
    |i: int|
        match ast[i].inner {
            ItemV::Record(d) => d.inner.type_params.len() == 0,
            ItemV::Machine(m) => m.inner.generics.len() == 0,
            ItemV::Enum(d) => d.inner.type_params.len() == 0,
            _ => true,
        }
}

/// The items without type parameters are kept as they are, in their order.
pub proof fn plain_items_are_kept(ast: Seq<Spanned<ItemV>>, n: nat) -> (at: Seq<int>)
    requires
        n <= ast.len(),
    ensures
        ({
            let out = program::kept_items(ast, n);
            &&& picks(at, 0, n, plain_items(ast))
            &&& out.len() == at.len()
            &&& forall|k: int| 0 <= k < out.len() ==> #[trigger] out[k] == ast[at[k]]
        }),
    decreases n,
{
    if n == 0 {
        Seq::empty()
    } else {
        let was = plain_items_are_kept(ast, (n - 1) as nat);
        if plain_items(ast)(n - 1) {
            picks_last(was, (n - 1) as nat, plain_items(ast));
            was.push(n - 1)
        } else {
            picks_not_last(was, (n - 1) as nat, plain_items(ast));
            was
        }
    }
}

// ── expressions ────────────────────────────────────────────────────────────

/// Whether `u` is `t` up to what is called and what types say: every argument,
/// statement and part stands where it stood.
pub open spec fn keeps_parts(t: Tree, u: Tree) -> bool
    decreases t,
{
    match t.head {
        Head::Let(ident, _) => {
            &&& u.span == t.span
            &&& match u.head {
                Head::Let(to, _) => to == ident,
                _ => false,
            }
            &&& u.kids.len() == t.kids.len()
            &&& t.kids.len() == 1 ==> keeps_parts(t.kids[0], u.kids[0])
        },
        Head::Jump => {
            &&& u.span == t.span
            &&& u.head is Jump
            &&& u.kids.len() == t.kids.len()
            &&& forall|i: int|
                0 < i < t.kids.len() ==> keeps_parts(#[trigger] t.kids[i], u.kids[i])
        },
        Head::DotAccess(_) => true,
        Head::Index => {
            &&& u.span == t.span
            &&& {
                ||| {
                    &&& u.head is Index
                    &&& u.kids.len() == t.kids.len()
                    &&& forall|i: int|
                        0 <= i < t.kids.len() ==> keeps_parts(#[trigger] t.kids[i], u.kids[i])
                }
                ||| {
                    &&& u.head is Jump
                    &&& u.kids.len() == t.kids.len() + 1
                    &&& forall|i: int|
                        0 <= i < t.kids.len() ==> keeps_parts(#[trigger] t.kids[i], u.kids[i + 1])
                }
            }
        },
        Head::Handler(h) => {
            &&& u.span == t.span
            &&& match u.head {
                Head::Handler(g) => g.label == h.label && g.patterns.len() == h.patterns.len(),
                _ => false,
            }
            &&& u.kids.len() == t.kids.len()
            &&& forall|i: int|
                0 <= i < t.kids.len() ==> keeps_parts(#[trigger] t.kids[i], u.kids[i])
        },
        _ => {
            &&& u.span == t.span
            &&& u.head == t.head
            &&& u.kids.len() == t.kids.len()
            &&& forall|i: int|
                0 <= i < t.kids.len() ==> keeps_parts(#[trigger] t.kids[i], u.kids[i])
        },
    }
}

/// Sending the calls of an expression to copies keeps its parts where they are.
pub proof fn walked_expressions_keep_their_parts(
    env: EnvV,
    t: Tree,
    w: WalkV,
    hints: Seq<HintV>,
    ret_hint: Option<TypeV>,
)
    ensures
        keeps_parts(t, walk::walked(env, t, w, hints, ret_hint).0),
    decreases t, 0nat,
{
    let u = walk::walked(env, t, w, hints, ret_hint).0;
    match t.head {
        Head::Let(ident, ty) => {
            if t.kids.len() == 1 {
                let (ty2, m1, hints2) = walk::let_type(env, w.m, ty.inner, hints);
                walked_expressions_keep_their_parts(
                    env,
                    t.kids[0],
                    WalkV { m: m1, ..w },
                    hints2,
                    walk::value_hint(t.kids[0], ty2),
                );
            }
        },
        Head::Jump => {
            if t.kids.len() > 0 {
                let args = t.kids.skip(1);
                assert(decreases_to!(t => args));
                walked_lists_keep_their_parts(env, args, args.len(), w, hints);
                let us = walk::walked_all(env, args, args.len(), w, hints).0;
                assert forall|i: int| 0 < i < t.kids.len() implies keeps_parts(
                    #[trigger] t.kids[i],
                    u.kids[i],
                ) by {
                    assert(args[i - 1] == t.kids[i]);
                    assert(u.kids[i] == us[i - 1]);
                }
            }
        },
        Head::DotAccess(_) => {},
        Head::Index => {
            walked_lists_keep_their_parts(env, t.kids, t.kids.len(), w, hints);
            let us = walk::walked_all(env, t.kids, t.kids.len(), w, hints).0;
            assert forall|i: int| 0 <= i < t.kids.len() implies keeps_parts(
                #[trigger] t.kids[i],
                us[i],
            ) by {}
            if u.head is Jump {
                assert forall|i: int| 0 <= i < t.kids.len() implies keeps_parts(
                    #[trigger] t.kids[i],
                    u.kids[i + 1],
                ) by {
                    assert(u.kids[i + 1] == us[i]);
                }
            }
        },
        Head::Handler(h) => {
            let (h2, m1) = walk::walked_handler(env, w.m, h);
            patterns_are_as_many(env, w.m, h.patterns, h.patterns.len());
            let inside = WalkV {
                m: m1,
                scope: walk::pattern_scope(h2.patterns, h2.patterns.len()),
            };
            walked_lists_keep_their_parts(env, t.kids, t.kids.len(), inside, hints);
        },
        _ => {
            walked_lists_keep_their_parts(env, t.kids, t.kids.len(), w, hints);
        },
    }
}

proof fn walked_lists_keep_their_parts(
    env: EnvV,
    ts: Seq<Tree>,
    n: nat,
    w: WalkV,
    hints: Seq<HintV>,
)
    requires
        n <= ts.len(),
    ensures
        ({
            let us = walk::walked_all(env, ts, n, w, hints).0;
            &&& us.len() == n
            &&& forall|i: int| 0 <= i < n ==> keeps_parts(#[trigger] ts[i], us[i])
        }),
    decreases ts, n,
{
    if n > 0 {
        walked_lists_keep_their_parts(env, ts, (n - 1) as nat, w, hints);
        let (before, w1) = walk::walked_all(env, ts, (n - 1) as nat, w, hints);
        assert(decreases_to!(ts => ts[n - 1]));
        walked_expressions_keep_their_parts(env, ts[n - 1], w1, hints, None);
        let us = walk::walked_all(env, ts, n, w, hints).0;
        assert forall|i: int| 0 <= i < n implies keeps_parts(#[trigger] ts[i], us[i]) by {
            if i < n - 1 {
                assert(us[i] == before[i]);
            }
        }
    }
}

proof fn patterns_are_as_many(
    env: EnvV,
    m: MonoV,
    ps: Seq<Spanned<PatternV>>,
    n: nat,
)
    ensures
        substitute::sub_patterns(env, m, ps, n, Map::empty()).0.len() == n,
    decreases n,
{
    if n > 0 {
        patterns_are_as_many(env, m, ps, (n - 1) as nat);
    }
}

// ── types ──────────────────────────────────────────────────────────────────

/// A literal whose type is open has the type of its kind.
pub proof fn literals_have_the_type_of_their_kind(
    env: EnvV,
    m: MonoV,
    t: Tree,
    scope: Map<Text, TypeV>,
)
    ensures
        match t.head {
            Head::Num(_, ty) => names_type(
                infer::inferred(env, m, t, scope),
                "i64"@,
            ) || (!(ty is Unknown) && infer::inferred(env, m, t, scope) == ty),
            Head::Str(_, ty) => names_type(
                infer::inferred(env, m, t, scope),
                "str"@,
            ) || (!(ty is Unknown) && infer::inferred(env, m, t, scope) == ty),
            Head::Bool(_) => names_type(infer::inferred(env, m, t, scope), "bool"@),
            Head::Atom(_) => names_type(infer::inferred(env, m, t, scope), "atom"@),
            Head::Unit => infer::inferred(env, m, t, scope) is Unit,
            Head::Var(name, ty) => if ty is Unknown {
                scope.contains_key(name) ==> infer::inferred(env, m, t, scope) == scope[name]
            } else {
                infer::inferred(env, m, t, scope) == ty
            },
            _ => true,
        },
{
}

/// A tuple has the types of its parts, in their order.
pub proof fn tuples_have_the_types_of_their_parts(
    env: EnvV,
    m: MonoV,
    t: Tree,
    scope: Map<Text, TypeV>,
)
    requires
        t.head is Tuple,
    ensures
        match infer::inferred(env, m, t, scope) {
            TypeV::Struct(tys) => tys.len() == t.kids.len() && forall|i: int|
                0 <= i < t.kids.len() ==> tys[i].inner == infer::inferred(
                    env,
                    m,
                    #[trigger] t.kids[i],
                    scope,
                ),
            _ => false,
        },
{
    let all = infer::inferred_all(env, m, t.kids, scope);
    assert(infer::inferred(env, m, t, scope) == TypeV::Struct(all));
    assert forall|i: int| 0 <= i < t.kids.len() implies all[i].inner == infer::inferred(
        env,
        m,
        #[trigger] t.kids[i],
        scope,
    ) by {}
}

/// Whether a type is the one called `name`.
pub open spec fn names_type(t: TypeV, name: Text) -> bool {
    match t {
        TypeV::Named(n) => n.inner == name,
        _ => false,
    }
}

/// The bounds of a type parameter are asked of the argument at its place.
pub proof fn bounds_are_asked_of_their_argument(
    generics: Seq<Spanned<Text>>,
    args: Seq<TypeV>,
    n: nat,
    i: int,
)
    requires
        0 <= i < n <= generics.len(),
        n <= args.len(),
        are_distinct(generics),
    ensures
        protos::concrete_key(generics, args, n, generics[i].inner) == Some(
            types::type_key(args[i]),
        ),
    decreases n,
{
    if i < n - 1 {
        assert(generics[i].inner != generics[n - 1].inner);
        bounds_are_asked_of_their_argument(generics, args, (n - 1) as nat, i);
    }
}

} // verus!
