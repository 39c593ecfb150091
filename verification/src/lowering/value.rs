//! What an expansion computes.
//!
//! The value of an expression is taken under any meaning of its nodes and of
//! its calls, and a body binds the names of its `let`s one after the other.
//! An expansion in place binds its name to what the machine returns.

use vstd::prelude::*;

use crate::api::ast::PatternV;
use crate::api::expr::{Head, Tree};
use crate::lowering::expand;
use crate::lowering::passes;
use crate::lowering::pure::TemplateV;
use crate::rewrite;
use crate::span::{SimpleSpan, Spanned};
use crate::text;
use crate::text::Text;

verus! {

// ── where arguments go ─────────────────────────────────────────────────────

proof fn lets_bind_by_position(
    params: Seq<Spanned<PatternV>>,
    args: Seq<Tree>,
    n: nat,
    id: u32,
    span: SimpleSpan,
)
    requires
        n <= params.len(),
        n <= args.len(),
    ensures
        expand::arg_lets(params, args, n, id, span).len() == n,
        forall|i: int|
            0 <= i < n ==> binds(
                #[trigger] expand::arg_lets(params, args, n, id, span)[i],
                expand::inl_name(id, params[i].inner.ident.inner),
                args[i],
            ),
    decreases n,
{
    if n > 0 {
        lets_bind_by_position(params, args, (n - 1) as nat, id, span);
    }
}

/// Whether a statement is `let name = value`.
pub open spec fn binds(t: Tree, name: Text, value: Tree) -> bool {
    &&& t.head matches Head::Let(ident, _)
    &&& ident.inner == name
    &&& t.kids.len() == 1
    &&& t.kids[0] == value
}

/// The expansion of `let r = f(e0 .. ek)` begins with one `let` for each
/// parameter, in order: the `i`-th binds the fresh name of the `i`-th
/// parameter to the `i`-th argument.  It ends with a `let` of the name that
/// the statement binds, and has the statements of the machine in between.
pub proof fn arguments_go_to_their_parameters(tm: TemplateV, t: Tree, id: u32)
    requires
        t.head is Let,
        t.kids.len() == 1,
        t.kids[0].kids.len() == tm.params.len() + 1,
        tm.body.len() > 0,
    ensures
        expand::inlined_let(tm, t, id).len() == tm.params.len() + tm.body.len(),
        forall|i: int|
            0 <= i < tm.params.len() ==> binds(
                #[trigger] expand::inlined_let(tm, t, id)[i],
                expand::inl_name(id, tm.params[i].inner.ident.inner),
                t.kids[0].kids[i + 1],
            ),
        expand::inlined_let(tm, t, id).last().head == t.head,
        expand::inlined_let(tm, t, id).last().span == t.span,
{
    let args = t.kids[0].kids.skip(1);
    lets_bind_by_position(tm.params, args, tm.params.len(), id, t.span);
    let lets = expand::arg_lets(tm.params, args, tm.params.len(), id, t.span);
    let all = expand::inlined_let(tm, t, id);
    assert forall|i: int| 0 <= i < tm.params.len() implies binds(
        #[trigger] all[i],
        expand::inl_name(id, tm.params[i].inner.ident.inner),
        t.kids[0].kids[i + 1],
    ) by {
        assert(all[i] == lets[i]);
        assert(args[i] == t.kids[0].kids[i + 1]);
    }
}

// ── values ─────────────────────────────────────────────────────────────────

/// What nodes and calls mean.
#[verifier::reject_recursive_types(V)]
pub struct Meaning<V> {
    /// The value of a node, by its head and the values below it.
    pub node: spec_fn(Head, Seq<V>) -> V,
    /// The value of a call, by its callee and the values of its arguments.
    pub call: spec_fn(Tree, Seq<V>) -> V,
}

/// The value of an expression where `env` says what names stand for.
pub open spec fn value<V>(m: Meaning<V>, t: Tree, env: Map<Text, V>) -> V
    decreases t,
{
    match t.head {
        Head::Var(name, _) => if env.contains_key(name) {
            env[name]
        } else {
            (m.node)(t.head, Seq::empty())
        },
        Head::Jump => if t.kids.len() > 0 {
            (m.call)(t.kids[0], values(m, t.kids, 1, env))
        } else {
            (m.node)(t.head, Seq::empty())
        },
        h => (m.node)(h, values(m, t.kids, 0, env)),
    }
}

/// The values of the expressions from `from` on.
pub open spec fn values<V>(m: Meaning<V>, ts: Seq<Tree>, from: int, env: Map<Text, V>) -> Seq<V>
    decreases ts,
{
    Seq::new(
        (ts.len() - from) as nat,
        |i: int|
            if 0 <= from + i < ts.len() {
                value(m, ts[from + i], env)
            } else {
                arbitrary()
            },
    )
}

/// What names stand for after the first `n` statements of a body.
pub open spec fn after<V>(m: Meaning<V>, body: Seq<Tree>, n: nat, env: Map<Text, V>) -> Map<Text, V>
    decreases n,
{
    if n == 0 || n > body.len() {
        env
    } else {
        let before = after(m, body, (n - 1) as nat, env);
        let t = body[n - 1];
        match t.head {
            Head::Let(ident, _) => if t.kids.len() == 1 {
                before.insert(ident.inner, value(m, t.kids[0], before))
            } else {
                before
            },
            _ => before,
        }
    }
}

/// What names stand for when a machine begins with the given values of its
/// first `n` parameters.
pub open spec fn entered<V>(
    params: Seq<Spanned<PatternV>>,
    vs: Seq<V>,
    n: nat,
    env: Map<Text, V>,
) -> Map<Text, V>
    decreases n,
{
    if n == 0 || n > params.len() {
        env
    } else {
        entered(params, vs, (n - 1) as nat, env).insert(params[n - 1].inner.ident.inner, vs[n - 1])
    }
}

/// What a machine returns for the given values of its parameters.  Nothing
/// that it sets is set before.
pub open spec fn returned<V>(m: Meaning<V>, tm: TemplateV, vs: Seq<V>, env: Map<Text, V>) -> V {
    let at = entered(tm.params, vs, tm.params.len(), unset(tm, env));
    value(m, tm.body.last().kids[0], after(m, tm.body, (tm.body.len() - 1) as nat, at))
}

/// What names stand for, without those that a machine sets.
pub open spec fn unset<V>(tm: TemplateV, env: Map<Text, V>) -> Map<Text, V> {
    env.remove_keys(expand::template_names(tm))
}

// ── what can be so evaluated ───────────────────────────────────────────────

/// Whether an expression binds nothing and holds no record literal, and all
/// names in it but callees are good.
pub open spec fn is_plain(t: Tree, good: spec_fn(Text) -> bool) -> bool
    decreases t,
{
    match t.head {
        Head::Var(name, _) => good(name) && t.kids.len() == 0,
        Head::Jump => forall|i: int| 1 <= i < t.kids.len() ==> is_plain(#[trigger] t.kids[i], good),
        Head::Let(_, _)
        | Head::LetTuple(_)
        | Head::When
        | Head::Wait
        | Head::Arm
        | Head::Filter
        | Head::Handler(_)
        | Head::RecordLiteral(_, _) => false,
        _ => forall|i: int| 0 <= i < t.kids.len() ==> is_plain(#[trigger] t.kids[i], good),
    }
}

/// Whether a name is the fresh one of some name.
pub open spec fn is_fresh(id: u32, name: Text) -> bool {
    exists|x: Text| name == #[trigger] expand::inl_name(id, x)
}

/// Whether `name` is a parameter or bound by one of the first `n` statements.
pub open spec fn is_set(tm: TemplateV, n: int, name: Text) -> bool {
    ||| exists|i: int| 0 <= i < tm.params.len() && (#[trigger] tm.params[i]).inner.ident.inner == name
    ||| exists|k: int| 0 <= k < n && lets(#[trigger] tm.body[k], name)
}

/// Whether a statement is a `let` of `name`.
pub open spec fn lets(t: Tree, name: Text) -> bool {
    t.head matches Head::Let(ident, _) && ident.inner == name
}

/// The names that may stand in the `n`-th statement: those that are set, and
/// those that the machine does not set at all.
pub open spec fn usable(tm: TemplateV, n: int, id: u32) -> spec_fn(Text) -> bool {
    |name: Text|
        !is_fresh(id, name) && (is_set(tm, n, name) || !expand::template_names(tm).contains(name))
}

/// Whether a machine is a list of `let`s and expressions that ends in a
/// `ret`, and uses no name before it is set.
pub open spec fn is_straight(tm: TemplateV, id: u32) -> bool {
    let last = tm.body.len() - 1;
    &&& tm.body.len() > 0
    &&& tm.body[last].head is Ret
    &&& tm.body[last].kids.len() == 1
    &&& is_plain(tm.body[last].kids[0], usable(tm, last, id))
    &&& forall|k: int|
        0 <= k < last ==> match (#[trigger] tm.body[k]).head {
            Head::Let(_, _) => tm.body[k].kids.len() == 1 && is_plain(
                tm.body[k].kids[0],
                usable(tm, k, id),
            ),
            _ => is_plain(tm.body[k], usable(tm, k, id)),
        }
}

// ── names ──────────────────────────────────────────────────────────────────

proof fn fresh_names_differ(id: u32, a: Text, b: Text)
    requires
        expand::inl_name(id, a) == expand::inl_name(id, b),
    ensures
        a == b,
{
    let p = "__inl_"@ + text::decimal(id as nat) + "_"@;
    assert(a =~= expand::inl_name(id, a).skip(p.len() as int));
    assert(b =~= expand::inl_name(id, b).skip(p.len() as int));
}

proof fn params_are_names(params: Seq<Spanned<PatternV>>, n: nat, i: int)
    requires
        0 <= i < n <= params.len(),
    ensures
        expand::param_names(params, n).contains(params[i].inner.ident.inner),
    decreases n,
{
    if i < n - 1 {
        params_are_names(params, (n - 1) as nat, i);
    }
}

proof fn lets_are_names(body: Seq<Tree>, n: nat, k: int)
    requires
        0 <= k < n <= body.len(),
        body[k].head is Let,
    ensures
        expand::bound_all(body, n).contains(body[k].head->Let_0.inner),
    decreases n,
{
    if k < n - 1 {
        lets_are_names(body, (n - 1) as nat, k);
    } else {
        assert(expand::bound(body[k]).contains(body[k].head->Let_0.inner));
    }
}

// ── renaming keeps values ──────────────────────────────────────────────────

/// Whether two settings agree: the second has under fresh names what the
/// first has under the names of the machine, and the other names are the same.
spec fn agree<V>(tm: TemplateV, id: u32, inner: Map<Text, V>, outer: Map<Text, V>) -> bool {
    let names = expand::template_names(tm);
    &&& forall|x: Text|
        names.contains(x) && #[trigger] inner.contains_key(x) ==> outer.contains_key(
            expand::inl_name(id, x),
        ) && outer[expand::inl_name(id, x)] == inner[x]
    &&& forall|x: Text|
        !names.contains(x) && !is_fresh(id, x) ==> (#[trigger] outer.contains_key(x))
            == inner.contains_key(x) && (inner.contains_key(x) ==> outer[x] == inner[x])
}

proof fn renaming_keeps_values<V>(
    m: Meaning<V>,
    tm: TemplateV,
    id: u32,
    t: Tree,
    n: int,
    inner: Map<Text, V>,
    outer: Map<Text, V>,
)
    requires
        is_plain(t, usable(tm, n, id)),
        agree(tm, id, inner, outer),
        forall|x: Text| #[trigger] is_set(tm, n, x) ==> inner.contains_key(x),
    ensures
        value(
            m,
            rewrite::rewritten(
                passes::rename_rule(expand::fresh_names(id, expand::template_names(tm))),
                t,
            ),
            outer,
        ) == value(m, t, inner),
    decreases t,
{
    let names = expand::template_names(tm);
    let fresh = expand::fresh_names(id, names);
    let rule = passes::rename_rule(fresh);
    let r = rewrite::rewritten(rule, t);
    let kids = rewrite::rewritten_kids(rule, t.head, t.kids);
    match t.head {
        Head::Var(x, _) => {
            if names.contains(x) {
                assert(fresh[x] == expand::inl_name(id, x));
                assert(is_set(tm, n, x));
                assert(inner.contains_key(x));
            } else {
                assert(outer.contains_key(x) == inner.contains_key(x));
            }
            assert(t.kids =~= Seq::<Tree>::empty());
        },
        Head::Jump => {
            assert(r.kids == kids);
            assert forall|i: int| 1 <= i < t.kids.len() implies value(m, #[trigger] kids[i], outer)
                == value(m, t.kids[i], inner) by {
                renaming_keeps_values(m, tm, id, t.kids[i], n, inner, outer);
            }
            assert(values(m, kids, 1, outer) =~= values(m, t.kids, 1, inner));
        },
        _ => {
            assert(r.head == t.head && r.kids == kids);
            assert forall|i: int| 0 <= i < t.kids.len() implies value(m, #[trigger] kids[i], outer)
                == value(m, t.kids[i], inner) by {
                renaming_keeps_values(m, tm, id, t.kids[i], n, inner, outer);
            }
            assert(values(m, kids, 0, outer) =~= values(m, t.kids, 0, inner));
        },
    }
}

/// The value of an expression depends on the names in it only.
proof fn same_names_same_value<V>(
    m: Meaning<V>,
    t: Tree,
    good: spec_fn(Text) -> bool,
    a: Map<Text, V>,
    b: Map<Text, V>,
)
    requires
        is_plain(t, good),
        forall|x: Text|
            #[trigger] good(x) ==> a.contains_key(x) == b.contains_key(x) && (a.contains_key(x)
                ==> a[x] == b[x]),
    ensures
        value(m, t, a) == value(m, t, b),
    decreases t,
{
    match t.head {
        Head::Var(x, _) => {
            assert(good(x));
        },
        Head::Jump => {
            assert forall|i: int| 1 <= i < t.kids.len() implies value(m, #[trigger] t.kids[i], a)
                == value(m, t.kids[i], b) by {
                same_names_same_value(m, t.kids[i], good, a, b);
            }
            assert(values(m, t.kids, 1, a) =~= values(m, t.kids, 1, b));
        },
        _ => {
            assert forall|i: int| 0 <= i < t.kids.len() implies value(m, #[trigger] t.kids[i], a)
                == value(m, t.kids[i], b) by {
                same_names_same_value(m, t.kids[i], good, a, b);
            }
            assert(values(m, t.kids, 0, a) =~= values(m, t.kids, 0, b));
        },
    }
}

// ── the expansion, part by part ────────────────────────────────────────────

spec fn not_fresh(id: u32) -> spec_fn(Text) -> bool {
    |x: Text| !is_fresh(id, x)
}

/// After the bindings of the first `n` parameters the settings agree.
proof fn bindings_agree<V>(
    m: Meaning<V>,
    tm: TemplateV,
    t: Tree,
    id: u32,
    n: nat,
    env: Map<Text, V>,
)
    requires
        n <= tm.params.len(),
        t.head is Let,
        t.kids.len() == 1,
        t.kids[0].kids.len() == tm.params.len() + 1,
        tm.body.len() > 0,
        forall|i: int|
            1 <= i < t.kids[0].kids.len() ==> is_plain(#[trigger] t.kids[0].kids[i], not_fresh(id)),
    ensures
        agree(
            tm,
            id,
            entered(tm.params, values(m, t.kids[0].kids, 1, env), n, unset(tm, env)),
            after(m, expand::inlined_let(tm, t, id), n, env),
        ),
        forall|i: int|
            0 <= i < n ==> entered(
                tm.params,
                values(m, t.kids[0].kids, 1, env),
                n,
                unset(tm, env),
            ).contains_key((#[trigger] tm.params[i]).inner.ident.inner),
        forall|x: Text|
            !is_fresh(id, x) ==> (#[trigger] after(
                m,
                expand::inlined_let(tm, t, id),
                n,
                env,
            ).contains_key(x)) == env.contains_key(x) && (env.contains_key(x) ==> after(
                m,
                expand::inlined_let(tm, t, id),
                n,
                env,
            )[x] == env[x]),
    decreases n,
{
    let vs = values(m, t.kids[0].kids, 1, env);
    let all = expand::inlined_let(tm, t, id);
    arguments_go_to_their_parameters(tm, t, id);
    if n > 0 {
        bindings_agree(m, tm, t, id, (n - 1) as nat, env);
        let inner = entered(tm.params, vs, (n - 1) as nat, unset(tm, env));
        let outer = after(m, all, (n - 1) as nat, env);
        let p = tm.params[n - 1].inner.ident.inner;
        let arg = t.kids[0].kids[n as int];
        assert(binds(all[n - 1], expand::inl_name(id, p), arg));
        same_names_same_value(m, arg, not_fresh(id), outer, env);
        assert(vs[n - 1] == value(m, arg, env));
        params_are_names(tm.params, tm.params.len(), n - 1);
        let inner2 = entered(tm.params, vs, n, unset(tm, env));
        let outer2 = after(m, all, n, env);
        assert(inner2 == inner.insert(p, vs[n - 1]));
        assert(outer2 == outer.insert(expand::inl_name(id, p), vs[n - 1]));
        assert(is_fresh(id, expand::inl_name(id, p)));
        assert forall|x: Text|
            expand::template_names(tm).contains(x) && #[trigger] inner2.contains_key(
                x,
            ) implies outer2.contains_key(expand::inl_name(id, x)) && outer2[expand::inl_name(
            id,
            x,
        )] == inner2[x] by {
            if x != p && expand::inl_name(id, x) == expand::inl_name(id, p) {
                fresh_names_differ(id, x, p);
            }
        }
    }
}

/// After the first `n` statements of the machine the settings agree.
proof fn statements_agree<V>(
    m: Meaning<V>,
    tm: TemplateV,
    t: Tree,
    id: u32,
    n: nat,
    env: Map<Text, V>,
)
    requires
        n < tm.body.len(),
        t.head is Let,
        t.kids.len() == 1,
        t.kids[0].kids.len() == tm.params.len() + 1,
        is_straight(tm, id),
        forall|i: int|
            1 <= i < t.kids[0].kids.len() ==> is_plain(#[trigger] t.kids[0].kids[i], not_fresh(id)),
    ensures
        ({
            let at = entered(
                tm.params,
                values(m, t.kids[0].kids, 1, env),
                tm.params.len(),
                unset(tm, env),
            );
            let inner = after(m, tm.body, n, at);
            let outer = after(m, expand::inlined_let(tm, t, id), tm.params.len() + n, env);
            &&& agree(tm, id, inner, outer)
            &&& forall|x: Text| #[trigger] is_set(tm, n as int, x) ==> inner.contains_key(x)
            &&& forall|x: Text|
                !is_fresh(id, x) ==> (#[trigger] outer.contains_key(x)) == env.contains_key(x) && (
                env.contains_key(x) ==> outer[x] == env[x])
        }),
    decreases n,
{
    let np = tm.params.len();
    let at = entered(tm.params, values(m, t.kids[0].kids, 1, env), np, unset(tm, env));
    let all = expand::inlined_let(tm, t, id);
    let names = expand::template_names(tm);
    let fresh = expand::fresh_names(id, names);
    let rule = passes::rename_rule(fresh);
    arguments_go_to_their_parameters(tm, t, id);
    if n == 0 {
        bindings_agree(m, tm, t, id, np, env);
        assert forall|x: Text| #[trigger] is_set(tm, 0, x) implies at.contains_key(x) by {
            let i = choose|i: int|
                0 <= i < tm.params.len() && (#[trigger] tm.params[i]).inner.ident.inner == x;
            assert(at.contains_key(tm.params[i].inner.ident.inner));
        }
    } else {
        statements_agree(m, tm, t, id, (n - 1) as nat, env);
        let inner = after(m, tm.body, (n - 1) as nat, at);
        let outer = after(m, all, (np + n - 1) as nat, env);
        let inner2 = after(m, tm.body, n, at);
        let outer2 = after(m, all, np + n, env);
        let s = tm.body[n - 1];
        let r = rewrite::rewritten(rule, s);
        assert(all[np + n - 1] == r) by {
            let body = rewrite::rewritten_all(rule, tm.body);
            assert(body.drop_last()[n - 1] == r);
        }
        if let Head::Let(ident, _) = s.head {
            let x0 = ident.inner;
            lets_are_names(tm.body, tm.body.len(), n - 1);
            assert(names.contains(x0));
            renaming_keeps_values(m, tm, id, s.kids[0], n - 1, inner, outer);
            assert(rewrite::rewritten_kids(rule, s.head, s.kids)[0] == rewrite::rewritten(
                rule,
                s.kids[0],
            ));
            let v = value(m, s.kids[0], inner);
            assert(inner2 == inner.insert(x0, v));
            assert(outer2 == outer.insert(expand::inl_name(id, x0), v));
            assert(is_fresh(id, expand::inl_name(id, x0)));
            assert forall|x: Text| names.contains(x) && #[trigger] inner2.contains_key(
                x,
            ) implies outer2.contains_key(expand::inl_name(id, x)) && outer2[expand::inl_name(
                id,
                x,
            )] == inner2[x] by {
                if x != x0 && expand::inl_name(id, x) == expand::inl_name(id, x0) {
                    fresh_names_differ(id, x, x0);
                }
            }
        } else {
            assert(inner2 == inner);
            assert(!(r.head is Let));
            assert(outer2 == outer);
        }
        assert forall|x: Text| #[trigger] is_set(tm, n as int, x) implies inner2.contains_key(x) by {
            if !is_set(tm, n - 1, x) {
                let k = choose|k: int|
                    0 <= k < n && lets(#[trigger] tm.body[k], x);
                assert(k == n - 1);
            }
        }
    }
}

/// An expansion computes what the call would: after it, the name that
/// `let r = f(e0 .. ek)` binds stands for what the machine returns when each
/// of its parameters stands for the value of the argument at its place, and
/// every other name that is not made up stands for what it stood for before.
pub proof fn expansions_compute_the_call<V>(
    m: Meaning<V>,
    tm: TemplateV,
    t: Tree,
    id: u32,
    env: Map<Text, V>,
)
    requires
        t.head is Let,
        t.kids.len() == 1,
        t.kids[0].kids.len() == tm.params.len() + 1,
        is_straight(tm, id),
        forall|i: int|
            1 <= i < t.kids[0].kids.len() ==> is_plain(
                #[trigger] t.kids[0].kids[i],
                |x: Text| !is_fresh(id, x),
            ),
    ensures
        ({
            let all = expand::inlined_let(tm, t, id);
            let end = after(m, all, all.len(), env);
            let r = t.head->Let_0.inner;
            &&& end.contains_key(r)
            &&& end[r] == returned(m, tm, values(m, t.kids[0].kids, 1, env), env)
            &&& forall|x: Text|
                x != r && !is_fresh(id, x) ==> (#[trigger] end.contains_key(x))
                    == env.contains_key(x) && (env.contains_key(x) ==> end[x] == env[x])
        }),
{
    let np = tm.params.len();
    let last = (tm.body.len() - 1) as nat;
    let all = expand::inlined_let(tm, t, id);
    let rule = passes::rename_rule(expand::fresh_names(id, expand::template_names(tm)));
    assert((|x: Text| !is_fresh(id, x)) =~= not_fresh(id));
    arguments_go_to_their_parameters(tm, t, id);
    statements_agree(m, tm, t, id, last, env);
    let at = entered(tm.params, values(m, t.kids[0].kids, 1, env), np, unset(tm, env));
    let inner = after(m, tm.body, last, at);
    let outer = after(m, all, np + last, env);
    let s = tm.body[last as int];
    renaming_keeps_values(m, tm, id, s.kids[0], last as int, inner, outer);
    let body = rewrite::rewritten_all(rule, tm.body);
    assert(body.last() == rewrite::rewritten(rule, s));
    assert(rewrite::rewritten_kids(rule, s.head, s.kids)[0] == rewrite::rewritten(rule, s.kids[0]));
    assert(all[all.len() - 1].kids[0] == body.last().kids[0]);
    assert(all.len() == np + last + 1);
}

} // verus!
