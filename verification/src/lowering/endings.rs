//! How bodies end, and what lowering knows of machines before it begins.

use vstd::prelude::*;

use crate::api::ast;
use crate::api::ast::{ItemV, MachineItemV, MachineV};
use crate::api::expr::{Head, Tree};
use crate::loader::ModuleV;
use crate::lowering::calls;
use crate::lowering::expand::CxV;
use crate::lowering::passes;
use crate::lowering::pure;
use crate::lowering::pure::RetKeyV;
use crate::lowering::shapes::{decimals_read_back, is_nought, names, names_var};
use crate::lowering::tail;
use crate::lowering::value;
use crate::lowering::value::Meaning;
use crate::registry;
use crate::registry::{ModuleId, RegistryV};
use crate::rewrite;
use crate::span::Spanned;
use crate::text;
use crate::text::Text;

verus! {

// ── the value of a body ────────────────────────────────────────────────────

/// Whether an expression calls the caller with `self` and `v`.
pub open spec fn is_answer(t: Tree, v: Tree) -> bool {
    &&& t.head is Jump
    &&& t.kids.len() == 3
    &&& names(t.kids[0], "__caller"@)
    &&& names(t.kids[1], "self"@)
    &&& t.kids[2] == v
}

/// Whether an expression calls the caller.
pub open spec fn is_some_answer(t: Tree) -> bool {
    t.head is Jump && t.kids.len() > 0 && names_var(t.kids[0], "__caller"@)
}

/// Whether the body `us` is the body `ts` that answers with its value: what
/// comes before the last statement stays; an expression at the end is the
/// answer; what is bound at the end is followed by an answer of nobody; a
/// `when` or `wait` at the end answers in each of its bodies.
pub open spec fn answers_with_value(ts: Seq<Tree>, us: Seq<Tree>) -> bool
    decreases ts,
{
    if ts.len() == 0 {
        us == ts
    } else {
        let n = ts.len() - 1;
        let t = ts[n];
        &&& us.len() > n
        &&& us.take(n) == ts.take(n)
        &&& match t.head {
            Head::When | Head::Wait => {
                &&& us.len() == n + 1
                &&& us[n].head == t.head
                &&& us[n].span == t.span
                &&& us[n].kids.len() == t.kids.len()
                &&& t.kids.len() > 0 ==> us[n].kids[0] == t.kids[0]
                &&& forall|i: int|
                    1 <= i < t.kids.len() ==> part_answers(#[trigger] t.kids[i], us[n].kids[i])
            },
            Head::Let(_, _) | Head::Pin => {
                &&& us.len() == n + 2
                &&& us[n] == t
                &&& us[n + 1].kids.len() == 3
                &&& is_answer(us[n + 1], us[n + 1].kids[2])
                &&& is_nought(us[n + 1].kids[2])
            },
            Head::LetTuple(_) => us == ts,
            _ => us.len() == n + 1 && if is_some_answer(t) {
                us[n] == t
            } else {
                is_answer(us[n], t)
            },
        }
    }
}

/// Whether a part of a `when` or `wait` answers with the value of its body.
pub open spec fn part_answers(t: Tree, u: Tree) -> bool
    decreases t, 1nat,
{
    let k = if t.head is Arm {
        1int
    } else {
        0
    };
    &&& u.head == t.head
    &&& u.span == t.span
    &&& if (t.head is Arm || t.head is Handler) && t.kids.len() > k {
        proof {
            assert(decreases_to!(t => t.kids));
            assert(k > 0 ==> decreases_to!(t.kids => t.kids.skip(k)));
            assert(t.kids.skip(0) =~= t.kids);
        }
        &&& u.kids.len() > k
        &&& u.kids.take(k) == t.kids.take(k)
        &&& answers_with_value(t.kids.skip(k), u.kids.skip(k))
    } else {
        u == t
    }
}

/// A body that is wrapped answers with its value.
pub proof fn wrapped_bodies_answer_with_their_value(ts: Seq<Tree>)
    ensures
        answers_with_value(ts, tail::wrapped_body(ts)),
    decreases ts, 0nat,
{
    let us = tail::wrapped_body(ts);
    if ts.len() == 0 {
    } else {
        let n = ts.len() - 1;
        let t = ts[n];
        assert(us.take(n) =~= ts.take(n));
        let more = tail::wrapped_tail(t);
        assert(us[n] == more[0]);
        match t.head {
            Head::When | Head::Wait => {
                assert(decreases_to!(ts => ts[n]));
                assert forall|i: int| 1 <= i < t.kids.len() implies part_answers(
                    #[trigger] t.kids[i],
                    us[n].kids[i],
                ) by {
                    wrapped_parts_answer(t.kids[i]);
                }
            },
            Head::Let(_, _) | Head::Pin => {
                assert(us[n + 1] == more[1]);
                reveal_strlit("0");
                decimals_read_back(0);
                assert("0"@ =~= text::decimal(0));
            },
            Head::LetTuple(_) => {
                assert(us =~= ts);
            },
            _ => {},
        }
    }
}

proof fn wrapped_parts_answer(t: Tree)
    ensures
        part_answers(t, tail::wrapped_part(t)),
    decreases t, 1nat,
{
    let k = tail::body_start(t) as int;
    if (t.head is Arm || t.head is Handler) && t.kids.len() > k {
        assert(decreases_to!(t => t.kids));
        assert(k > 0 ==> decreases_to!(t.kids => t.kids.skip(k)));
        assert(t.kids.skip(0) =~= t.kids);
        wrapped_bodies_answer_with_their_value(t.kids.skip(k));
        let u = tail::wrapped_part(t);
        let body = tail::wrapped_body(t.kids.skip(k));
        assert(u.kids.skip(k) =~= body);
        assert(u.kids.take(k) =~= t.kids.take(k));
    }
}

// ── statements ─────────────────────────────────────────────────────────────

/// A `pin x` becomes a binding of `x` and any other statement stays, each at
/// its place.
pub proof fn pins_become_bindings(body: Seq<Tree>, n: nat, next: u32)
    requires
        n <= body.len(),
    ensures
        ({
            let out = calls::pinned_all(body, n, next).0;
            &&& out.len() == n
            &&& forall|k: int|
                0 <= k < n ==> if (#[trigger] body[k]).head is Pin && body[k].kids.len() > 0 {
                    out[k].head is Let && out[k].kids == seq![body[k].kids[0]]
                } else {
                    body[k].head is Pin || out[k] == body[k]
                }
        }),
    decreases n,
{
    if n > 0 {
        pins_become_bindings(body, (n - 1) as nat, next);
        let (was, c) = calls::pinned_all(body, (n - 1) as nat, next);
        let out = calls::pinned_all(body, n, next).0;
        assert forall|k: int| 0 <= k < n - 1 implies out[k] == #[trigger] was[k] by {}
    }
}

/// A call of a machine that returns something becomes a binding of it and any
/// other statement stays, each at its place.
pub proof fn bare_calls_become_bindings(cx: CxV, body: Seq<Tree>, n: nat, next: u32)
    requires
        n <= body.len(),
    ensures
        ({
            let out = calls::discarded_all(cx, body, n, next).0;
            &&& out.len() == n
            &&& forall|k: int|
                0 <= k < n ==> if (#[trigger] body[k]).head is Jump && calls::ret_of(
                    cx,
                    body[k],
                ) is Some {
                    out[k].head is Let && out[k].kids == seq![body[k]]
                } else {
                    out[k] == body[k]
                }
        }),
    decreases n,
{
    if n > 0 {
        bare_calls_become_bindings(cx, body, (n - 1) as nat, next);
        let (was, c) = calls::discarded_all(cx, body, (n - 1) as nat, next);
        let out = calls::discarded_all(cx, body, n, next).0;
        assert forall|k: int| 0 <= k < n - 1 implies out[k] == #[trigger] was[k] by {}
    }
}

/// Whether `u` is `t` with every path that leads to a module made the name of
/// the item it denotes there.
pub open spec fn has_bare_names(reg: RegistryV, id: ModuleId, t: Tree, u: Tree) -> bool
    decreases t,
{
    u.span == t.span && match t.head {
        Head::Path(segs) => if reg.path_target(id, registry::segment_texts(segs)) is Some {
            segs.len() > 0 && names(u, segs[segs.len() - 1].inner)
        } else {
            u.head == t.head
        },
        _ => {
            &&& u.head == t.head
            &&& u.kids.len() == t.kids.len()
            &&& forall|i: int|
                0 <= i < t.kids.len() ==> has_bare_names(reg, id, #[trigger] t.kids[i], u.kids[i])
        },
    }
}

/// A path becomes its last name, and nothing else changes.
pub proof fn paths_become_their_last_name(reg: RegistryV, id: ModuleId, t: Tree)
    ensures
        has_bare_names(reg, id, t, rewrite::rewritten(passes::paths_rule(reg, id), t)),
    decreases t,
{
    let p = passes::paths_rule(reg, id);
    let kids = rewrite::rewritten_kids(p, t.head, t.kids);
    assert forall|i: int| 0 <= i < t.kids.len() implies has_bare_names(
        reg,
        id,
        #[trigger] t.kids[i],
        kids[i],
    ) by {
        paths_become_their_last_name(reg, id, t.kids[i]);
        assert(rewrite::entered(p, t.head, i));
    }
    if let Head::Path(segs) = t.head {
        let ss = registry::segment_texts(segs);
        if reg.path_target(id, ss) is Some {
            assert(ss.last() == segs[segs.len() - 1].inner);
        }
    }
}

// ── machines that return something ─────────────────────────────────────────

/// Whether the first branch of a machine that has a result has the result `t`.
pub open spec fn returns_first(m: MachineV, t: Text) -> bool {
    exists|i: int|
        {
            &&& 0 <= i < m.items.len()
            &&& match (#[trigger] m.items[i]).inner {
                MachineItemV::Branch(b) => b.head.ret_ty matches Some(ty) && t == ast::type_text(
                    ty.inner,
                ),
                _ => false,
            }
            &&& forall|j: int| 0 <= j < i ==> !has_result((#[trigger] m.items[j]).inner)
        }
}

/// Whether a member of a machine is a branch with a result.
pub open spec fn has_result(item: MachineItemV) -> bool {
    match item {
        MachineItemV::Branch(b) => b.head.ret_ty is Some,
        _ => false,
    }
}

proof fn first_results(items: Seq<Spanned<MachineItemV>>, from: int)
    requires
        0 <= from <= items.len(),
    ensures
        match pure::first_ret(items, from) {
            Some(t) => exists|i: int|
                {
                    &&& from <= i < items.len()
                    &&& match (#[trigger] items[i]).inner {
                        MachineItemV::Branch(b) => b.head.ret_ty matches Some(ty) && t
                            == ast::type_text(ty.inner),
                        _ => false,
                    }
                    &&& forall|j: int| from <= j < i ==> !has_result((#[trigger] items[j]).inner)
                },
            None => forall|j: int|
                from <= j < items.len() ==> !has_result((#[trigger] items[j]).inner),
        },
    decreases items.len() - from,
{
    if from < items.len() && !has_result(items[from].inner) {
        first_results(items, from + 1);
    }
}

proof fn inserted<T>(table: Seq<(RetKeyV, T)>, key: RetKeyV, v: T, other: RetKeyV)
    ensures
        pure::key_lookup(pure::key_insert(table, key, v), other) == if other == key {
            Some(v)
        } else {
            pure::key_lookup(table, other)
        },
{
    let after = pure::key_insert(table, key, v);
    index_is_first(table, key, 0);
    index_is_first(table, other, 0);
    index_is_first(after, other, 0);
    let i = pure::key_index(table, key, 0);
    let a = pure::key_index(table, other, 0);
    let b = pure::key_index(after, other, 0);
    if other == key {
        assert(after[i].0 == key);
    } else {
        if a < table.len() {
            assert(after[a].0 == other);
            if b < a {
                assert(after[b].0 == other);
                assert(b != i);
                assert(table[b].0 == other);
            }
        } else if b < after.len() {
            assert(after[b].0 == other);
            assert(b != i);
            assert(table[b].0 == other);
        }
    }
}

proof fn index_is_first<T>(table: Seq<(RetKeyV, T)>, key: RetKeyV, from: int)
    requires
        0 <= from <= table.len(),
    ensures
        ({
            let i = pure::key_index(table, key, from);
            &&& from <= i <= table.len()
            &&& i < table.len() ==> table[i].0 == key
            &&& forall|j: int| from <= j < i ==> (#[trigger] table[j]).0 != key
        }),
    decreases table.len() - from,
{
    if from < table.len() && table[from].0 != key {
        index_is_first(table, key, from + 1);
    }
}

/// Whether item `i` of module `k` is a machine that the key names.
pub open spec fn is_keyed(ms: Seq<ModuleV>, k: int, i: int, key: RetKeyV) -> bool {
    &&& 0 <= k < ms.len()
    &&& 0 <= i < ms[k].ast.len()
    &&& ms[k].path == key.module
    &&& match ms[k].ast[i].inner {
        ItemV::Machine(m) => m.inner.ident.inner == key.name && exists|j: int|
            0 <= j < m.inner.items.len() && has_result((#[trigger] m.inner.items[j]).inner),
        _ => false,
    }
}

proof fn results_of_module(
    table: Seq<(RetKeyV, Text)>,
    ms: Seq<ModuleV>,
    k: int,
    n: nat,
    key: RetKeyV,
)
    requires
        0 <= k < ms.len(),
        n <= ms[k].ast.len(),
    ensures
        ({
            let found = pure::key_lookup(pure::module_ret_machines(table, ms[k], n), key);
            ||| found == pure::key_lookup(table, key) && forall|i: int|
                0 <= i < n ==> !#[trigger] is_keyed(ms, k, i, key)
            ||| exists|i: int|
                {
                    &&& 0 <= i < n
                    &&& #[trigger] is_keyed(ms, k, i, key)
                    &&& found is Some
                    &&& returns_first(ms[k].ast[i].inner->Machine_0.inner, found->0)
                    &&& forall|j: int| i < j < n ==> !#[trigger] is_keyed(ms, k, j, key)
                }
        }),
    decreases n,
{
    if n > 0 {
        let m = ms[k];
        results_of_module(table, ms, k, (n - 1) as nat, key);
        let before = pure::module_ret_machines(table, m, (n - 1) as nat);
        if let ItemV::Machine(mach) = m.ast[n - 1].inner {
            first_results(mach.inner.items, 0);
            if let Some(ret) = pure::first_ret(mach.inner.items, 0) {
                let here = RetKeyV { module: m.path, name: mach.inner.ident.inner };
                inserted(before, here, ret, key);
                if here == key {
                    assert(returns_first(mach.inner, ret));
                    assert(is_keyed(ms, k, n - 1, key));
                } else {
                    assert(!is_keyed(ms, k, n - 1, key));
                }
            } else {
                assert(!is_keyed(ms, k, n - 1, key));
            }
        } else {
            assert(!is_keyed(ms, k, n - 1, key));
        }
    }
}

/// What is known of the machines that return something: each of them, and no
/// other, with the result of the first branch that has one; of several of one
/// name, the last.
pub proof fn results_are_those_of_machines(ms: Seq<ModuleV>, n: nat, key: RetKeyV)
    requires
        n <= ms.len(),
    ensures
        match pure::key_lookup(pure::ret_machines_of(ms, n), key) {
            Some(t) => exists|k: int, i: int|
                {
                    &&& 0 <= k < n
                    &&& #[trigger] is_keyed(ms, k, i, key)
                    &&& returns_first(ms[k].ast[i].inner->Machine_0.inner, t)
                    &&& forall|q: int, j: int|
                        0 <= q < n && (q > k || (q == k && j > i)) ==> !#[trigger] is_keyed(
                            ms,
                            q,
                            j,
                            key,
                        )
                },
            None => forall|q: int, j: int| 0 <= q < n ==> !#[trigger] is_keyed(ms, q, j, key),
        },
    decreases n,
{
    if n == 0 {
        index_is_first(Seq::<(RetKeyV, Text)>::empty(), key, 0);
    } else {
        let m = (n - 1) as nat;
        results_are_those_of_machines(ms, m, key);
        let table = pure::ret_machines_of(ms, m);
        results_of_module(table, ms, m as int, ms[m as int].ast.len(), key);
        let found = pure::key_lookup(pure::ret_machines_of(ms, n), key);
        let len = ms[m as int].ast.len();
        if found == pure::key_lookup(table, key) && forall|i: int|
            0 <= i < len ==> !#[trigger] is_keyed(ms, m as int, i, key) {
            assert forall|j: int| !#[trigger] is_keyed(ms, m as int, j, key) by {}
        } else {
            let i = choose|i: int|
                {
                    &&& 0 <= i < len
                    &&& #[trigger] is_keyed(ms, m as int, i, key)
                    &&& found is Some
                    &&& returns_first(ms[m as int].ast[i].inner->Machine_0.inner, found->0)
                    &&& forall|j: int| i < j < len ==> !#[trigger] is_keyed(ms, m as int, j, key)
                };
            assert(is_keyed(ms, m as int, i, key));
        }
    }
}

// ── bodies that return what they bind ──────────────────────────────────────

/// `let v = e; ret v` at the end of a body returns what `ret e` does.
pub proof fn returning_a_binding_returns_its_value<V>(
    m: Meaning<V>,
    body: Seq<Tree>,
    env: Map<Text, V>,
)
    requires
        body.len() > 0,
        body.last().head is Ret,
        body.last().kids.len() == 1,
    ensures
        ({
            let c = pure::canonical(body);
            &&& c.len() > 0
            &&& c.last().head is Ret
            &&& c.last().kids.len() == 1
            &&& value::value(
                m,
                c.last().kids[0],
                value::after(m, c, (c.len() - 1) as nat, env),
            ) == value::value(
                m,
                body.last().kids[0],
                value::after(m, body, (body.len() - 1) as nat, env),
            )
        }),
{
    let c = pure::canonical(body);
    let n = body.len();
    if n >= 2 && pure::ends_in_let_ret(body) {
        let k = (n - 2) as nat;
        same_statements(m, body, c, k, env);
        let before = value::after(m, body, k, env);
        assert(value::after(m, body, (n - 1) as nat, env) == before.insert(
            body[n - 2].head->Let_0.inner,
            value::value(m, body[n - 2].kids[0], before),
        ));
    }
}

proof fn same_statements<V>(
    m: Meaning<V>,
    a: Seq<Tree>,
    b: Seq<Tree>,
    n: nat,
    env: Map<Text, V>,
)
    requires
        n <= a.len(),
        n <= b.len(),
        forall|k: int| 0 <= k < n ==> #[trigger] a[k] == b[k],
    ensures
        value::after(m, a, n, env) == value::after(m, b, n, env),
    decreases n,
{
    if n > 0 {
        same_statements(m, a, b, (n - 1) as nat, env);
        assert(a[n - 1] == b[n - 1]);
    }
}

/// The template of a machine is its only branch: the parameters are those of
/// the branch, and the statements stand in their order.
pub proof fn templates_are_the_only_branch(
    m: MachineV,
    consts: Map<Text, Tree>,
    id: ModuleId,
)
    ensures
        pure::template_of(m, consts, id) matches Some(t) ==> exists|i: int|
            {
                &&& 0 <= i < m.items.len()
                &&& forall|j: int|
                    0 <= j < m.items.len() && j != i ==> (#[trigger] m.items[j]).inner is Field
                &&& match (#[trigger] m.items[i]).inner {
                    MachineItemV::Branch(b) => {
                        &&& t.params == b.head.patterns
                        &&& t.origin_module == id
                        &&& t.body.len() == pure::canonical(b.body).len()
                    },
                    _ => false,
                }
            },
{
    only_branch(m.items, m.items.len());
}

proof fn only_branch(items: Seq<Spanned<MachineItemV>>, n: nat)
    requires
        n <= items.len(),
    ensures
        ({
            let bs = pure::branches_of(items, n);
            &&& bs.len() == 0 ==> forall|j: int|
                0 <= j < n ==> (#[trigger] items[j]).inner is Field
            &&& bs.len() == 1 ==> exists|i: int|
                {
                    &&& 0 <= i < n
                    &&& (#[trigger] items[i]).inner == MachineItemV::Branch(bs[0])
                    &&& forall|j: int|
                        0 <= j < n && j != i ==> (#[trigger] items[j]).inner is Field
                }
        }),
    decreases n,
{
    if n > 0 {
        only_branch(items, (n - 1) as nat);
    }
}

} // verus!
