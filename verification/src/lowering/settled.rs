//! Bodies and programs that are lowered already.

use vstd::prelude::*;

use crate::api::ast::{BranchV, ItemV, MachineItemV, MachineV};
use crate::api::expr::{Head, Tree};
use crate::inspect;
use crate::inspect::Ask;
use crate::loader::ModuleV;
use crate::lowering::body;
use crate::lowering::calls;
use crate::lowering::expand::CxV;
use crate::lowering::lift;
use crate::lowering::lift::{Lifted, Mode};
use crate::lowering::passes;
use crate::lowering::program;
use crate::lowering::pure;
use crate::lowering::pure::{RetKeyV, TemplateV};
use crate::lowering::tuples;
use crate::registry;
use crate::registry::{ImportBindingV, ModuleId, RegistryV, ResolutionV};
use crate::rewrite;
use crate::rewrite::Rule;
use crate::span::Spanned;
use crate::text::Text;

verus! {

// ── nothing to rewrite ─────────────────────────────────────────────────────

/// Whether a pass finds no node in `t` that it would change.
pub open spec fn untouched(p: Rule, t: Tree) -> bool
    decreases t,
{
    &&& !rewrite::is_part(t.head) ==> (p.at)(t) == t
    &&& forall|i: int|
        0 <= i < t.kids.len() && rewrite::entered(p, t.head, i) ==> untouched(
            p,
            #[trigger] t.kids[i],
        )
}

proof fn untouched_stays(p: Rule, t: Tree)
    requires
        untouched(p, t),
    ensures
        rewrite::rewritten(p, t) == t,
    decreases t,
{
    assert forall|i: int|
        0 <= i < t.kids.len() && rewrite::entered(p, t.head, i) implies rewrite::rewritten(
        p,
        #[trigger] t.kids[i],
    ) == t.kids[i] by {
        assert(decreases_to!(t => t.kids[i]));
        untouched_stays(p, t.kids[i]);
    }
    rewrite::settled_node(p, t);
}

proof fn all_untouched_stay(p: Rule, ts: Seq<Tree>)
    requires
        forall|i: int| 0 <= i < ts.len() ==> untouched(p, #[trigger] ts[i]),
    ensures
        rewrite::rewritten_all(p, ts) == ts,
{
    assert forall|i: int| 0 <= i < ts.len() implies rewrite::rewritten(p, #[trigger] ts[i])
        == ts[i] by {
        untouched_stays(p, ts[i]);
    }
    assert(rewrite::rewritten_all(p, ts) =~= ts);
}

// ── nothing to split ───────────────────────────────────────────────────────

/// Whether `t` is a `when` with tuple patterns to split.
pub open spec fn has_tuple_arm(t: Tree) -> bool {
    t.head is When && t.kids.len() > 0 && tuples::split_arity(
        t.kids[0],
        t.kids.skip(1),
    ) > 0
}

/// Whether no statement of the bodies inside `t` is a `when` with a tuple
/// pattern.
pub open spec fn unsplit(t: Tree) -> bool
    decreases t,
{
    match t.head {
        Head::Arm => forall|k: int|
            0 <= k < t.kids.len() ==> unsplit(#[trigger] t.kids[k]) && (k > 0 ==> !has_tuple_arm(
                t.kids[k],
            )),
        Head::Handler(_) => forall|k: int|
            0 <= k < t.kids.len() ==> unsplit(#[trigger] t.kids[k]) && !has_tuple_arm(t.kids[k]),
        h => tuples::looks_inside(h) ==> forall|k: int|
            0 <= k < t.kids.len() ==> unsplit(#[trigger] t.kids[k]),
    }
}

proof fn unsplit_stays(t: Tree, next: u32)
    requires
        unsplit(t),
    ensures
        tuples::split_in(t, next) == (t, next),
    decreases t, 0nat,
{
    match t.head {
        Head::Arm => {
            if t.kids.len() > 0 {
                assert(decreases_to!(t => t.kids.skip(1)));
                let rest = t.kids.skip(1);
                unsplit_stays(t.kids[0], next);
                assert forall|k: int| 0 <= k < rest.len() implies unsplit(#[trigger] rest[k])
                    && !has_tuple_arm(rest[k]) by {
                    assert(rest[k] == t.kids[k + 1]);
                }
                unsplit_body_stays(rest, rest.len(), next);
                assert(rest.take(rest.len() as int) =~= rest);
                assert(seq![t.kids[0]] + rest =~= t.kids);
            }
        },
        Head::Handler(_) => {
            unsplit_body_stays(t.kids, t.kids.len(), next);
            assert(t.kids.take(t.kids.len() as int) =~= t.kids);
        },
        h => {
            if tuples::looks_inside(h) {
                unsplit_kids_stay(t.kids, t.kids.len(), next);
                assert(t.kids.take(t.kids.len() as int) =~= t.kids);
            }
        },
    }
}

proof fn unsplit_kids_stay(ts: Seq<Tree>, n: nat, next: u32)
    requires
        n <= ts.len(),
        forall|k: int| 0 <= k < ts.len() ==> unsplit(#[trigger] ts[k]),
    ensures
        tuples::split_kids(ts, n, next) == (ts.take(n as int), next),
    decreases ts, n,
{
    if n > 0 {
        unsplit_kids_stay(ts, (n - 1) as nat, next);
        unsplit_stays(ts[n - 1], next);
        assert(ts.take(n - 1).push(ts[n - 1]) =~= ts.take(n as int));
    } else {
        assert(ts.take(0) =~= Seq::empty());
    }
}

proof fn unsplit_body_stays(ts: Seq<Tree>, n: nat, next: u32)
    requires
        n <= ts.len(),
        forall|k: int| 0 <= k < ts.len() ==> unsplit(#[trigger] ts[k]) && !has_tuple_arm(ts[k]),
    ensures
        tuples::split_all(ts, n, next) == (ts.take(n as int), next),
    decreases ts, n,
{
    if n > 0 {
        unsplit_body_stays(ts, (n - 1) as nat, next);
        let t = ts[n - 1];
        unsplit_stays(t, next);
        assert(tuples::split_stmt(t, next) == (seq![t], next));
        assert(ts.take(n - 1) + seq![t] =~= ts.take(n as int));
    } else {
        assert(ts.take(0) =~= Seq::empty());
    }
}

// ── nothing to expand, lift or bind ────────────────────────────────────────

proof fn unexpanded_stays(ts: Seq<Tree>, n: nat, next: u32)
    requires
        n <= ts.len(),
        forall|k: int| 0 <= k < ts.len() ==> !((#[trigger] ts[k]).head is LetTuple),
    ensures
        tuples::expanded_body(ts, n, next) == (ts.take(n as int), next),
    decreases n,
{
    if n > 0 {
        unexpanded_stays(ts, (n - 1) as nat, next);
        assert(!(ts[n - 1].head is LetTuple));
        assert(ts.take(n - 1) + seq![ts[n - 1]] =~= ts.take(n as int));
    } else {
        assert(ts.take(0) =~= Seq::empty());
    }
}

pub proof fn flat_stays(t: Tree, st: Lifted)
    requires
        lift::flat(t),
    ensures
        lift::lifted(t, st) == (t, st),
    decreases t, 0nat,
{
    flat_kids_stay(t, t.kids.len(), st);
    assert(t.kids.take(t.kids.len() as int) =~= t.kids);
}

proof fn flat_kids_stay(t: Tree, n: nat, st: Lifted)
    requires
        n <= t.kids.len(),
        lift::flat(t),
    ensures
        lift::lifted_kids(t.head, t.kids, n, st) == (t.kids.take(n as int), st),
    decreases t.kids, n,
{
    if n > 0 {
        flat_kids_stay(t, (n - 1) as nat, st);
        let k = t.kids[n - 1];
        match lift::mode(t.head, n - 1) {
            Mode::Keep => {},
            Mode::Inside => {
                flat_stays(k, st);
            },
            Mode::Value => {
                flat_stays(k, st);
            },
            Mode::Leaf => {
                assert(lift::is_leaf(k));
                assert(lift::flat(k));
                flat_stays(k, st);
            },
        }
        assert(t.kids.take(n - 1).push(k) =~= t.kids.take(n as int));
    } else {
        assert(t.kids.take(0) =~= Seq::empty());
    }
}

pub proof fn flat_body_stays(ts: Seq<Tree>, n: nat, next: u32)
    requires
        n <= ts.len(),
        lift::all_flat(ts),
    ensures
        lift::lifted_body(ts, n, next) == (Lifted { lifts: ts.take(n as int), next }),
    decreases n,
{
    if n > 0 {
        flat_body_stays(ts, (n - 1) as nat, next);
        flat_stays(ts[n - 1], lift::lifted_body(ts, (n - 1) as nat, next));
        assert(ts.take(n - 1).push(ts[n - 1]) =~= ts.take(n as int));
    } else {
        assert(ts.take(0) =~= Seq::empty());
    }
}

proof fn unbound_stays(cx: CxV, ts: Seq<Tree>, n: nat, next: u32)
    requires
        n <= ts.len(),
        forall|k: int|
            0 <= k < ts.len() ==> !((#[trigger] ts[k]).head is Pin) && !(ts[k].head is Jump
                && calls::ret_of(cx, ts[k]) is Some),
    ensures
        calls::pinned_all(ts, n, next) == (ts.take(n as int), next),
        calls::discarded_all(cx, ts, n, next) == (ts.take(n as int), next),
    decreases n,
{
    if n > 0 {
        unbound_stays(cx, ts, (n - 1) as nat, next);
        assert(!(ts[n - 1].head is Pin));
        assert(ts.take(n - 1).push(ts[n - 1]) =~= ts.take(n as int));
    } else {
        assert(ts.take(0) =~= Seq::empty());
    }
}

// ── bodies ─────────────────────────────────────────────────────────────────

/// Nothing that a rewriting pass changes: no path and no name of a constant
/// that resolves, no `ret`, and in a ret-branch no call of `self` without its
/// caller.
pub open spec fn calm(reg: RegistryV, id: ModuleId, is_ret: bool) -> Ask {
    Ask {
        local: |t: Tree|
            match t.head {
                Head::Path(segs) => reg.path_target(id, registry::segment_texts(segs)) is None,
                Head::Var(name, _) => !(reg.resolved(id, name) matches Some(ResolutionV::Const(_))),
                Head::Ret => false,
                Head::Jump => is_ret ==> !passes::is_unthreaded(t),
                _ => true,
            },
        covers: |head: Head, i: int| true,
    }
}

proof fn calm_is_untouched(reg: RegistryV, id: ModuleId, is_ret: bool, t: Tree)
    requires
        inspect::holds(calm(reg, id, is_ret), t),
    ensures
        untouched(passes::paths_rule(reg, id), t),
        untouched(passes::inline_rule(reg, id), t),
        is_ret ==> untouched(passes::thread_rule(), t),
        untouched(passes::ret_rule(), t),
    decreases t,
{
    let ask = calm(reg, id, is_ret);
    inspect::holds_iff(ask, t);
    assert forall|i: int| 0 <= i < t.kids.len() implies untouched(
        passes::paths_rule(reg, id),
        #[trigger] t.kids[i],
    ) && untouched(passes::inline_rule(reg, id), t.kids[i]) && (is_ret ==> untouched(
        passes::thread_rule(),
        t.kids[i],
    )) && untouched(passes::ret_rule(), t.kids[i]) by {
        assert(inspect::covered(ask, t.head, i));
        assert(decreases_to!(t => t.kids[i]));
        calm_is_untouched(reg, id, is_ret, t.kids[i]);
    }
}

/// Whether lowering finds nothing to do at a statement: nothing to rewrite,
/// no tuple to take apart, no call inside a call, no `pin`, and no call of a
/// ret-machine but one that asks for the pid.
pub open spec fn settled_stmt(cx: CxV, t: Tree, is_ret: bool) -> bool {
    &&& inspect::holds(calm(cx.reg, cx.id, is_ret), t)
    &&& !(t.head is LetTuple)
    &&& !has_tuple_arm(t)
    &&& lift::flat(t)
    &&& !(t.head is Pin)
    &&& !(t.head is Jump && calls::ret_of(cx, t) is Some)
    &&& !calls::binds_ret(cx, t)
}

/// Whether the statements of the bodies inside `t` are settled.
pub open spec fn settled_inside(cx: CxV, t: Tree, is_ret: bool) -> bool
    decreases t,
{
    match t.head {
        Head::Arm => forall|k: int|
            0 <= k < t.kids.len() ==> settled_inside(cx, #[trigger] t.kids[k], is_ret) && (k > 0
                ==> settled_stmt(cx, t.kids[k], is_ret)),
        Head::Handler(_) => forall|k: int|
            0 <= k < t.kids.len() ==> settled_inside(cx, #[trigger] t.kids[k], is_ret)
                && settled_stmt(cx, t.kids[k], is_ret),
        h => tuples::looks_inside(h) ==> forall|k: int|
            0 <= k < t.kids.len() ==> settled_inside(cx, #[trigger] t.kids[k], is_ret),
    }
}

/// Whether all statements of a body are settled, also those of the bodies
/// inside it.
pub open spec fn settled_body(cx: CxV, ts: Seq<Tree>, is_ret: bool) -> bool {
    forall|k: int|
        0 <= k < ts.len() ==> settled_stmt(cx, #[trigger] ts[k], is_ret) && settled_inside(
            cx,
            ts[k],
            is_ret,
        )
}

proof fn settled_is_unsplit(cx: CxV, t: Tree, is_ret: bool)
    requires
        settled_inside(cx, t, is_ret),
    ensures
        unsplit(t),
    decreases t,
{
    assert forall|k: int|
        0 <= k < t.kids.len() && (t.head is Arm || t.head is Handler || tuples::looks_inside(
            t.head,
        )) implies unsplit(#[trigger] t.kids[k]) by {
        assert(decreases_to!(t => t.kids[k]));
        settled_is_unsplit(cx, t.kids[k], is_ret);
    }
}

proof fn preparing_changes_nothing(cx: CxV, ts: Seq<Tree>, is_ret: bool, next: u32, fuel: nat)
    requires
        cx.pure.len() == 0,
        settled_body(cx, ts, is_ret),
    ensures
        body::prepared(cx, ts, is_ret, next, fuel) == (ts, next),
{
    let n = ts.len();
    assert(ts.take(n as int) =~= ts);
    assert forall|k: int| 0 <= k < ts.len() implies settled_stmt(cx, #[trigger] ts[k], is_ret)
        && unsplit(ts[k]) && untouched(passes::paths_rule(cx.reg, cx.id), ts[k]) && untouched(
        passes::inline_rule(cx.reg, cx.id),
        ts[k],
    ) && (is_ret ==> untouched(passes::thread_rule(), ts[k])) && untouched(
        passes::ret_rule(),
        ts[k],
    ) by {
        calm_is_untouched(cx.reg, cx.id, is_ret, ts[k]);
        settled_is_unsplit(cx, ts[k], is_ret);
    }
    all_untouched_stay(passes::paths_rule(cx.reg, cx.id), ts);
    all_untouched_stay(passes::inline_rule(cx.reg, cx.id), ts);
    unexpanded_stays(ts, n, next);
    unsplit_body_stays(ts, n, next);
    if is_ret {
        all_untouched_stay(passes::thread_rule(), ts);
    }
    all_untouched_stay(passes::ret_rule(), ts);
    flat_body_stays(ts, n, next);
    unbound_stays(cx, ts, n, next);
}

proof fn no_ret_let(cx: CxV, ts: Seq<Tree>, from: int)
    requires
        0 <= from <= ts.len(),
        forall|k: int| 0 <= k < ts.len() ==> !calls::binds_ret(cx, #[trigger] ts[k]),
    ensures
        body::first_ret_let(cx, ts, from) == ts.len(),
    decreases ts.len() - from,
{
    if from < ts.len() {
        no_ret_let(cx, ts, from + 1);
    }
}

/// Lowering a body that is settled, and that has no value left to send,
/// changes nothing and takes no fresh number.
pub proof fn settled_bodies_stay(
    cx: CxV,
    ts: Seq<Tree>,
    is_ret: bool,
    outermost: bool,
    next: u32,
    fuel: nat,
)
    requires
        cx.pure.len() == 0,
        settled_body(cx, ts, is_ret),
        !(is_ret && outermost),
    ensures
        body::lowered(cx, ts, is_ret, outermost, next, fuel) == (ts, next),
    decreases fuel, 1nat, ts, 0nat,
{
    if fuel > 0 {
        preparing_changes_nothing(cx, ts, is_ret, next, fuel);
        assert forall|k: int| 0 <= k < ts.len() implies !calls::binds_ret(
            cx,
            #[trigger] ts[k],
        ) by {
            assert(settled_stmt(cx, ts[k], is_ret));
        }
        no_ret_let(cx, ts, 0);
        arms_of_all_stay(cx, ts, ts.len(), is_ret, next, fuel);
        assert(ts.take(ts.len() as int) =~= ts);
    }
}

proof fn arms_stay(cx: CxV, t: Tree, is_ret: bool, next: u32, fuel: nat)
    requires
        cx.pure.len() == 0,
        settled_inside(cx, t, is_ret),
    ensures
        body::arms_lowered(cx, t, is_ret, next, fuel) == (t, next),
    decreases fuel, 0nat, t, 0nat,
{
    match t.head {
        Head::Arm => {
            if t.kids.len() > 0 && fuel > 0 {
                let rest = t.kids.skip(1);
                arms_stay(cx, t.kids[0], is_ret, next, fuel);
                assert forall|k: int| 0 <= k < rest.len() implies settled_stmt(
                    cx,
                    #[trigger] rest[k],
                    is_ret,
                ) && settled_inside(cx, rest[k], is_ret) by {
                    assert(rest[k] == t.kids[k + 1]);
                }
                settled_bodies_stay(cx, rest, is_ret, false, next, (fuel - 1) as nat);
                assert(seq![t.kids[0]] + rest =~= t.kids);
            }
        },
        Head::Handler(_) => {
            if fuel > 0 {
                settled_bodies_stay(cx, t.kids, is_ret, false, next, (fuel - 1) as nat);
            }
        },
        h => {
            if tuples::looks_inside(h) {
                arms_of_all_stay(cx, t.kids, t.kids.len(), is_ret, next, fuel);
                assert(t.kids.take(t.kids.len() as int) =~= t.kids);
            }
        },
    }
}

proof fn arms_of_all_stay(cx: CxV, ts: Seq<Tree>, n: nat, is_ret: bool, next: u32, fuel: nat)
    requires
        n <= ts.len(),
        cx.pure.len() == 0,
        forall|k: int| 0 <= k < ts.len() ==> settled_inside(cx, #[trigger] ts[k], is_ret),
    ensures
        body::arms_lowered_all(cx, ts, n, is_ret, next, fuel) == (ts.take(n as int), next),
    decreases fuel, 0nat, ts, n,
{
    if n > 0 {
        arms_of_all_stay(cx, ts, (n - 1) as nat, is_ret, next, fuel);
        arms_stay(cx, ts[n - 1], is_ret, next, fuel);
        assert(ts.take(n - 1).push(ts[n - 1]) =~= ts.take(n as int));
    } else {
        assert(ts.take(0) =~= Seq::empty());
    }
}

// ── programs ───────────────────────────────────────────────────────────────

/// Whether a branch is lowered: its body is settled, and if it returns, its
/// parameters begin with the caller.
pub open spec fn settled_branch(cx: CxV, b: BranchV) -> bool {
    let is_ret = b.head.ret_ty is Some;
    &&& settled_body(cx, b.body, is_ret)
    &&& is_ret ==> program::has_caller(b.head.patterns)
}

/// What lowering knows in a module of a program of which no machine is
/// expanded at its calls.
pub open spec fn plain_context(ms: Seq<ModuleV>, reg: RegistryV, m: ModuleV) -> CxV {
    program::context_of(reg, pure::ret_machines_of(ms, ms.len()), Seq::empty(), m)
}

/// Whether all branches of a module are lowered.
pub open spec fn settled_module(ms: Seq<ModuleV>, reg: RegistryV, m: ModuleV) -> bool {
    program::each_ast_branch(m.ast, |b: BranchV| settled_branch(plain_context(ms, reg, m), b))
}

/// Whether all branches of a program are lowered.
pub open spec fn settled_program(ms: Seq<ModuleV>, reg: RegistryV) -> bool {
    forall|i: int| 0 <= i < ms.len() ==> settled_module(ms, reg, #[trigger] ms[i])
}

proof fn settled_items_stay(
    cx: CxV,
    items: Seq<Spanned<MachineItemV>>,
    n: nat,
    next: u32,
)
    requires
        n <= items.len(),
        cx.pure.len() == 0,
        program::each_item_branch(items, |b: BranchV| settled_branch(cx, b)),
    ensures
        program::lowered_items(cx, items, n, next) == (items.take(n as int), next),
    decreases n,
{
    if n > 0 {
        settled_items_stay(cx, items, (n - 1) as nat, next);
        let item = items[n - 1];
        if let MachineItemV::Branch(b) = item.inner {
            assert(settled_branch(cx, b));
            settled_bodies_stay(
                cx,
                b.body,
                b.head.ret_ty is Some,
                !program::has_caller(b.head.patterns),
                next,
                program::depth(),
            );
            assert(program::lowered_branch(cx, b, next) == (b, next));
        }
        assert(items.take(n - 1).push(item) =~= items.take(n as int));
    } else {
        assert(items.take(0) =~= Seq::empty());
    }
}

proof fn settled_ast_stays(
    cx: CxV,
    path: Seq<Text>,
    ast: Seq<Spanned<ItemV>>,
    n: nat,
    next: u32,
)
    requires
        n <= ast.len(),
        cx.pure.len() == 0,
        program::each_ast_branch(ast, |b: BranchV| settled_branch(cx, b)),
    ensures
        program::lowered_ast(cx, path, ast, n, next) == (ast.take(n as int), next),
    decreases n,
{
    if n > 0 {
        settled_ast_stays(cx, path, ast, (n - 1) as nat, next);
        let item = ast[n - 1];
        if let ItemV::Machine(m) = item.inner {
            settled_items_stay(cx, m.inner.items, m.inner.items.len(), next);
            assert(m.inner.items.take(m.inner.items.len() as int) =~= m.inner.items);
            let key = RetKeyV { module: path, name: m.inner.ident.inner };
            assert(pure::key_lookup(cx.pure, key) is None);
        }
        assert(ast.take(n - 1).push(item) =~= ast.take(n as int));
    } else {
        assert(ast.take(0) =~= Seq::empty());
    }
}

proof fn settled_modules_stay(
    reg: RegistryV,
    ms: Seq<ModuleV>,
    n: nat,
)
    requires
        n <= ms.len(),
        settled_program(ms, reg),
    ensures
        program::lowered_modules(
            reg,
            pure::ret_machines_of(ms, ms.len()),
            Seq::empty(),
            ms,
            n,
            0,
        ) == (ms.take(n as int), 0u32),
    decreases n,
{
    if n > 0 {
        settled_modules_stay(reg, ms, (n - 1) as nat);
        let m = ms[n - 1];
        assert(settled_module(ms, reg, m));
        settled_ast_stays(plain_context(ms, reg, m), m.path, m.ast, m.ast.len(), 0);
        assert(m.ast.take(m.ast.len() as int) =~= m.ast);
        assert(ms.take(n - 1).push(m) =~= ms.take(n as int));
    } else {
        assert(ms.take(0) =~= Seq::empty());
    }
}

/// Whether a branch does not end in a `ret`.
pub open spec fn ends_without_ret(b: BranchV) -> bool {
    b.body.len() == 0 || !(b.body.last().head is Ret)
}

/// A machine whose branches end in no `ret` is not expanded at its calls.
proof fn machine_has_no_template(m: MachineV, consts: Map<Text, Tree>, id: ModuleId)
    requires
        program::each_item_branch(m.items, |b: BranchV| ends_without_ret(b)),
    ensures
        pure::template_of(m, consts, id) is None,
{
    let bs = pure::branches_of(m.items, m.items.len());
    if bs.len() == 1 {
        branches_end_without_ret(m.items, m.items.len());
        assert(ends_without_ret(bs[0]));
    }
}

proof fn branches_end_without_ret(items: Seq<Spanned<MachineItemV>>, n: nat)
    requires
        n <= items.len(),
        program::each_item_branch(items, |b: BranchV| ends_without_ret(b)),
    ensures
        forall|k: int|
            0 <= k < pure::branches_of(items, n).len() ==> ends_without_ret(
                #[trigger] pure::branches_of(items, n)[k],
            ),
    decreases n,
{
    if n > 0 {
        branches_end_without_ret(items, (n - 1) as nat);
        let item = items[n - 1];
        let before = pure::branches_of(items, (n - 1) as nat);
        let all = pure::branches_of(items, n);
        assert forall|k: int| 0 <= k < all.len() implies ends_without_ret(#[trigger] all[k]) by {
            if k < before.len() {
                assert(all[k] == before[k]);
            } else if let MachineItemV::Branch(b) = item.inner {
                assert(ends_without_ret(b));
            }
        }
    }
}

proof fn module_has_no_template(keys: Seq<RetKeyV>, m: ModuleV, id: ModuleId, n: nat)
    requires
        n <= m.ast.len(),
        program::each_ast_branch(m.ast, |b: BranchV| ends_without_ret(b)),
    ensures
        pure::module_templates(Seq::empty(), keys, m, id, n) == Seq::<
            (RetKeyV, TemplateV),
        >::empty(),
    decreases n,
{
    if n > 0 {
        module_has_no_template(keys, m, id, (n - 1) as nat);
        if let ItemV::Machine(mach) = m.ast[n - 1].inner {
            machine_has_no_template(mach.inner, pure::module_consts(m.ast, m.ast.len()), id);
        }
    }
}

/// In a program whose branches end in no `ret` no machine is expanded at its
/// calls.
pub proof fn program_has_no_template(
    ms: Seq<ModuleV>,
    keys: Seq<RetKeyV>,
    reg: RegistryV,
    n: nat,
)
    requires
        n <= ms.len(),
        program::each_branch(ms, |b: BranchV| ends_without_ret(b)),
    ensures
        pure::templates_of(ms, keys, reg, n) == Seq::<(RetKeyV, TemplateV)>::empty(),
    decreases n,
{
    if n > 0 {
        program_has_no_template(ms, keys, reg, (n - 1) as nat);
        let m = ms[n - 1];
        module_has_no_template(keys, m, reg.id_for_path(m.path)->0, m.ast.len());
    }
}

proof fn settled_branches_end_without_ret(ms: Seq<ModuleV>, reg: RegistryV)
    requires
        settled_program(ms, reg),
    ensures
        program::each_branch(ms, |b: BranchV| ends_without_ret(b)),
{
    let good = |b: BranchV| ends_without_ret(b);
    assert forall|i: int| 0 <= i < ms.len() implies program::each_ast_branch(
        (#[trigger] ms[i]).ast,
        good,
    ) by {
        let m = ms[i];
        assert(settled_module(ms, reg, m));
        let cx = plain_context(ms, reg, m);
        assert forall|j: int| 0 <= j < m.ast.len() implies match (#[trigger] m.ast[j]).inner {
            ItemV::Machine(mach) => program::each_item_branch(mach.inner.items, good),
            _ => true,
        } by {
            if let ItemV::Machine(mach) = m.ast[j].inner {
                let items = mach.inner.items;
                assert(program::each_item_branch(items, |b: BranchV| settled_branch(cx, b)));
                assert forall|k: int| 0 <= k < items.len() implies match (
                #[trigger] items[k]).inner {
                    MachineItemV::Branch(b) => good(b),
                    MachineItemV::Field(_) => true,
                } by {
                    if let MachineItemV::Branch(b) = items[k].inner {
                        assert(settled_branch(cx, b));
                        if b.body.len() > 0 {
                            let last = b.body[b.body.len() - 1];
                            assert(settled_stmt(cx, last, b.head.ret_ty is Some));
                            inspect::holds_iff(
                                calm(cx.reg, cx.id, b.head.ret_ty is Some),
                                last,
                            );
                        }
                    }
                }
            }
        }
    }
}

/// A pass over a program that is lowered already changes nothing.
proof fn settled_programs_pass(ms: Seq<ModuleV>, reg: RegistryV, inline_pure: bool)
    requires
        settled_program(ms, reg),
    ensures
        program::passed(ms, reg, inline_pure, 0).0 == ms,
{
    let keys = pure::pure_machines(ms, pure::ret_machines_of(ms, ms.len()));
    settled_branches_end_without_ret(ms, reg);
    program_has_no_template(ms, keys, reg, ms.len());
    settled_modules_stay(reg, ms, ms.len());
    assert(ms.take(ms.len() as int) =~= ms);
}

/// Lowering a program that is lowered already changes nothing.
pub proof fn settled_programs_stay(ms: Seq<ModuleV>, reg: RegistryV, inline_pure: bool)
    requires
        settled_program(ms, reg),
    ensures
        program::lowered_program(ms, reg, inline_pure) == ms,
{
    settled_programs_pass(ms, reg, inline_pure);
}

// ── the same names ─────────────────────────────────────────────────────────

/// Whether two registries answer alike what lowering asks: where paths lead,
/// which names are constants, and what the modules are and import.
pub open spec fn answer_alike(a: RegistryV, b: RegistryV) -> bool {
    &&& forall|id: ModuleId, segs: Seq<Text>|
        a.has(id) ==> #[trigger] a.path_target(id, segs) == b.path_target(id, segs)
    &&& forall|id: ModuleId, name: Text|
        a.has(id) ==> ((#[trigger] a.resolved(id, name)) matches Some(ResolutionV::Const(_))) == (b.resolved(
            id,
            name,
        ) matches Some(ResolutionV::Const(_)))
    &&& a.modules.len() == b.modules.len()
    &&& forall|i: int|
        0 <= i < a.modules.len() ==> (#[trigger] a.modules[i]).path == b.modules[i].path
            && a.modules[i].imports == b.modules[i].imports
}

proof fn index_is_the_same(a: RegistryV, b: RegistryV, path: Seq<Text>, from: int)
    requires
        answer_alike(a, b),
        from >= 0,
    ensures
        a.index_of_path(path, from) == b.index_of_path(path, from),
    decreases a.modules.len() - from,
{
    if from < a.modules.len() {
        assert(a.modules[from].path == b.modules[from].path);
        index_is_the_same(a, b, path, from + 1);
    }
}

proof fn calm_is_the_same(a: RegistryV, b: RegistryV, id: ModuleId, is_ret: bool, t: Tree)
    requires
        answer_alike(a, b),
        a.has(id),
    ensures
        inspect::holds(calm(a, id, is_ret), t) == inspect::holds(calm(b, id, is_ret), t),
    decreases t,
{
    let p = calm(a, id, is_ret);
    let q = calm(b, id, is_ret);
    inspect::holds_iff(p, t);
    inspect::holds_iff(q, t);
    assert forall|i: int| 0 <= i < t.kids.len() implies #[trigger] inspect::holds(p, t.kids[i])
        == inspect::holds(q, t.kids[i]) by {
        assert(decreases_to!(t => t.kids[i]));
        calm_is_the_same(a, b, id, is_ret, t.kids[i]);
    }
    assert((p.local)(t) == (q.local)(t)) by {
        if let Head::Var(name, _) = t.head {
            assert((a.resolved(id, name) matches Some(ResolutionV::Const(_))) == (b.resolved(
                id,
                name,
            ) matches Some(ResolutionV::Const(_))));
        }
        if let Head::Path(segs) = t.head {
            let texts = registry::segment_texts(segs);
            assert(a.path_target(id, texts) == b.path_target(id, texts));
        }
    }
    assert forall|i: int| 0 <= i < t.kids.len() implies inspect::covered(p, t.head, i)
        == inspect::covered(q, t.head, i) by {}
    if inspect::holds(p, t) {
        assert forall|i: int|
            0 <= i < t.kids.len() && inspect::covered(q, t.head, i) implies #[trigger]
        inspect::holds(q, t.kids[i]) by {
            assert(inspect::covered(p, t.head, i));
            assert(inspect::holds(p, t.kids[i]));
        }
    }
    if inspect::holds(q, t) {
        assert forall|i: int|
            0 <= i < t.kids.len() && inspect::covered(p, t.head, i) implies #[trigger]
        inspect::holds(p, t.kids[i]) by {
            assert(inspect::covered(q, t.head, i));
            assert(inspect::holds(q, t.kids[i]));
        }
    }
}

/// The context with another registry.
spec fn asking(cx: CxV, reg: RegistryV) -> CxV {
    CxV { reg, ..cx }
}

proof fn ret_is_the_same(cx: CxV, b: RegistryV, t: Tree)
    requires
        answer_alike(cx.reg, b),
        cx.reg.wf(),
        cx.reg.has(cx.id),
    ensures
        calls::ret_of(asking(cx, b), t) == calls::ret_of(cx, t),
{
    let a = cx.reg;
    let cb = asking(cx, b);
    if t.head is Jump && t.kids.len() > 0 {
        match t.kids[0].head {
            Head::Var(name, _) => {
                assert(a.scope(cx.id).path == b.scope(cx.id).path);
                assert(a.scope(cx.id).imports == b.scope(cx.id).imports);
                assert forall|bind: ImportBindingV| calls::import_ret(cb, bind)
                    == #[trigger] calls::import_ret(cx, bind) by {
                    if a.has(bind.target_module) {
                        assert(a.modules[bind.target_module.0 as int].path
                            == b.modules[bind.target_module.0 as int].path);
                    }
                }
            },
            Head::Path(segs) => {
                let texts = registry::segment_texts(segs);
                assert(a.path_target(cx.id, texts) == b.path_target(cx.id, texts));
                calls::path_target_exists(a, cx.id, texts);
            },
            _ => {},
        }
    }
}

proof fn stmt_is_the_same(cx: CxV, b: RegistryV, t: Tree, is_ret: bool)
    requires
        answer_alike(cx.reg, b),
        cx.reg.wf(),
        cx.reg.has(cx.id),
        settled_stmt(cx, t, is_ret),
    ensures
        settled_stmt(asking(cx, b), t, is_ret),
{
    calm_is_the_same(cx.reg, b, cx.id, is_ret, t);
    ret_is_the_same(cx, b, t);
    if t.kids.len() > 0 {
        ret_is_the_same(cx, b, t.kids[0]);
    }
}

proof fn inside_is_the_same(cx: CxV, b: RegistryV, t: Tree, is_ret: bool)
    requires
        answer_alike(cx.reg, b),
        cx.reg.wf(),
        cx.reg.has(cx.id),
        settled_inside(cx, t, is_ret),
    ensures
        settled_inside(asking(cx, b), t, is_ret),
    decreases t,
{
    assert forall|k: int| 0 <= k < t.kids.len() implies (settled_inside(
        cx,
        #[trigger] t.kids[k],
        is_ret,
    ) ==> settled_inside(asking(cx, b), t.kids[k], is_ret)) && (settled_stmt(cx, t.kids[k], is_ret)
        ==> settled_stmt(asking(cx, b), t.kids[k], is_ret)) by {
        assert(decreases_to!(t => t.kids[k]));
        if settled_inside(cx, t.kids[k], is_ret) {
            inside_is_the_same(cx, b, t.kids[k], is_ret);
        }
        if settled_stmt(cx, t.kids[k], is_ret) {
            stmt_is_the_same(cx, b, t.kids[k], is_ret);
        }
    }
}

proof fn branch_is_the_same(cx: CxV, b: RegistryV, branch: BranchV)
    requires
        answer_alike(cx.reg, b),
        cx.reg.wf(),
        cx.reg.has(cx.id),
        settled_branch(cx, branch),
    ensures
        settled_branch(asking(cx, b), branch),
{
    let is_ret = branch.head.ret_ty is Some;
    let ts = branch.body;
    assert forall|k: int| 0 <= k < ts.len() implies settled_stmt(
        asking(cx, b),
        #[trigger] ts[k],
        is_ret,
    ) && settled_inside(asking(cx, b), ts[k], is_ret) by {
        stmt_is_the_same(cx, b, ts[k], is_ret);
        inside_is_the_same(cx, b, ts[k], is_ret);
    }
}

/// A program that is settled to one registry is settled to every registry
/// that answers alike.
pub proof fn settled_to_alike(ms: Seq<ModuleV>, reg: RegistryV, again: RegistryV)
    requires
        reg.wf(),
        pure::all_registered(ms, reg),
        answer_alike(reg, again),
        settled_program(ms, reg),
    ensures
        settled_program(ms, again),
{
    assert forall|i: int| 0 <= i < ms.len() implies settled_module(ms, again, #[trigger] ms[i]) by {
        let m = ms[i];
        assert(settled_module(ms, reg, m));
        index_is_the_same(reg, again, m.path, 0);
        registry::index_of_path_bounds(reg, m.path, 0);
        assert(reg.id_for_path(m.path) is Some);
        let cx = plain_context(ms, reg, m);
        assert(asking(cx, again) == plain_context(ms, again, m));
        let good = |b: BranchV| settled_branch(cx, b);
        let other = |b: BranchV| settled_branch(plain_context(ms, again, m), b);
        assert forall|b: BranchV| good(b) implies #[trigger] other(b) by {
            branch_is_the_same(cx, again, b);
        }
        assert forall|j: int| 0 <= j < m.ast.len() implies match (#[trigger] m.ast[j]).inner {
            ItemV::Machine(mach) => program::each_item_branch(mach.inner.items, other),
            _ => true,
        } by {
            if let ItemV::Machine(mach) = m.ast[j].inner {
                assert(program::each_item_branch(mach.inner.items, good));
                let items = mach.inner.items;
                assert forall|k: int| 0 <= k < items.len() implies match (
                #[trigger] items[k]).inner {
                    MachineItemV::Branch(b) => other(b),
                    MachineItemV::Field(_) => true,
                } by {
                    if let MachineItemV::Branch(b) = items[k].inner {
                        assert(good(b));
                        assert(other(b));
                    }
                }
            }
        }
    }
}

proof fn rest_is_settled(
    ms: Seq<ModuleV>,
    reg: RegistryV,
    inline_pure: bool,
    next: u32,
    rounds: nat,
)
    requires
        program::rests(ms, reg, inline_pure, next, rounds),
    ensures
        settled_program(program::repeated(ms, reg, inline_pure, next, rounds), reg),
    decreases rounds,
{
    let (q, c) = program::passed(ms, reg, inline_pure, next);
    if !settled_program(q, reg) && rounds > 0 {
        rest_is_settled(q, reg, inline_pure, c, (rounds - 1) as nat);
    }
}

/// Lowering twice is lowering once: on what the passes bring to rest, a
/// second run changes nothing.  The registry may have been filled anew from
/// the lowered program, as long as it gives the same answers.  A program need
/// not come to rest where a constant is called `__caller`: it would take the
/// place of the caller, so that there is one pass only.  Which programs come
/// to rest is said by `bound::lowering_comes_to_rest`, and which registries
/// give the same answers by `renewal::lowering_with_a_new_registry`.
pub proof fn lowering_twice_is_once(
    ms: Seq<ModuleV>,
    reg: RegistryV,
    again: RegistryV,
    inline_pure: bool,
)
    requires
        reg.wf(),
        pure::all_registered(ms, reg),
        program::rests(ms, reg, inline_pure, 0, program::rounds(ms, reg)),
        answer_alike(reg, again),
    ensures
        program::lowered_program(
            program::lowered_program(ms, reg, inline_pure),
            again,
            inline_pure,
        ) == program::lowered_program(ms, reg, inline_pure),
{
    let q = program::lowered_program(ms, reg, inline_pure);
    rest_is_settled(ms, reg, inline_pure, 0, program::rounds(ms, reg));
    program::lowering_keeps_modules(ms, reg, inline_pure);
    assert forall|i: int| 0 <= i < q.len() implies reg.id_for_path((#[trigger] q[i]).path) is Some by {
        assert(reg.id_for_path(ms[i].path) is Some);
    }
    settled_to_alike(q, reg, again);
    settled_programs_stay(q, again, inline_pure);
}

} // verus!
