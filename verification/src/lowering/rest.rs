//! Lowering comes to rest.

use vstd::prelude::*;

use crate::api::expr::{Head, Tree};
use crate::inspect;
use crate::lowering::body;
use crate::lowering::calls;
use crate::lowering::expand::CxV;
use crate::lowering::lift;
use crate::lowering::lift::{Lifted, Mode};
use crate::lowering::passes;
use crate::lowering::pure;
use crate::lowering::ret_free;
use crate::lowering::settled;
use crate::lowering::steady;
use crate::lowering::synth;
use crate::lowering::tail;
use crate::lowering::tuples;
use crate::rewrite;
use crate::rewrite::Rule;
use crate::span::SimpleSpan;
use crate::text::Text;

verus! {

// ── deep enough ────────────────────────────────────────────────────────────

/// Whether lowering a body `fuel` deep reaches all bodies inside it.
pub open spec fn reaches(
    cx: CxV,
    body: Seq<Tree>,
    is_ret: bool,
    outermost: bool,
    next: u32,
    fuel: nat,
) -> bool
    decreases fuel, 1nat, body, 0nat,
{
    fuel > 0 && {
        let (b, c) = body::prepared(cx, body, is_ret, next, fuel);
        let i = body::first_ret_let(cx, b, 0);
        let (b2, c2) = if 0 <= i < b.len() {
            let (rest, c2) = body::lowered(
                cx,
                b.skip(i + 1),
                is_ret,
                true,
                lift::succ(c),
                (fuel - 1) as nat,
            );
            (
                b.take(i) + calls::awaited(b[i], calls::ret_of(cx, b[i].kids[0])->0, rest, c),
                c2,
            )
        } else {
            (b, c)
        };
        let (b3, c3) = if is_ret && outermost {
            let l = lift::lifted_body(body::sent(b2), body::sent(b2).len(), c2);
            (l.lifts, l.next)
        } else {
            (b2, c2)
        };
        &&& 0 <= i < b.len() ==> reaches(
            cx,
            b.skip(i + 1),
            is_ret,
            true,
            lift::succ(c),
            (fuel - 1) as nat,
        )
        &&& arms_reach_all(cx, b3, b3.len(), is_ret, c3, fuel)
    }
}

/// [`reaches`] of the bodies inside `t`.
pub open spec fn arms_reach(cx: CxV, t: Tree, is_ret: bool, next: u32, fuel: nat) -> bool
    decreases fuel, 0nat, t, 0nat,
{
    match t.head {
        Head::Arm => t.kids.len() > 0 ==> fuel > 0 && arms_reach(
            cx,
            t.kids[0],
            is_ret,
            next,
            fuel,
        ) && reaches(
            cx,
            t.kids.skip(1),
            is_ret,
            false,
            body::arms_lowered(cx, t.kids[0], is_ret, next, fuel).1,
            (fuel - 1) as nat,
        ),
        Head::Handler(_) => fuel > 0 && reaches(
            cx,
            t.kids,
            is_ret,
            false,
            next,
            (fuel - 1) as nat,
        ),
        h => tuples::looks_inside(h) ==> arms_reach_all(
            cx,
            t.kids,
            t.kids.len(),
            is_ret,
            next,
            fuel,
        ),
    }
}

/// [`arms_reach`] of the first `n` trees.
pub open spec fn arms_reach_all(
    cx: CxV,
    ts: Seq<Tree>,
    n: nat,
    is_ret: bool,
    next: u32,
    fuel: nat,
) -> bool
    decreases fuel, 0nat, ts, n,
{
    n == 0 || n > ts.len() || (arms_reach_all(cx, ts, (n - 1) as nat, is_ret, next, fuel)
        && arms_reach(
        cx,
        ts[n - 1],
        is_ret,
        body::arms_lowered_all(cx, ts, (n - 1) as nat, is_ret, next, fuel).1,
        fuel,
    ))
}

// ── statements ─────────────────────────────────────────────────────────────

/// Whether a statement is neither a tuple binding nor a `when` to split.
spec fn is_plain(t: Tree) -> bool {
    !(t.head is LetTuple) && !settled::has_tuple_arm(t)
}

spec fn all_plain(ts: Seq<Tree>) -> bool {
    forall|i: int| 0 <= i < ts.len() ==> is_plain(#[trigger] ts[i])
}

/// Whether a statement is prepared.
spec fn is_ready(cx: CxV, is_ret: bool, t: Tree) -> bool {
    &&& steady::is_steady(cx, is_ret, t)
    &&& is_plain(t)
    &&& lift::flat(t)
    &&& !(t.head is Pin)
    &&& !(t.head is Jump && calls::ret_of(cx, t) is Some)
}

spec fn all_ready(cx: CxV, is_ret: bool, ts: Seq<Tree>) -> bool {
    forall|i: int| 0 <= i < ts.len() ==> is_ready(cx, is_ret, #[trigger] ts[i])
}

/// Whether a statement is prepared and binds no value of a ret-machine.
spec fn is_quiet(cx: CxV, is_ret: bool, t: Tree) -> bool {
    is_ready(cx, is_ret, t) && !calls::binds_ret(cx, t)
}

spec fn all_quiet(cx: CxV, is_ret: bool, ts: Seq<Tree>) -> bool {
    forall|i: int| 0 <= i < ts.len() ==> is_quiet(cx, is_ret, #[trigger] ts[i])
}

/// Whether two arms have patterns of one shape.
spec fn like_arms(a: Tree, b: Tree) -> bool {
    &&& (a.head is Arm) == (b.head is Arm)
    &&& a.head is Arm ==> (a.kids.len() > 0) == (b.kids.len() > 0) && (a.kids.len() > 0 ==> (
    a.kids[0].head is Tuple) == (b.kids[0].head is Tuple) && (a.kids[0].head is Tuple
        ==> a.kids[0].kids.len() == b.kids[0].kids.len()))
}

proof fn same_arity(a: Seq<Tree>, b: Seq<Tree>, from: int)
    requires
        a.len() == b.len(),
        0 <= from,
        forall|i: int| 0 <= i < a.len() ==> like_arms(#[trigger] a[i], b[i]),
    ensures
        tuples::tuple_arity(a, from) == tuples::tuple_arity(b, from),
    decreases a.len() - from,
{
    if from < a.len() {
        assert(like_arms(a[from], b[from]));
        same_arity(a, b, from + 1);
    }
}

/// A `when` whose patterns keep their shape, and whose subject stays split,
/// stays plain.
proof fn when_stays_plain(a: Tree, b: Tree)
    requires
        is_plain(a),
        a.head == b.head,
        a.head is When ==> a.kids.len() == b.kids.len() && (a.kids.len() > 0 ==> tuples::is_split(
            a.kids[0],
        ) ==> tuples::is_split(b.kids[0])) && forall|i: int|
            1 <= i < a.kids.len() ==> like_arms(#[trigger] a.kids[i], b.kids[i]),
    ensures
        is_plain(b),
{
    if a.head is When && a.kids.len() > 0 {
        let x = a.kids.skip(1);
        let y = b.kids.skip(1);
        assert forall|i: int| 0 <= i < x.len() implies like_arms(#[trigger] x[i], y[i]) by {
            assert(like_arms(a.kids[i + 1], b.kids[i + 1]));
        }
        same_arity(x, y, 0);
    }
}

// ── splitting ──────────────────────────────────────────────────────────────

proof fn bound_subject_is_split(next: u32, span: SimpleSpan)
    ensures
        tuples::is_split(synth::slot_of(synth::numbered("__wtp_"@, next), 0, span)),
{
    let name = synth::numbered("__wtp_"@, next);
    assert(name.take("__wtp_"@.len() as int) =~= "__wtp_"@);
}

proof fn splitting_makes_plain(cx: CxV, ts: Seq<Tree>, n: nat, next: u32)
    requires
        steady::names_are_free(cx),
        steady::all_steady(cx, false, ts),
        n <= ts.len(),
        forall|i: int| 0 <= i < ts.len() ==> !((#[trigger] ts[i]).head is LetTuple),
    ensures
        all_plain(tuples::split_all(ts, n, next).0),
    decreases n,
{
    if n > 0 {
        splitting_makes_plain(cx, ts, (n - 1) as nat, next);
        let (before, c) = tuples::split_all(ts, (n - 1) as nat, next);
        let t = ts[n - 1];
        assert(steady::is_steady(cx, false, t));
        steady::splitting_inside_keeps_steady(cx, t, c);
        let (t2, c2) = tuples::split_in(t, c);
        let these = tuples::split_stmt(t, c).0;
        if t2.head is When && t2.kids.len() > 0 {
            bound_subject_is_split(c2, t2.span);
            let name = synth::numbered("__wtp_"@, c2);
            if tuples::split_arity(t2.kids[0], t2.kids.skip(1)) > 0 {
                assert(these[1].kids[0] == synth::slot_of(name, 0, t2.span));
            }
        }
        assert forall|i: int| 0 <= i < these.len() implies is_plain(#[trigger] these[i]) by {}
        let all = tuples::split_all(ts, n, next).0;
        assert forall|i: int| 0 <= i < all.len() implies is_plain(#[trigger] all[i]) by {
            if i < before.len() {
                assert(all[i] == before[i]);
            } else {
                assert(all[i] == these[i - before.len()]);
            }
        }
    }
}

// ── the caller and returns ─────────────────────────────────────────────────

/// Whether a pass enters everything and changes nothing but calls and
/// returns, into calls.
spec fn is_mild(p: Rule) -> bool {
    &&& forall|head: Head, i: int| rewrite::entered(p, head, i)
    &&& forall|t: Tree|
        (#[trigger] (p.at)(t)) == t || ((t.head is Jump || t.head is Ret) && (p.at)(t).head is Jump)
}

proof fn mild_head(p: Rule, t: Tree)
    requires
        is_mild(p),
    ensures
        !(t.head is Jump) && !(t.head is Ret) ==> rewrite::rewritten(p, t).head == t.head
            && rewrite::rewritten(p, t).kids.len() == t.kids.len() && forall|i: int|
            0 <= i < t.kids.len() ==> #[trigger] rewrite::rewritten(p, t).kids[i]
                == rewrite::rewritten(p, t.kids[i]),
        t.head is Jump || t.head is Ret ==> rewrite::rewritten(p, t).head is Jump
            || rewrite::rewritten(p, t).head is Ret,
{
    let t2 = Tree { kids: rewrite::rewritten_kids(p, t.head, t.kids), ..t };
    assert((p.at)(t2) == t2 || (p.at)(t2).head is Jump);
}

proof fn mild_keeps_plain(p: Rule, t: Tree)
    requires
        is_mild(p),
        is_plain(t),
    ensures
        is_plain(rewrite::rewritten(p, t)),
{
    let r = rewrite::rewritten(p, t);
    mild_head(p, t);
    if t.head is When {
        if t.kids.len() > 0 && tuples::is_split(t.kids[0]) {
            let s = t.kids[0];
            mild_head(p, s);
            mild_head(p, s.kids[0]);
            assert(r.kids[0] == rewrite::rewritten(p, s));
            assert(r.kids[0].kids[0] == rewrite::rewritten(p, s.kids[0]));
        }
        assert forall|i: int| 1 <= i < t.kids.len() implies like_arms(
            #[trigger] t.kids[i],
            r.kids[i],
        ) by {
            assert(r.kids[i] == rewrite::rewritten(p, t.kids[i]));
            mild_head(p, t.kids[i]);
            if t.kids[i].head is Arm && t.kids[i].kids.len() > 0 {
                let pat = t.kids[i].kids[0];
                mild_head(p, pat);
                assert(r.kids[i].kids[0] == rewrite::rewritten(p, pat));
            }
        }
        when_stays_plain(t, r);
    }
}

proof fn mild_keeps_all_plain(p: Rule, ts: Seq<Tree>)
    requires
        is_mild(p),
        all_plain(ts),
    ensures
        all_plain(rewrite::rewritten_all(p, ts)),
{
    let out = rewrite::rewritten_all(p, ts);
    assert forall|i: int| 0 <= i < out.len() implies is_plain(#[trigger] out[i]) by {
        assert(is_plain(ts[i]));
        mild_keeps_plain(p, ts[i]);
    }
}

proof fn calls_and_returns_are_mild()
    ensures
        is_mild(passes::thread_rule()),
        is_mild(passes::ret_rule()),
{
    let p = passes::thread_rule();
    assert forall|t: Tree| (#[trigger] (p.at)(t)) == t || ((t.head is Jump || t.head is Ret) && (
    p.at)(t).head is Jump) by {}
    let q = passes::ret_rule();
    assert forall|t: Tree| (#[trigger] (q.at)(t)) == t || ((t.head is Jump || t.head is Ret) && (
    q.at)(t).head is Jump) by {}
}

// ── lifting ────────────────────────────────────────────────────────────────

/// The parts of a `when` and what is lifted out of its subject.
proof fn lifting_a_when(ts: Seq<Tree>, n: nat, st: Lifted)
    requires
        1 <= n <= ts.len(),
    ensures
        lift::lifted_kids(Head::When, ts, n, st).0.len() == n,
        lift::lifted_kids(Head::When, ts, n, st).0[0] == lift::lifted(ts[0], st).0,
        forall|i: int|
            1 <= i < n ==> (#[trigger] lift::lifted_kids(Head::When, ts, n, st).0[i]) == ts[i],
    decreases n,
{
    reveal_with_fuel(lift::lifted_kids, 2);
    if n > 1 {
        lifting_a_when(ts, (n - 1) as nat, st);
        let before = lift::lifted_kids(Head::When, ts, (n - 1) as nat, st).0;
        let all = lift::lifted_kids(Head::When, ts, n, st).0;
        assert forall|i: int| 1 <= i < n implies (#[trigger] all[i]) == ts[i] by {
            if i < n - 1 {
                assert(all[i] == before[i]);
            }
        }
        assert(all[0] == before[0]);
    }
}

proof fn split_subject_is_flat(t: Tree)
    requires
        tuples::is_split(t),
    ensures
        lift::flat(t),
{
    let v = t.kids[0];
    inspect_var_is_flat(v);
    assert forall|i: int| 0 <= i < t.kids.len() implies match lift::mode(t.head, i) {
        Mode::Keep => true,
        Mode::Inside => lift::flat(#[trigger] t.kids[i]),
        Mode::Value => !(t.kids[i].head is Jump) && lift::flat(t.kids[i]),
        Mode::Leaf => lift::is_leaf(t.kids[i]),
    } by {
        assert(t.kids[i] == v);
    }
}

proof fn inspect_var_is_flat(t: Tree)
    requires
        t.head is Var,
    ensures
        lift::flat(t),
{
    assert forall|i: int| 0 <= i < t.kids.len() implies match lift::mode(t.head, i) {
        Mode::Keep => true,
        Mode::Inside => lift::flat(#[trigger] t.kids[i]),
        Mode::Value => !(t.kids[i].head is Jump) && lift::flat(t.kids[i]),
        Mode::Leaf => lift::is_leaf(t.kids[i]),
    } by {}
}

proof fn lifting_keeps_plain(t: Tree, st: Lifted)
    requires
        is_plain(t),
    ensures
        is_plain(lift::lifted(t, st).0),
{
    let r = lift::lifted(t, st).0;
    if t.head is When && t.kids.len() > 0 {
        lifting_a_when(t.kids, t.kids.len(), st);
        if tuples::is_split(t.kids[0]) {
            split_subject_is_flat(t.kids[0]);
            settled::flat_stays(t.kids[0], st);
        }
        assert forall|i: int| 1 <= i < t.kids.len() implies like_arms(
            #[trigger] t.kids[i],
            r.kids[i],
        ) by {
            assert(r.kids[i] == t.kids[i]);
        }
        when_stays_plain(t, r);
    }
}

/// What is lifted is a list of `let`s.
spec fn are_lets(ts: Seq<Tree>) -> bool {
    forall|i: int| 0 <= i < ts.len() ==> (#[trigger] ts[i]).head is Let
}

/// Whether `b` is `a` with `let`s behind it.
spec fn adds_lets(a: Seq<Tree>, b: Seq<Tree>) -> bool {
    a.len() <= b.len() && (forall|i: int| 0 <= i < a.len() ==> #[trigger] b[i] == a[i]) && forall|
        i: int,
    |
        a.len() <= i < b.len() ==> (#[trigger] b[i]).head is Let
}

proof fn lifting_adds_lets(t: Tree, st: Lifted)
    ensures
        adds_lets(st.lifts, lift::lifted(t, st).1.lifts),
    decreases t, 0nat,
{
    lifting_kids_adds_lets(t.head, t.kids, t.kids.len(), st);
}

proof fn lifting_kids_adds_lets(head: Head, ts: Seq<Tree>, n: nat, st: Lifted)
    requires
        n <= ts.len(),
    ensures
        adds_lets(st.lifts, lift::lifted_kids(head, ts, n, st).1.lifts),
    decreases ts, n,
{
    if n > 0 {
        lifting_kids_adds_lets(head, ts, (n - 1) as nat, st);
        let (ks, s1) = lift::lifted_kids(head, ts, (n - 1) as nat, st);
        lifting_adds_lets(ts[n - 1], s1);
        let (r, s) = lift::lifted(ts[n - 1], s1);
        let last = lift::lifted_kids(head, ts, n, st).1.lifts;
        assert forall|i: int| 0 <= i < st.lifts.len() implies #[trigger] last[i] == st.lifts[i] by {
            assert(s1.lifts[i] == st.lifts[i]);
            assert(s.lifts[i] == s1.lifts[i]);
        }
        assert forall|i: int| st.lifts.len() <= i < last.len() implies (
        #[trigger] last[i]).head is Let by {
            if i < s1.lifts.len() {
                assert(s.lifts[i] == s1.lifts[i]);
            } else if i < s.lifts.len() {
                assert(s.lifts[i].head is Let);
            }
        }
    }
}

proof fn lifting_bodies_keeps_plain(ts: Seq<Tree>, n: nat, next: u32)
    requires
        n <= ts.len(),
        all_plain(ts),
    ensures
        all_plain(lift::lifted_body(ts, n, next).lifts),
    decreases n,
{
    if n > 0 {
        lifting_bodies_keeps_plain(ts, (n - 1) as nat, next);
        let st = lift::lifted_body(ts, (n - 1) as nat, next);
        let (t, s) = lift::lifted(ts[n - 1], st);
        assert(is_plain(ts[n - 1]));
        lifting_keeps_plain(ts[n - 1], st);
        lifting_adds_lets(ts[n - 1], st);
        let all = lift::lifted_body(ts, n, next).lifts;
        assert forall|i: int| 0 <= i < all.len() implies is_plain(#[trigger] all[i]) by {
            if i < st.lifts.len() {
                assert(s.lifts[i] == st.lifts[i]);
                assert(is_plain(st.lifts[i]));
            } else if i < s.lifts.len() {
                assert(s.lifts[i].head is Let);
            }
        }
    }
}

// ── bindings ───────────────────────────────────────────────────────────────

proof fn let_is_flat(t: Tree)
    requires
        t.head is Let,
        t.kids.len() == 1,
        lift::flat(t.kids[0]),
    ensures
        lift::flat(t),
{
    assert forall|i: int| 0 <= i < t.kids.len() implies match lift::mode(t.head, i) {
        Mode::Keep => true,
        Mode::Inside => lift::flat(#[trigger] t.kids[i]),
        Mode::Value => !(t.kids[i].head is Jump) && lift::flat(t.kids[i]),
        Mode::Leaf => lift::is_leaf(t.kids[i]),
    } by {
        assert(i == 0);
    }
}

proof fn pinning_makes_ready(cx: CxV, is_ret: bool, ts: Seq<Tree>, n: nat, next: u32)
    requires
        n <= ts.len(),
        steady::all_steady(cx, is_ret, ts),
        all_plain(ts),
        lift::all_flat(ts),
    ensures
        ({
            let out = calls::pinned_all(ts, n, next).0;
            &&& steady::all_steady(cx, is_ret, out)
            &&& all_plain(out)
            &&& lift::all_flat(out)
            &&& forall|i: int| 0 <= i < out.len() ==> !((#[trigger] out[i]).head is Pin)
        }),
    decreases n,
{
    if n > 0 {
        pinning_makes_ready(cx, is_ret, ts, (n - 1) as nat, next);
        let (before, c) = calls::pinned_all(ts, (n - 1) as nat, next);
        let t = ts[n - 1];
        assert(steady::is_steady(cx, is_ret, t) && is_plain(t) && lift::flat(t));
        steady::pinning_keeps_steady(cx, is_ret, t, c);
        let r = calls::pinned(t, c).0;
        if t.head is Pin {
            if t.kids.len() > 0 {
                assert(lift::mode(t.head, 0) is Inside);
                assert(lift::flat(t.kids[0]));
            } else {
                unit_is_flat(synth::operand(t));
            }
            let_is_flat(r);
        }
        let out = calls::pinned_all(ts, n, next).0;
        assert forall|i: int| 0 <= i < out.len() implies steady::is_steady(
            cx,
            is_ret,
            #[trigger] out[i],
        ) && is_plain(out[i]) && lift::flat(out[i]) && !(out[i].head is Pin) by {
            if i < before.len() {
                assert(out[i] == before[i]);
                assert(is_plain(before[i]) && lift::flat(before[i]));
            }
        }
    }
}

proof fn unit_is_flat(t: Tree)
    requires
        t.kids.len() == 0,
    ensures
        lift::flat(t),
{
    assert forall|i: int| 0 <= i < t.kids.len() implies match lift::mode(t.head, i) {
        Mode::Keep => true,
        Mode::Inside => lift::flat(#[trigger] t.kids[i]),
        Mode::Value => !(t.kids[i].head is Jump) && lift::flat(t.kids[i]),
        Mode::Leaf => lift::is_leaf(t.kids[i]),
    } by {}
}

proof fn discarding_makes_ready(cx: CxV, is_ret: bool, ts: Seq<Tree>, n: nat, next: u32)
    requires
        n <= ts.len(),
        steady::all_steady(cx, is_ret, ts),
        all_plain(ts),
        lift::all_flat(ts),
        forall|i: int| 0 <= i < ts.len() ==> !((#[trigger] ts[i]).head is Pin),
    ensures
        all_ready(cx, is_ret, calls::discarded_all(cx, ts, n, next).0),
    decreases n,
{
    if n > 0 {
        discarding_makes_ready(cx, is_ret, ts, (n - 1) as nat, next);
        let (before, c) = calls::discarded_all(cx, ts, (n - 1) as nat, next);
        let t = ts[n - 1];
        assert(steady::is_steady(cx, is_ret, t) && is_plain(t) && lift::flat(t));
        steady::discarding_keeps_steady(cx, is_ret, t, c);
        let r = calls::discarded(cx, t, c).0;
        if r != t {
            let_is_flat(r);
        }
        assert(is_ready(cx, is_ret, r));
        let out = calls::discarded_all(cx, ts, n, next).0;
        assert forall|i: int| 0 <= i < out.len() implies is_ready(cx, is_ret, #[trigger] out[i]) by {
            if i < before.len() {
                assert(out[i] == before[i]);
            }
        }
    }
}

/// What is prepared is ready.
proof fn preparing_makes_ready(cx: CxV, ts: Seq<Tree>, is_ret: bool, next: u32, fuel: nat)
    requires
        cx.pure.len() == 0,
        steady::names_are_free(cx),
    ensures
        all_ready(cx, is_ret, body::prepared(cx, ts, is_ret, next, fuel).0),
{
    let b1 = rewrite::rewritten_all(passes::paths_rule(cx.reg, cx.id), ts);
    let b2 = rewrite::rewritten_all(passes::inline_rule(cx.reg, cx.id), b1);
    steady::resolved_bodies_are_steady(cx, ts);
    let (b3, c3) = tuples::expanded_body(b2, b2.len(), next);
    steady::expanding_keeps_steady(cx, b2, b2.len(), next);
    let (b4, c4) = tuples::split_all(b3, b3.len(), c3);
    steady::splitting_keeps_steady(cx, b3, b3.len(), c3);
    splitting_makes_plain(cx, b3, b3.len(), c3);
    let b5 = if is_ret {
        rewrite::rewritten_all(passes::thread_rule(), b4)
    } else {
        b4
    };
    let b6 = rewrite::rewritten_all(passes::ret_rule(), b5);
    steady::returning_bodies_keeps_steady(cx, is_ret, b4);
    calls_and_returns_are_mild();
    mild_keeps_all_plain(passes::thread_rule(), b4);
    mild_keeps_all_plain(passes::ret_rule(), b5);
    let l7 = lift::lifted_body(b6, b6.len(), c4);
    steady::lifting_a_body_keeps_steady(cx, is_ret, b6, b6.len(), c4);
    lifting_bodies_keeps_plain(b6, b6.len(), c4);
    lift::lifted_bodies_are_flat(b6, b6.len(), c4);
    let (b8, c8) = calls::pinned_all(l7.lifts, l7.lifts.len(), l7.next);
    pinning_makes_ready(cx, is_ret, l7.lifts, l7.lifts.len(), l7.next);
    let (b9, c9) = calls::discarded_all(cx, b8, b8.len(), c8);
    discarding_makes_ready(cx, is_ret, b8, b8.len(), c8);
}

// ── waiting and sending ────────────────────────────────────────────────────

proof fn awaiting_is_quiet(
    cx: CxV,
    is_ret: bool,
    t: Tree,
    ret: Text,
    rest: Seq<Tree>,
    id: u32,
)
    requires
        steady::names_are_free(cx),
        is_ready(cx, is_ret, t),
        calls::binds_ret(cx, t),
        steady::all_steady(cx, is_ret, rest),
    ensures
        calls::awaited(t, ret, rest, id).len() == 2,
        is_quiet(cx, is_ret, calls::awaited(t, ret, rest, id)[0]),
        is_quiet(cx, is_ret, calls::awaited(t, ret, rest, id)[1]),
{
    let out = calls::awaited(t, ret, rest, id);
    steady::awaiting_keeps_steady(cx, is_ret, t, ret, rest, id);
    let call = t.kids[0];
    let s = calls::with_self(call, t.span);
    assert(lift::mode(t.head, 0) is Inside);
    assert(lift::flat(call));
    assert forall|i: int| 0 <= i < s.kids.len() implies match lift::mode(s.head, i) {
        Mode::Keep => true,
        Mode::Inside => lift::flat(#[trigger] s.kids[i]),
        Mode::Value => !(s.kids[i].head is Jump) && lift::flat(s.kids[i]),
        Mode::Leaf => lift::is_leaf(s.kids[i]),
    } by {
        if i == 0 {
            assert(s.kids[0] == call.kids[0]);
            assert(lift::mode(call.head, 0) is Inside);
            assert(lift::flat(call.kids[0]));
        } else if i == 1 {
            inspect_var_is_flat(s.kids[1]);
        } else {
            assert(s.kids[i] == call.kids[i - 1]);
            assert(lift::mode(call.head, i - 1) is Value);
            assert(lift::flat(call.kids[i - 1]));
        }
    }
    assert(lift::flat(s));
    let_is_flat(out[0]);
    let w = out[1];
    assert forall|i: int| 0 <= i < w.kids.len() implies match lift::mode(w.head, i) {
        Mode::Keep => true,
        Mode::Inside => lift::flat(#[trigger] w.kids[i]),
        Mode::Value => !(w.kids[i].head is Jump) && lift::flat(w.kids[i]),
        Mode::Leaf => lift::is_leaf(w.kids[i]),
    } by {}
}

/// A send of a value that is no call.
proof fn send_is_quiet(cx: CxV, is_ret: bool, span: SimpleSpan, value: Tree)
    requires
        steady::names_are_free(cx),
        steady::is_steady(cx, is_ret, value),
        lift::flat(value),
        !(value.head is Jump),
    ensures
        is_quiet(cx, is_ret, synth::caller_send(span, value)),
{
    let s = synth::caller_send(span, value);
    steady::steady_send(cx, is_ret, span, value);
    inspect_var_is_flat(synth::caller_var(span));
    inspect_var_is_flat(synth::self_tree(span));
    assert forall|i: int| 0 <= i < s.kids.len() implies match lift::mode(s.head, i) {
        Mode::Keep => true,
        Mode::Inside => lift::flat(#[trigger] s.kids[i]),
        Mode::Value => !(s.kids[i].head is Jump) && lift::flat(s.kids[i]),
        Mode::Leaf => lift::is_leaf(s.kids[i]),
    } by {}
    steady::numbered_is_reserved(0);
    assert(calls::ret_of(cx, s) is None);
}

/// Sending a call lifts it.
proof fn lifting_a_sent_call(span: SimpleSpan, call: Tree, st: Lifted)
    requires
        call.head is Jump,
        lift::flat(call),
    ensures
        ({
            let name = synth::numbered("__lift_"@, st.next);
            let (t, s) = lift::lifted(synth::caller_send(span, call), st);
            &&& t == synth::caller_send(span, synth::open_var(name, call.span))
            &&& s.lifts == st.lifts.push(synth::open_let(name, call, call.span))
        }),
{
    let w = synth::caller_send(span, call);
    reveal_with_fuel(lift::lifted_kids, 4);
    inspect_var_is_flat(synth::caller_var(span));
    inspect_var_is_flat(synth::self_tree(span));
    settled::flat_stays(synth::caller_var(span), st);
    settled::flat_stays(synth::self_tree(span), st);
    settled::flat_stays(call, st);
    let (k1, s1) = lift::lifted_kids(w.head, w.kids, 1, st);
    assert(k1 =~= seq![synth::caller_var(span)] && s1 == st);
    let (k2, s2) = lift::lifted_kids(w.head, w.kids, 2, st);
    assert(k2 =~= seq![synth::caller_var(span), synth::self_tree(span)] && s2 == st);
    let (k3, s3) = lift::lifted_kids(w.head, w.kids, 3, st);
    let name = synth::numbered("__lift_"@, st.next);
    assert(k3 =~= seq![
        synth::caller_var(span),
        synth::self_tree(span),
        synth::open_var(name, call.span),
    ]);
    assert(lift::lifted(w, st).0.kids =~= k3);
}

proof fn quiet_is_flat(cx: CxV, is_ret: bool, ts: Seq<Tree>)
    requires
        all_quiet(cx, is_ret, ts),
    ensures
        lift::all_flat(ts),
        steady::all_steady(cx, is_ret, ts),
{
    assert forall|i: int| 0 <= i < ts.len() implies lift::flat(#[trigger] ts[i])
        && steady::is_steady(cx, is_ret, ts[i]) by {
        assert(is_quiet(cx, is_ret, ts[i]));
    }
}

/// Lifting statements of which the first are flat.
proof fn lifting_after_flat(ts: Seq<Tree>, n: nat, next: u32)
    requires
        n <= ts.len(),
        forall|i: int| 0 <= i < n ==> lift::flat(#[trigger] ts[i]),
    ensures
        lift::lifted_body(ts, n, next) == (Lifted { lifts: ts.take(n as int), next }),
    decreases n,
{
    if n > 0 {
        lifting_after_flat(ts, (n - 1) as nat, next);
        settled::flat_stays(ts[n - 1], lift::lifted_body(ts, (n - 1) as nat, next));
        assert(ts.take(n - 1).push(ts[n - 1]) =~= ts.take(n as int));
    } else {
        assert(ts.take(0) =~= Seq::empty());
    }
}

proof fn flat_quiet_stays(cx: CxV, is_ret: bool, ts: Seq<Tree>, next: u32)
    requires
        all_quiet(cx, is_ret, ts),
    ensures
        all_quiet(cx, is_ret, lift::lifted_body(ts, ts.len(), next).lifts),
{
    quiet_is_flat(cx, is_ret, ts);
    lifting_after_flat(ts, ts.len(), next);
    assert(ts.take(ts.len() as int) =~= ts);
}

/// The value sent and lifted, quiet statements are quiet.
proof fn sending_is_quiet(cx: CxV, is_ret: bool, ts: Seq<Tree>, next: u32)
    requires
        steady::names_are_free(cx),
        all_quiet(cx, is_ret, ts),
    ensures
        all_quiet(
            cx,
            is_ret,
            lift::lifted_body(body::sent(ts), body::sent(ts).len(), next).lifts,
        ),
{
    let w = body::sent(ts);
    if ts.len() == 0 || tail::sends(ts.last()) {
        flat_quiet_stays(cx, is_ret, ts, next);
    } else {
        let t = ts[ts.len() - 1];
        let a = ts.drop_last();
        assert(is_quiet(cx, is_ret, t));
        assert forall|i: int| 0 <= i < a.len() implies is_quiet(cx, is_ret, #[trigger] a[i]) by {
            assert(is_quiet(cx, is_ret, ts[i]));
        }
        match t.head {
            Head::When | Head::Wait => {
                let r = Tree { kids: tail::wrapped_parts(t.kids), ..t };
                assert(tail::wrapped_tail(t) =~= seq![r]);
                wrapped_parts_are_quiet(cx, is_ret, t);
                assert forall|i: int| 0 <= i < w.len() implies is_quiet(
                    cx,
                    is_ret,
                    #[trigger] w[i],
                ) by {
                    if i < a.len() {
                        assert(w[i] == a[i]);
                    }
                }
                flat_quiet_stays(cx, is_ret, w, next);
            },
            Head::Let(_, _) => {
                let s = synth::caller_send(t.span, synth::null_pid(t.span));
                steady::steady_node(cx, is_ret, synth::null_pid(t.span));
                unit_is_flat(synth::null_pid(t.span));
                send_is_quiet(cx, is_ret, t.span, synth::null_pid(t.span));
                assert(tail::wrapped_tail(t) =~= seq![t, s]);
                assert forall|i: int| 0 <= i < w.len() implies is_quiet(
                    cx,
                    is_ret,
                    #[trigger] w[i],
                ) by {
                    if i < a.len() {
                        assert(w[i] == a[i]);
                    }
                }
                flat_quiet_stays(cx, is_ret, w, next);
            },
            _ => {
                let s = synth::caller_send(t.span, t);
                assert(tail::wrapped_tail(t) =~= seq![s]);
                assert(w.len() == a.len() + 1);
                assert(w[a.len() as int] == s);
                if t.head is Jump {
                    assert forall|i: int| 0 <= i < a.len() implies lift::flat(#[trigger] w[i]) by {
                        assert(w[i] == a[i]);
                        assert(is_quiet(cx, is_ret, a[i]));
                    }
                    lifting_after_flat(w, a.len(), next);
                    let st = lift::lifted_body(w, a.len(), next);
                    assert(st.lifts =~= a);
                    lifting_a_sent_call(t.span, t, st);
                    let name = synth::numbered("__lift_"@, next);
                    let l = synth::open_let(name, t, t.span);
                    let v = synth::open_var(name, t.span);
                    let_is_flat(l);
                    steady::numbered_is_reserved(next);
                    assert(steady::all_steady(cx, is_ret, l.kids));
                    steady::steady_node(cx, is_ret, l);
                    steady::steady_node(cx, is_ret, v);
                    inspect_var_is_flat(v);
                    send_is_quiet(cx, is_ret, t.span, v);
                    let out = lift::lifted_body(w, w.len(), next).lifts;
                    assert(out =~= a.push(l).push(synth::caller_send(t.span, v)));
                    assert forall|i: int| 0 <= i < out.len() implies is_quiet(
                        cx,
                        is_ret,
                        #[trigger] out[i],
                    ) by {
                        if i < a.len() {
                            assert(out[i] == a[i]);
                        }
                    }
                } else {
                    send_is_quiet(cx, is_ret, t.span, t);
                    assert forall|i: int| 0 <= i < w.len() implies is_quiet(
                        cx,
                        is_ret,
                        #[trigger] w[i],
                    ) by {
                        if i < a.len() {
                            assert(w[i] == a[i]);
                        }
                    }
                    flat_quiet_stays(cx, is_ret, w, next);
                }
            },
        }
    }
}

proof fn wrapped_parts_are_quiet(cx: CxV, is_ret: bool, t: Tree)
    requires
        steady::names_are_free(cx),
        is_quiet(cx, is_ret, t),
        t.head is When || t.head is Wait,
    ensures
        is_quiet(cx, is_ret, (Tree { kids: tail::wrapped_parts(t.kids), ..t })),
{
    let r = Tree { kids: tail::wrapped_parts(t.kids), ..t };
    steady::wrapping_keeps_steady(cx, is_ret, seq![t]);
    let w = tail::wrapped_body(seq![t]);
    assert(w =~= seq![r]);
    assert(steady::is_steady(cx, is_ret, w[0]));
    assert forall|i: int| 1 <= i < t.kids.len() implies like_arms(
        #[trigger] t.kids[i],
        r.kids[i],
    ) by {
        let p = t.kids[i];
        assert(r.kids[i] == tail::wrapped_part(p));
        if p.head is Arm && p.kids.len() > 1 {
            assert(r.kids[i].kids == p.kids.take(1) + tail::wrapped_body(p.kids.skip(1)));
            assert(r.kids[i].kids[0] == p.kids[0]);
        }
    }
    if t.kids.len() > 0 {
        assert(r.kids[0] == t.kids[0]);
    }
    when_stays_plain(t, r);
    assert forall|i: int| 0 <= i < r.kids.len() implies match lift::mode(r.head, i) {
        Mode::Keep => true,
        Mode::Inside => lift::flat(#[trigger] r.kids[i]),
        Mode::Value => !(r.kids[i].head is Jump) && lift::flat(r.kids[i]),
        Mode::Leaf => lift::is_leaf(r.kids[i]),
    } by {
        if i == 0 && t.head is When {
            assert(lift::mode(t.head, 0) is Inside);
            assert(lift::flat(t.kids[0]));
        }
    }
}

// ── bodies ─────────────────────────────────────────────────────────────────

proof fn calm_of_steady(cx: CxV, is_ret: bool, t: Tree)
    requires
        steady::is_steady(cx, is_ret, t),
        inspect::holds(pure::no_ret(), t),
    ensures
        inspect::holds(settled::calm(cx.reg, cx.id, is_ret), t),
    decreases t,
{
    let p = settled::calm(cx.reg, cx.id, is_ret);
    steady::steady_kids(cx, is_ret, t);
    inspect::holds_iff(pure::no_ret(), t);
    assert forall|i: int|
        0 <= i < t.kids.len() && inspect::covered(p, t.head, i) implies #[trigger] inspect::holds(
        p,
        t.kids[i],
    ) by {
        assert(inspect::covered(pure::no_ret(), t.head, i));
        assert(inspect::holds(pure::no_ret(), t.kids[i]));
        assert(steady::is_steady(cx, is_ret, t.kids[i]));
        assert(decreases_to!(t => t.kids[i]));
        calm_of_steady(cx, is_ret, t.kids[i]);
    }
    inspect::holds_iff(p, t);
}

proof fn steady_of_calm(cx: CxV, is_ret: bool, t: Tree)
    requires
        inspect::holds(settled::calm(cx.reg, cx.id, is_ret), t),
    ensures
        steady::is_steady(cx, is_ret, t),
    decreases t,
{
    let p = settled::calm(cx.reg, cx.id, is_ret);
    inspect::holds_iff(p, t);
    assert forall|i: int| 0 <= i < t.kids.len() implies steady::is_steady(
        cx,
        is_ret,
        #[trigger] t.kids[i],
    ) by {
        assert(inspect::covered(p, t.head, i));
        assert(inspect::holds(p, t.kids[i]));
        assert(decreases_to!(t => t.kids[i]));
        steady_of_calm(cx, is_ret, t.kids[i]);
    }
    steady::steady_node(cx, is_ret, t);
}

proof fn whole_kids(t: Tree)
    requires
        inspect::holds(ret_free::rets_whole(), t),
    ensures
        inspect::all_hold(ret_free::rets_whole(), t.kids),
{
    inspect::holds_iff(ret_free::rets_whole(), t);
    assert forall|i: int| 0 <= i < t.kids.len() implies #[trigger] inspect::holds(
        ret_free::rets_whole(),
        t.kids[i],
    ) by {
        assert(inspect::covered(ret_free::rets_whole(), t.head, i));
    }
}

/// What lowering the bodies inside `t` keeps of it, and what it makes of them.
spec fn follows(cx: CxV, is_ret: bool, t: Tree, r: Tree) -> bool {
    &&& r.head == t.head
    &&& !rewrite::is_part(t.head) ==> r.kids.len() == t.kids.len()
    &&& steady::is_steady(cx, is_ret, r)
    &&& settled::settled_inside(cx, r, is_ret)
    &&& lift::flat(t) ==> lift::flat(r)
    &&& is_plain(t) ==> is_plain(r)
    &&& calls::ret_of(cx, r) == calls::ret_of(cx, t)
    &&& calls::binds_ret(cx, r) == calls::binds_ret(cx, t)
    &&& like_arms(t, r)
    &&& tuples::is_split(t) ==> tuples::is_split(r)
}

/// The statements up to a binding of a reply, and the `wait` for it.
proof fn waiting_is_quiet(
    cx: CxV,
    is_ret: bool,
    b: Seq<Tree>,
    i: int,
    rest: Seq<Tree>,
    c: u32,
)
    requires
        steady::names_are_free(cx),
        all_ready(cx, is_ret, b),
        inspect::all_hold(pure::no_ret(), b),
        0 <= i < b.len(),
        calls::binds_ret(cx, b[i]),
        forall|k: int| 0 <= k < i ==> !calls::binds_ret(cx, #[trigger] b[k]),
        settled::settled_body(cx, rest, is_ret),
        inspect::all_hold(pure::no_ret(), rest),
    ensures
        ({
            let ret = calls::ret_of(cx, b[i].kids[0])->0;
            let b2 = b.take(i) + calls::awaited(b[i], ret, rest, c);
            all_quiet(cx, is_ret, b2) && inspect::all_hold(pure::no_ret(), b2)
        }),
{
    let ret = calls::ret_of(cx, b[i].kids[0])->0;
    let w = calls::awaited(b[i], ret, rest, c);
    let b2 = b.take(i) + w;
    assert forall|k: int| 0 <= k < rest.len() implies steady::is_steady(
        cx,
        is_ret,
        #[trigger] rest[k],
    ) by {
        assert(settled::settled_stmt(cx, rest[k], is_ret));
        steady_of_calm(cx, is_ret, rest[k]);
    }
    assert(is_ready(cx, is_ret, b[i]));
    awaiting_is_quiet(cx, is_ret, b[i], ret, rest, c);
    assert(inspect::holds(pure::no_ret(), b[i]));
    ret_free::awaiting_keeps_free(cx, b[i], ret, rest, c);
    assert forall|k: int| 0 <= k < b2.len() implies is_quiet(cx, is_ret, #[trigger] b2[k])
        && inspect::holds(pure::no_ret(), b2[k]) by {
        if k < i {
            assert(b2[k] == b[k]);
            assert(inspect::holds(pure::no_ret(), b[k]));
            assert(is_ready(cx, is_ret, b[k]));
        } else {
            assert(b2[k] == w[k - i]);
            assert(inspect::holds(pure::no_ret(), w[k - i]));
        }
    }
    assert forall|k: int| 0 <= k < b2.len() implies #[trigger] inspect::holds(
        pure::no_ret(),
        b2[k],
    ) by {
        assert(is_quiet(cx, is_ret, b2[k]));
    }
}

/// What follows quiet statements is settled.
proof fn following_is_settled(cx: CxV, is_ret: bool, b: Seq<Tree>, out: Seq<Tree>)
    requires
        b.len() == out.len(),
        all_quiet(cx, is_ret, b),
        forall|i: int| 0 <= i < b.len() ==> follows(cx, is_ret, #[trigger] b[i], out[i]),
        inspect::all_hold(pure::no_ret(), out),
    ensures
        settled::settled_body(cx, out, is_ret),
{
    assert forall|k: int| 0 <= k < out.len() implies settled::settled_stmt(
        cx,
        #[trigger] out[k],
        is_ret,
    ) && settled::settled_inside(cx, out[k], is_ret) by {
        assert(follows(cx, is_ret, b[k], out[k]));
        assert(is_quiet(cx, is_ret, b[k]));
        assert(inspect::holds(pure::no_ret(), out[k]));
        calm_of_steady(cx, is_ret, out[k]);
    }
}

proof fn free_is_whole_list(ts: Seq<Tree>)
    requires
        inspect::all_hold(pure::no_ret(), ts),
    ensures
        inspect::all_hold(ret_free::rets_whole(), ts),
{
    assert forall|k: int| 0 <= k < ts.len() implies #[trigger] inspect::holds(
        ret_free::rets_whole(),
        ts[k],
    ) by {
        assert(inspect::holds(pure::no_ret(), ts[k]));
        ret_free::free_is_whole(ts[k]);
    }
}

proof fn ready_is_quiet(cx: CxV, is_ret: bool, ts: Seq<Tree>)
    requires
        all_ready(cx, is_ret, ts),
        forall|k: int| 0 <= k < ts.len() ==> !calls::binds_ret(cx, #[trigger] ts[k]),
    ensures
        all_quiet(cx, is_ret, ts),
{
    assert forall|k: int| 0 <= k < ts.len() implies is_quiet(cx, is_ret, #[trigger] ts[k]) by {
        assert(is_ready(cx, is_ret, ts[k]));
    }
}

proof fn tail_is_free(ts: Seq<Tree>, from: int)
    requires
        0 <= from <= ts.len(),
        inspect::all_hold(pure::no_ret(), ts),
    ensures
        inspect::all_hold(pure::no_ret(), ts.skip(from)),
{
    assert forall|k: int| 0 <= k < ts.skip(from).len() implies #[trigger] inspect::holds(
        pure::no_ret(),
        ts.skip(from)[k],
    ) by {
        assert(inspect::holds(pure::no_ret(), ts[from + k]));
    }
}

#[verifier::rlimit(30)]
proof fn settles(
    cx: CxV,
    ts: Seq<Tree>,
    is_ret: bool,
    outermost: bool,
    next: u32,
    fuel: nat,
)
    requires
        cx.pure.len() == 0,
        steady::names_are_free(cx),
        inspect::all_hold(ret_free::rets_whole(), ts),
        reaches(cx, ts, is_ret, outermost, next, fuel),
    ensures
        settled::settled_body(
            cx,
            body::lowered(cx, ts, is_ret, outermost, next, fuel).0,
            is_ret,
        ),
    decreases fuel, 2nat, ts, 0nat,
{
    let (b, c) = body::prepared(cx, ts, is_ret, next, fuel);
    preparing_makes_ready(cx, ts, is_ret, next, fuel);
    ret_free::prepared_bodies_hold_no_ret(cx, ts, is_ret, next, fuel);
    let i = body::first_ret_let(cx, b, 0);
    first_binds(cx, b, 0);
    if 0 <= i < b.len() {
        let tl = b.skip(i + 1);
        let less = (fuel - 1) as nat;
        tail_is_free(b, i + 1);
        free_is_whole_list(tl);
        assert(reaches(cx, tl, is_ret, true, lift::succ(c), less));
        settles(cx, tl, is_ret, true, lift::succ(c), less);
        let (rest, c2) = body::lowered(cx, tl, is_ret, true, lift::succ(c), less);
        assert(less > 0);
        ret_free::lowered_bodies_hold_no_ret(cx, tl, is_ret, true, lift::succ(c), less);
        waiting_is_quiet(cx, is_ret, b, i, rest, c);
        let b2 = b.take(i) + calls::awaited(b[i], calls::ret_of(cx, b[i].kids[0])->0, rest, c);
        finish(cx, ts, is_ret, outermost, next, fuel, b2, c2);
    } else {
        ready_is_quiet(cx, is_ret, b);
        finish(cx, ts, is_ret, outermost, next, fuel, b, c);
    }
}

/// The last steps of [`settles`], with the statements `b` before them.
proof fn finish(
    cx: CxV,
    ts: Seq<Tree>,
    is_ret: bool,
    outermost: bool,
    next: u32,
    fuel: nat,
    b: Seq<Tree>,
    c: u32,
)
    requires
        cx.pure.len() == 0,
        steady::names_are_free(cx),
        inspect::all_hold(ret_free::rets_whole(), ts),
        fuel > 0,
        all_quiet(cx, is_ret, b),
        inspect::all_hold(pure::no_ret(), b),
        ({
            let (b3, c3) = if is_ret && outermost {
                let l = lift::lifted_body(body::sent(b), body::sent(b).len(), c);
                (l.lifts, l.next)
            } else {
                (b, c)
            };
            &&& body::lowered(cx, ts, is_ret, outermost, next, fuel) == body::arms_lowered_all(
                cx,
                b3,
                b3.len(),
                is_ret,
                c3,
                fuel,
            )
            &&& arms_reach_all(cx, b3, b3.len(), is_ret, c3, fuel)
        }),
    ensures
        settled::settled_body(
            cx,
            body::lowered(cx, ts, is_ret, outermost, next, fuel).0,
            is_ret,
        ),
    decreases fuel, 1nat, ts, 0nat,
{
    let (b3, c3) = if is_ret && outermost {
        let l = lift::lifted_body(body::sent(b), body::sent(b).len(), c);
        (l.lifts, l.next)
    } else {
        (b, c)
    };
    sending_is_quiet(cx, is_ret, b, c);
    ret_free::sending_keeps_free(b, c);
    quiet_is_flat(cx, is_ret, b3);
    free_is_whole_list(b3);
    arms_of_all_settle(cx, b3, b3.len(), is_ret, c3, fuel);
    let out = body::lowered(cx, ts, is_ret, outermost, next, fuel).0;
    ret_free::lowered_bodies_hold_no_ret(cx, ts, is_ret, outermost, next, fuel);
    following_is_settled(cx, is_ret, b3, out);
}

proof fn first_binds(cx: CxV, ts: Seq<Tree>, from: int)
    requires
        0 <= from,
    ensures
        ({
            let i = body::first_ret_let(cx, ts, from);
            &&& from <= i
            &&& i < ts.len() ==> calls::binds_ret(cx, ts[i])
            &&& forall|k: int|
                from <= k < i && k < ts.len() ==> !calls::binds_ret(cx, #[trigger] ts[k])
        }),
    decreases ts.len() - from,
{
    if from < ts.len() && !calls::binds_ret(cx, ts[from]) {
        first_binds(cx, ts, from + 1);
    }
}

#[verifier::rlimit(30)]
proof fn arms_settle(cx: CxV, t: Tree, is_ret: bool, next: u32, fuel: nat)
    requires
        cx.pure.len() == 0,
        steady::names_are_free(cx),
        steady::is_steady(cx, is_ret, t),
        inspect::holds(ret_free::rets_whole(), t),
        arms_reach(cx, t, is_ret, next, fuel),
    ensures
        follows(cx, is_ret, t, body::arms_lowered(cx, t, is_ret, next, fuel).0),
    decreases fuel, 0nat, t, 0nat,
{
    let r = body::arms_lowered(cx, t, is_ret, next, fuel).0;
    steady::steady_kids(cx, is_ret, t);
    whole_kids(t);
    match t.head {
        Head::Arm => {
            if t.kids.len() > 0 {
                let rest = t.kids.skip(1);
                assert(steady::is_steady(cx, is_ret, t.kids[0]));
                assert(inspect::holds(ret_free::rets_whole(), t.kids[0]));
                assert(decreases_to!(t => t.kids[0]));
                arms_settle(cx, t.kids[0], is_ret, next, fuel);
                let (pat, c) = body::arms_lowered(cx, t.kids[0], is_ret, next, fuel);
                assert forall|k: int| 0 <= k < rest.len() implies #[trigger] inspect::holds(
                    ret_free::rets_whole(),
                    rest[k],
                ) by {
                    assert(inspect::holds(ret_free::rets_whole(), t.kids[k + 1]));
                }
                settles(cx, rest, is_ret, false, c, (fuel - 1) as nat);
                let low = body::lowered(cx, rest, is_ret, false, c, (fuel - 1) as nat).0;
                assert(r.kids =~= seq![pat] + low);
                assert forall|k: int| 0 <= k < r.kids.len() implies settled::settled_inside(
                    cx,
                    #[trigger] r.kids[k],
                    is_ret,
                ) && (k > 0 ==> settled::settled_stmt(cx, r.kids[k], is_ret))
                    && steady::is_steady(cx, is_ret, r.kids[k]) by {
                    if k > 0 {
                        assert(r.kids[k] == low[k - 1]);
                        assert(settled::settled_stmt(cx, low[k - 1], is_ret));
                        steady_of_calm(cx, is_ret, low[k - 1]);
                    }
                }
                steady::steady_node(cx, is_ret, r);
                part_is_flat(r);
            }
        },
        Head::Handler(_) => {
            settles(cx, t.kids, is_ret, false, next, (fuel - 1) as nat);
            assert forall|k: int| 0 <= k < r.kids.len() implies settled::settled_inside(
                cx,
                #[trigger] r.kids[k],
                is_ret,
            ) && settled::settled_stmt(cx, r.kids[k], is_ret) && steady::is_steady(
                cx,
                is_ret,
                r.kids[k],
            ) by {
                assert(settled::settled_stmt(cx, r.kids[k], is_ret));
                steady_of_calm(cx, is_ret, r.kids[k]);
            }
            steady::steady_node(cx, is_ret, r);
            part_is_flat(r);
        },
        _ => {
            if tuples::looks_inside(t.head) {
                assert(decreases_to!(t => t.kids));
                arms_of_all_settle(cx, t.kids, t.kids.len(), is_ret, next, fuel);
                kids_follow(cx, is_ret, t, r);
            }
        },
    }
}

proof fn part_is_flat(t: Tree)
    requires
        rewrite::is_part(t.head),
    ensures
        lift::flat(t),
{
    assert forall|i: int| 0 <= i < t.kids.len() implies match lift::mode(t.head, i) {
        Mode::Keep => true,
        Mode::Inside => lift::flat(#[trigger] t.kids[i]),
        Mode::Value => !(t.kids[i].head is Jump) && lift::flat(t.kids[i]),
        Mode::Leaf => lift::is_leaf(t.kids[i]),
    } by {}
}

/// A node whose subtrees follow follows.
proof fn kids_follow(cx: CxV, is_ret: bool, t: Tree, r: Tree)
    requires
        steady::is_steady(cx, is_ret, t),
        tuples::looks_inside(t.head),
        r.head == t.head,
        r.kids.len() == t.kids.len(),
        forall|i: int|
            0 <= i < t.kids.len() ==> follows(cx, is_ret, #[trigger] t.kids[i], r.kids[i]),
    ensures
        follows(cx, is_ret, t, r),
{
    steady::steady_kids(cx, is_ret, t);
    assert forall|i: int| 0 <= i < r.kids.len() implies steady::is_steady(
        cx,
        is_ret,
        #[trigger] r.kids[i],
    ) && settled::settled_inside(cx, r.kids[i], is_ret) by {
        assert(follows(cx, is_ret, t.kids[i], r.kids[i]));
    }
    if t.kids.len() > 0 {
        assert(follows(cx, is_ret, t.kids[0], r.kids[0]));
    }
    if t.kids.len() > 1 {
        assert(follows(cx, is_ret, t.kids[1], r.kids[1]));
    }
    if !rewrite::is_part(t.head) {
        assert(steady::node_steady(cx, is_ret, r));
    }
    steady::steady_node(cx, is_ret, r);
    if lift::flat(t) {
        assert forall|i: int| 0 <= i < r.kids.len() implies match lift::mode(r.head, i) {
            Mode::Keep => true,
            Mode::Inside => lift::flat(#[trigger] r.kids[i]),
            Mode::Value => !(r.kids[i].head is Jump) && lift::flat(r.kids[i]),
            Mode::Leaf => lift::is_leaf(r.kids[i]),
        } by {
            assert(follows(cx, is_ret, t.kids[i], r.kids[i]));
            match lift::mode(t.head, i) {
                Mode::Inside => {
                    assert(lift::flat(t.kids[i]));
                },
                Mode::Value => {
                    assert(lift::flat(t.kids[i]));
                },
                _ => {},
            }
        }
    }
    if is_plain(t) {
        assert forall|i: int| 1 <= i < t.kids.len() implies like_arms(
            #[trigger] t.kids[i],
            r.kids[i],
        ) by {
            assert(follows(cx, is_ret, t.kids[i], r.kids[i]));
        }
        when_stays_plain(t, r);
    }
}

proof fn arms_of_all_settle(
    cx: CxV,
    ts: Seq<Tree>,
    n: nat,
    is_ret: bool,
    next: u32,
    fuel: nat,
)
    requires
        cx.pure.len() == 0,
        steady::names_are_free(cx),
        n <= ts.len(),
        steady::all_steady(cx, is_ret, ts),
        inspect::all_hold(ret_free::rets_whole(), ts),
        arms_reach_all(cx, ts, n, is_ret, next, fuel),
    ensures
        body::arms_lowered_all(cx, ts, n, is_ret, next, fuel).0.len() == n,
        forall|i: int|
            0 <= i < n ==> follows(
                cx,
                is_ret,
                #[trigger] ts[i],
                body::arms_lowered_all(cx, ts, n, is_ret, next, fuel).0[i],
            ),
    decreases fuel, 0nat, ts, n,
{
    if n > 0 {
        arms_of_all_settle(cx, ts, (n - 1) as nat, is_ret, next, fuel);
        let (before, c) = body::arms_lowered_all(cx, ts, (n - 1) as nat, is_ret, next, fuel);
        assert(steady::is_steady(cx, is_ret, ts[n - 1]));
        assert(inspect::holds(ret_free::rets_whole(), ts[n - 1]));
        arms_settle(cx, ts[n - 1], is_ret, c, fuel);
        let all = body::arms_lowered_all(cx, ts, n, is_ret, next, fuel).0;
        assert forall|i: int| 0 <= i < n implies follows(cx, is_ret, #[trigger] ts[i], all[i]) by {
            if i < n - 1 {
                assert(all[i] == before[i]);
            }
        }
    }
}

/// A body without templates is settled by lowering it.
pub proof fn lowered_bodies_are_settled(
    cx: CxV,
    ts: Seq<Tree>,
    is_ret: bool,
    outermost: bool,
    next: u32,
    fuel: nat,
)
    requires
        cx.pure.len() == 0,
        steady::names_are_free(cx),
        inspect::all_hold(ret_free::rets_whole(), ts),
        reaches(cx, ts, is_ret, outermost, next, fuel),
    ensures
        settled::settled_body(
            cx,
            body::lowered(cx, ts, is_ret, outermost, next, fuel).0,
            is_ret,
        ),
{
    settles(cx, ts, is_ret, outermost, next, fuel);
}

} // verus!
