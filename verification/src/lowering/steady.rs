//! Once names are resolved, no pass brings back one that resolves.

use vstd::prelude::*;

use crate::api::expr;
use crate::api::expr::{Head, Tree};
use crate::inspect;
use crate::inspect::Ask;
use crate::lowering::calls;
use crate::lowering::expand::CxV;
use crate::lowering::lift;
use crate::lowering::lift::Lifted;
use crate::lowering::passes;
use crate::lowering::synth;
use crate::lowering::tail;
use crate::lowering::tuples;
use crate::registry;
use crate::registry::ResolutionV;
use crate::rewrite;
use crate::span::{SimpleSpan, Spanned};
use crate::text;
use crate::text::Text;

verus! {

// ── names that lowering makes up ───────────────────────────────────────────

/// Whether a name is one that lowering uses for itself: `self`, `_`, or one
/// that begins with two underscores.
pub open spec fn reserved(name: Text) -> bool {
    name == "self"@ || name == "_"@ || text::begins(name, "__"@)
}

/// Whether no constant and no ret-machine has a name that lowering uses for
/// itself.
pub open spec fn names_are_free(cx: CxV) -> bool {
    forall|name: Text| #[trigger]
        reserved(name) ==> !(cx.reg.resolved(cx.id, name) matches Some(ResolutionV::Const(_)))
            && calls::ret_by_name(cx, name) is None
}

proof fn longer_begins(prefix: Text, rest: Text)
    requires
        text::begins(prefix, "__"@),
    ensures
        text::begins(prefix + rest, "__"@),
{
    let n = "__"@.len() as int;
    assert((prefix + rest).take(n) =~= prefix.take(n));
}

proof fn begins_by_chars(name: Text)
    requires
        name.len() >= 2,
        name[0] == '_',
        name[1] == '_',
    ensures
        text::begins(name, "__"@),
{
    reveal_strlit("__");
    assert(name.take(2) =~= "__"@);
}

proof fn prefixes_are_reserved()
    ensures
        text::begins("__lift_"@, "__"@),
        text::begins("__anf_tmp"@, "__"@),
        text::begins("__wtp_"@, "__"@),
        text::begins("__dst_"@, "__"@),
        text::begins("__pin_"@, "__"@),
        text::begins("__discard_"@, "__"@),
        text::begins("__ret_"@, "__"@),
        text::begins("__caller"@, "__"@),
{
    reveal_strlit("__lift_");
    reveal_strlit("__anf_tmp");
    reveal_strlit("__wtp_");
    reveal_strlit("__dst_");
    reveal_strlit("__pin_");
    reveal_strlit("__discard_");
    reveal_strlit("__ret_");
    reveal_strlit("__caller");
    begins_by_chars("__lift_"@);
    begins_by_chars("__anf_tmp"@);
    begins_by_chars("__wtp_"@);
    begins_by_chars("__dst_"@);
    begins_by_chars("__pin_"@);
    begins_by_chars("__discard_"@);
    begins_by_chars("__ret_"@);
    begins_by_chars("__caller"@);
}

pub proof fn numbered_is_reserved(id: u32)
    ensures
        reserved(synth::numbered("__lift_"@, id)),
        reserved(synth::numbered("__anf_tmp"@, id)),
        reserved(synth::numbered("__wtp_"@, id)),
        reserved(synth::numbered("__dst_"@, id)),
        forall|what: Text| reserved(#[trigger] calls::reply_name(id, what)),
        reserved("__caller"@),
        reserved("self"@),
        reserved("_"@),
{
    let n = text::decimal(id as nat);
    prefixes_are_reserved();
    longer_begins("__lift_"@, n);
    longer_begins("__anf_tmp"@, n);
    longer_begins("__wtp_"@, n);
    longer_begins("__dst_"@, n);
    longer_begins("__ret_"@, n);
    assert forall|what: Text| reserved(#[trigger] calls::reply_name(id, what)) by {
        longer_begins(synth::numbered("__ret_"@, id), what);
    }
}

/// A lifted operand is called neither `self` nor `__caller`.
proof fn lifted_names_differ(id: u32)
    ensures
        synth::numbered("__lift_"@, id) != "self"@,
        synth::numbered("__lift_"@, id) != "__caller"@,
        synth::numbered("__anf_tmp"@, id) != "self"@,
        synth::numbered("__anf_tmp"@, id) != "__caller"@,
{
    reveal_strlit("__lift_");
    reveal_strlit("__anf_tmp");
    reveal_strlit("self");
    reveal_strlit("__caller");
    assert(synth::numbered("__lift_"@, id)[0] == '_');
    assert(synth::numbered("__lift_"@, id)[2] == 'l');
    assert(synth::numbered("__anf_tmp"@, id)[0] == '_');
    assert(synth::numbered("__anf_tmp"@, id)[2] == 'a');
    assert("self"@[0] == 's');
    assert("__caller"@[2] == 'c');
}

// ── trees ──────────────────────────────────────────────────────────────────

/// What steadiness asks of a node.
pub open spec fn node_steady(cx: CxV, is_ret: bool, t: Tree) -> bool {
    match t.head {
        Head::Path(segs) => cx.reg.path_target(cx.id, registry::segment_texts(segs)) is None,
        Head::Var(name, _) => !(cx.reg.resolved(cx.id, name) matches Some(ResolutionV::Const(_))),
        Head::Jump => is_ret ==> !passes::is_unthreaded(t),
        _ => true,
    }
}

/// No path and no name of a constant that resolves, and in a ret-branch no
/// call of `self` without its caller.
pub open spec fn steady(cx: CxV, is_ret: bool) -> Ask {
    Ask {
        local: |t: Tree| node_steady(cx, is_ret, t),
        covers: |head: Head, i: int| true,
    }
}

pub open spec fn is_steady(cx: CxV, is_ret: bool, t: Tree) -> bool {
    inspect::holds(steady(cx, is_ret), t)
}

pub open spec fn all_steady(cx: CxV, is_ret: bool, ts: Seq<Tree>) -> bool {
    forall|i: int| 0 <= i < ts.len() ==> is_steady(cx, is_ret, #[trigger] ts[i])
}

pub proof fn steady_kids(cx: CxV, is_ret: bool, t: Tree)
    requires
        is_steady(cx, is_ret, t),
    ensures
        all_steady(cx, is_ret, t.kids),
        rewrite::is_part(t.head) || node_steady(cx, is_ret, t),
{
    inspect::holds_iff(steady(cx, is_ret), t);
    assert forall|i: int| 0 <= i < t.kids.len() implies is_steady(
        cx,
        is_ret,
        #[trigger] t.kids[i],
    ) by {
        assert(inspect::covered(steady(cx, is_ret), t.head, i));
    }
}

pub proof fn steady_node(cx: CxV, is_ret: bool, t: Tree)
    requires
        all_steady(cx, is_ret, t.kids),
        rewrite::is_part(t.head) || node_steady(cx, is_ret, t),
    ensures
        is_steady(cx, is_ret, t),
{
    let p = steady(cx, is_ret);
    assert forall|i: int|
        0 <= i < t.kids.len() && inspect::covered(p, t.head, i) implies #[trigger] inspect::holds(
        p,
        t.kids[i],
    ) by {
        assert(is_steady(cx, is_ret, t.kids[i]));
    }
    inspect::holds_iff(p, t);
}

proof fn join_steady(cx: CxV, is_ret: bool, a: Seq<Tree>, b: Seq<Tree>)
    requires
        all_steady(cx, is_ret, a),
        all_steady(cx, is_ret, b),
    ensures
        all_steady(cx, is_ret, a + b),
{
    assert forall|i: int| 0 <= i < (a + b).len() implies is_steady(
        cx,
        is_ret,
        #[trigger] (a + b)[i],
    ) by {
        if i < a.len() {
            assert(is_steady(cx, is_ret, a[i]));
        } else {
            assert(is_steady(cx, is_ret, b[i - a.len()]));
        }
    }
}

proof fn steady_var(cx: CxV, is_ret: bool, t: Tree)
    requires
        names_are_free(cx),
        t.kids.len() == 0,
        t.head matches Head::Var(name, _) && reserved(name),
    ensures
        is_steady(cx, is_ret, t),
{
    steady_node(cx, is_ret, t);
}

proof fn steady_leaf(cx: CxV, is_ret: bool, t: Tree)
    requires
        t.kids.len() == 0,
        t.head is Num || t.head is Unit,
    ensures
        is_steady(cx, is_ret, t),
{
    steady_node(cx, is_ret, t);
}

proof fn steady_let(cx: CxV, is_ret: bool, t: Tree)
    requires
        t.head is Let,
        t.kids.len() == 1,
        is_steady(cx, is_ret, t.kids[0]),
    ensures
        is_steady(cx, is_ret, t),
{
    assert(all_steady(cx, is_ret, t.kids));
    steady_node(cx, is_ret, t);
}

proof fn steady_slot(cx: CxV, is_ret: bool, name: Text, index: usize, span: SimpleSpan)
    requires
        names_are_free(cx),
        reserved(name),
    ensures
        is_steady(cx, is_ret, synth::slot_of(name, index, span)),
{
    let s = synth::slot_of(name, index, span);
    steady_var(cx, is_ret, s.kids[0]);
    steady_node(cx, is_ret, s);
}

proof fn steady_operand(cx: CxV, is_ret: bool, t: Tree)
    requires
        is_steady(cx, is_ret, t),
    ensures
        is_steady(cx, is_ret, synth::operand(t)),
{
    steady_kids(cx, is_ret, t);
    if t.kids.len() > 0 {
        assert(is_steady(cx, is_ret, t.kids[0]));
    } else {
        steady_leaf(cx, is_ret, synth::operand(t));
    }
}

pub proof fn steady_send(cx: CxV, is_ret: bool, span: SimpleSpan, value: Tree)
    requires
        names_are_free(cx),
        is_steady(cx, is_ret, value),
    ensures
        is_steady(cx, is_ret, synth::caller_send(span, value)),
{
    let s = synth::caller_send(span, value);
    numbered_is_reserved(0);
    steady_var(cx, is_ret, synth::caller_var(span));
    steady_var(cx, is_ret, synth::self_tree(span));
    reveal_strlit("self");
    reveal_strlit("__caller");
    assert("self"@[0] != "__caller"@[0]);
    assert(!passes::is_unthreaded(s));
    steady_node(cx, is_ret, s);
}

// ── resolving ──────────────────────────────────────────────────────────────

/// No path that resolves.
spec fn no_path(cx: CxV) -> Ask {
    Ask {
        local: |t: Tree|
            match t.head {
                Head::Path(segs) => cx.reg.path_target(cx.id, registry::segment_texts(segs))
                    is None,
                _ => true,
            },
        covers: |head: Head, i: int| true,
    }
}

proof fn no_path_is_left(cx: CxV, t: Tree)
    ensures
        inspect::holds(no_path(cx), rewrite::rewritten(passes::paths_rule(cx.reg, cx.id), t)),
    decreases t,
{
    let p = passes::paths_rule(cx.reg, cx.id);
    let ask = no_path(cx);
    let t2 = Tree { kids: rewrite::rewritten_kids(p, t.head, t.kids), ..t };
    let r = rewrite::rewritten(p, t);
    assert forall|i: int|
        0 <= i < t2.kids.len() && inspect::covered(ask, t2.head, i) implies #[trigger]
    inspect::holds(ask, t2.kids[i]) by {
        assert(rewrite::entered(p, t.head, i));
        assert(decreases_to!(t => t.kids[i]));
        no_path_is_left(cx, t.kids[i]);
    }
    inspect::holds_iff(ask, t2);
    inspect::holds_iff(ask, r);
    assert(r == t2 || r.kids.len() == 0);
}

/// Once constants are replaced in what holds no path, nothing resolves.
proof fn resolving_makes_steady(cx: CxV, t: Tree)
    requires
        inspect::holds(no_path(cx), t),
    ensures
        is_steady(cx, false, rewrite::rewritten(passes::inline_rule(cx.reg, cx.id), t)),
    decreases t,
{
    let p = passes::inline_rule(cx.reg, cx.id);
    let ask = no_path(cx);
    let t2 = Tree { kids: rewrite::rewritten_kids(p, t.head, t.kids), ..t };
    let r = rewrite::rewritten(p, t);
    inspect::holds_iff(ask, t);
    assert forall|i: int| 0 <= i < t2.kids.len() implies is_steady(
        cx,
        false,
        #[trigger] t2.kids[i],
    ) by {
        assert(rewrite::entered(p, t.head, i));
        assert(inspect::covered(ask, t.head, i));
        assert(inspect::holds(ask, t.kids[i]));
        assert(decreases_to!(t => t.kids[i]));
        resolving_makes_steady(cx, t.kids[i]);
    }
    if r != t2 {
        assert(r.kids.len() == 0);
    }
    steady_node(cx, false, r);
}

pub proof fn resolved_bodies_are_steady(cx: CxV, ts: Seq<Tree>)
    ensures
        all_steady(
            cx,
            false,
            rewrite::rewritten_all(
                passes::inline_rule(cx.reg, cx.id),
                rewrite::rewritten_all(passes::paths_rule(cx.reg, cx.id), ts),
            ),
        ),
{
    let b1 = rewrite::rewritten_all(passes::paths_rule(cx.reg, cx.id), ts);
    let b2 = rewrite::rewritten_all(passes::inline_rule(cx.reg, cx.id), b1);
    assert forall|i: int| 0 <= i < b2.len() implies is_steady(cx, false, #[trigger] b2[i]) by {
        no_path_is_left(cx, ts[i]);
        resolving_makes_steady(cx, b1[i]);
    }
}

// ── tuples ─────────────────────────────────────────────────────────────────

proof fn field_lets_are_steady(
    cx: CxV,
    name: Text,
    fields: Seq<Spanned<Text>>,
    n: nat,
    span: SimpleSpan,
)
    requires
        names_are_free(cx),
        reserved(name),
        n <= fields.len(),
    ensures
        all_steady(cx, false, tuples::field_lets(name, fields, n, span)),
    decreases n,
{
    if n > 0 {
        field_lets_are_steady(cx, name, fields, (n - 1) as nat, span);
        let f = fields[n - 1];
        let s = synth::slot_of(name, (n - 1) as usize, span);
        steady_slot(cx, false, name, (n - 1) as usize, span);
        steady_let(cx, false, synth::open_let(f.inner, s, f.span));
    }
}

pub proof fn expanding_keeps_steady(cx: CxV, body: Seq<Tree>, n: nat, next: u32)
    requires
        names_are_free(cx),
        n <= body.len(),
        all_steady(cx, false, body),
    ensures
        all_steady(cx, false, tuples::expanded_body(body, n, next).0),
        forall|i: int|
            0 <= i < tuples::expanded_body(body, n, next).0.len() ==> !((
            #[trigger] tuples::expanded_body(body, n, next).0[i]).head is LetTuple),
    decreases n,
{
    if n > 0 {
        expanding_keeps_steady(cx, body, (n - 1) as nat, next);
        let (before, c) = tuples::expanded_body(body, (n - 1) as nat, next);
        let t = body[n - 1];
        let (these, _) = tuples::expanded(t, c);
        assert(is_steady(cx, false, t));
        if t.head is LetTuple {
            let name = synth::numbered("__dst_"@, c);
            let fields = t.head->LetTuple_0;
            numbered_is_reserved(c);
            steady_operand(cx, false, t);
            let first = synth::open_let(name, synth::operand(t), t.span);
            steady_let(cx, false, first);
            field_lets_are_steady(cx, name, fields, fields.len(), t.span);
            field_lets_are_lets(name, fields, fields.len(), t.span);
            join_steady(
                cx,
                false,
                seq![first],
                tuples::field_lets(name, fields, fields.len(), t.span),
            );
        }
        join_steady(cx, false, before, these);
        let all = tuples::expanded_body(body, n, next).0;
        assert forall|i: int| 0 <= i < all.len() implies !((#[trigger] all[i]).head is LetTuple) by {
            if i < before.len() {
                assert(all[i] == before[i]);
            } else {
                assert(all[i] == these[i - before.len()]);
            }
        }
    }
}

proof fn field_lets_are_lets(name: Text, fields: Seq<Spanned<Text>>, n: nat, span: SimpleSpan)
    requires
        n <= fields.len(),
    ensures
        forall|i: int|
            0 <= i < tuples::field_lets(name, fields, n, span).len() ==> (
            #[trigger] tuples::field_lets(name, fields, n, span)[i]).head is Let,
    decreases n,
{
    if n > 0 {
        field_lets_are_lets(name, fields, (n - 1) as nat, span);
    }
}

proof fn slot_lets_are_steady(cx: CxV, name: Text, slots: Seq<Tree>, n: nat)
    requires
        names_are_free(cx),
        reserved(name),
    ensures
        all_steady(cx, false, tuples::slot_lets(name, slots, n)),
    decreases n,
{
    if n > 1 {
        slot_lets_are_steady(cx, name, slots, (n - 1) as nat);
        let slot = slots[n - 1];
        if slot.head is Var {
            let s = synth::slot_of(name, (n - 1) as usize, slot.span);
            steady_slot(cx, false, name, (n - 1) as usize, slot.span);
            steady_let(cx, false, synth::open_let(slot.head->Var_0, s, slot.span));
        }
    }
}

proof fn steady_arm(cx: CxV, pat: Tree, body: Seq<Tree>)
    requires
        is_steady(cx, false, pat),
        all_steady(cx, false, body),
    ensures
        is_steady(cx, false, expr::arm_tree(pat, body)),
{
    let a = expr::arm_tree(pat, body);
    assert(all_steady(cx, false, seq![pat]));
    join_steady(cx, false, seq![pat], body);
    steady_node(cx, false, a);
}

proof fn splitting_an_arm_keeps_steady(cx: CxV, arm: Tree, name: Text, arity: nat)
    requires
        names_are_free(cx),
        reserved(name),
        is_steady(cx, false, arm),
        arity > 0,
    ensures
        is_steady(cx, false, tuples::split_arm(arm, name, arity)),
{
    steady_kids(cx, false, arm);
    if arm.kids.len() > 0 && arm.kids[0].head is Tuple && arm.kids[0].kids.len() == arity {
        let pat = arm.kids[0];
        assert(is_steady(cx, false, pat));
        steady_kids(cx, false, pat);
        let first = pat.kids[0];
        let rest = arm.kids.skip(1);
        assert(is_steady(cx, false, first));
        assert forall|i: int| 0 <= i < rest.len() implies is_steady(
            cx,
            false,
            #[trigger] rest[i],
        ) by {
            assert(is_steady(cx, false, arm.kids[i + 1]));
        }
        let lets = tuples::slot_lets(name, pat.kids, arity);
        slot_lets_are_steady(cx, name, pat.kids, arity);
        join_steady(cx, false, lets, rest);
        let all = lets + rest;
        match first.head {
            Head::Atom(_) | Head::Num(_, _) | Head::Str(_, _) | Head::Bool(_) => {
                steady_arm(cx, first, all);
            },
            Head::Var(v, _) => {
                if v == "_"@ {
                    steady_arm(cx, first, all);
                } else {
                    let s = synth::slot_of(name, 0, first.span);
                    let l = synth::open_let(v, s, first.span);
                    let any = synth::open_var("_"@, first.span);
                    steady_slot(cx, false, name, 0, first.span);
                    steady_let(cx, false, l);
                    steady_var(cx, false, any);
                    join_steady(cx, false, seq![l], all);
                    steady_arm(cx, any, seq![l] + all);
                }
            },
            _ => {
                let one = expr::node(Head::Tuple, pat.span, seq![first]);
                steady_node(cx, false, one);
                steady_arm(cx, one, all);
            },
        }
    }
}

proof fn splitting_a_when_keeps_steady(cx: CxV, t: Tree, next: u32)
    requires
        names_are_free(cx),
        is_steady(cx, false, t),
        t.head is When,
        t.kids.len() > 0,
    ensures
        all_steady(cx, false, tuples::split_when(t, next).0),
{
    let arms = t.kids.skip(1);
    let arity = tuples::split_arity(t.kids[0], arms);
    if arity > 0 {
        let name = synth::numbered("__wtp_"@, next);
        numbered_is_reserved(next);
        steady_kids(cx, false, t);
        assert(is_steady(cx, false, t.kids[0]));
        steady_let(cx, false, synth::open_let(name, t.kids[0], t.span));
        let parts = Seq::new(arms.len(), |i: int| tuples::split_arm(arms[i], name, arity));
        assert forall|i: int| 0 <= i < parts.len() implies is_steady(
            cx,
            false,
            #[trigger] parts[i],
        ) by {
            assert(is_steady(cx, false, t.kids[i + 1]));
            splitting_an_arm_keeps_steady(cx, arms[i], name, arity);
        }
        let s = synth::slot_of(name, 0, t.span);
        steady_slot(cx, false, name, 0, t.span);
        join_steady(cx, false, seq![s], parts);
        steady_node(cx, false, expr::node(Head::When, t.span, seq![s] + parts));
    }
}

pub proof fn splitting_inside_keeps_steady(cx: CxV, t: Tree, next: u32)
    requires
        names_are_free(cx),
        is_steady(cx, false, t),
    ensures
        is_steady(cx, false, tuples::split_in(t, next).0),
        tuples::split_in(t, next).0.head == t.head,
    decreases t, 0nat,
{
    steady_kids(cx, false, t);
    let r = tuples::split_in(t, next).0;
    match t.head {
        Head::Arm => {
            if t.kids.len() > 0 {
                let rest = t.kids.skip(1);
                assert(decreases_to!(t => rest));
                assert(is_steady(cx, false, t.kids[0]));
                splitting_inside_keeps_steady(cx, t.kids[0], next);
                let (pat, c) = tuples::split_in(t.kids[0], next);
                assert forall|i: int| 0 <= i < rest.len() implies is_steady(
                    cx,
                    false,
                    #[trigger] rest[i],
                ) by {
                    assert(is_steady(cx, false, t.kids[i + 1]));
                }
                splitting_keeps_steady(cx, rest, rest.len(), c);
                join_steady(cx, false, seq![pat], tuples::split_all(rest, rest.len(), c).0);
                steady_node(cx, false, r);
            }
        },
        Head::Handler(_) => {
            splitting_keeps_steady(cx, t.kids, t.kids.len(), next);
            steady_node(cx, false, r);
        },
        _ => {
            if tuples::looks_inside(t.head) {
                splitting_kids_keeps_steady(cx, t.kids, t.kids.len(), next);
                steady_node(cx, false, r);
            }
        },
    }
}

proof fn splitting_kids_keeps_steady(cx: CxV, ts: Seq<Tree>, n: nat, next: u32)
    requires
        names_are_free(cx),
        n <= ts.len(),
        all_steady(cx, false, ts),
    ensures
        all_steady(cx, false, tuples::split_kids(ts, n, next).0),
        tuples::split_kids(ts, n, next).0.len() == n,
    decreases ts, n,
{
    if n > 0 {
        splitting_kids_keeps_steady(cx, ts, (n - 1) as nat, next);
        let (before, c) = tuples::split_kids(ts, (n - 1) as nat, next);
        assert(is_steady(cx, false, ts[n - 1]));
        splitting_inside_keeps_steady(cx, ts[n - 1], c);
    }
}

/// Splitting keeps what is steady, splits all statements and makes no tuple
/// binding.
pub proof fn splitting_keeps_steady(cx: CxV, body: Seq<Tree>, n: nat, next: u32)
    requires
        names_are_free(cx),
        n <= body.len(),
        all_steady(cx, false, body),
    ensures
        all_steady(cx, false, tuples::split_all(body, n, next).0),
    decreases body, n,
{
    if n > 0 {
        splitting_keeps_steady(cx, body, (n - 1) as nat, next);
        let (before, c) = tuples::split_all(body, (n - 1) as nat, next);
        let t = body[n - 1];
        assert(is_steady(cx, false, t));
        splitting_inside_keeps_steady(cx, t, c);
        let (t2, c2) = tuples::split_in(t, c);
        if t2.head is When && t2.kids.len() > 0 {
            splitting_a_when_keeps_steady(cx, t2, c2);
        }
        join_steady(cx, false, before, tuples::split_stmt(t, c).0);
    }
}

// ── the caller and returns ─────────────────────────────────────────────────

/// Threading the caller leaves no call of `self` without it.
proof fn threading_makes_steady(cx: CxV, t: Tree)
    requires
        names_are_free(cx),
        is_steady(cx, false, t),
    ensures
        is_steady(cx, true, rewrite::rewritten(passes::thread_rule(), t)),
        rewrite::rewritten(passes::thread_rule(), t).head == t.head,
    decreases t,
{
    let p = passes::thread_rule();
    let t2 = Tree { kids: rewrite::rewritten_kids(p, t.head, t.kids), ..t };
    let r = rewrite::rewritten(p, t);
    steady_kids(cx, false, t);
    assert forall|i: int| 0 <= i < t2.kids.len() implies is_steady(
        cx,
        true,
        #[trigger] t2.kids[i],
    ) by {
        assert(rewrite::entered(p, t.head, i));
        assert(is_steady(cx, false, t.kids[i]));
        assert(decreases_to!(t => t.kids[i]));
        threading_makes_steady(cx, t.kids[i]);
    }
    if r != t2 {
        let caller = synth::caller_var(t.span);
        numbered_is_reserved(0);
        steady_var(cx, true, caller);
        assert(r == passes::with_first_arg(t2, caller));
        assert forall|i: int| 0 <= i < r.kids.len() implies is_steady(
            cx,
            true,
            #[trigger] r.kids[i],
        ) by {
            if i == 0 {
                assert(r.kids[0] == t2.kids[0]);
            } else if i > 1 {
                assert(r.kids[i] == t2.kids[i - 1]);
            }
        }
        assert(r.kids[1] == caller);
        assert(!passes::is_unthreaded(r));
    }
    steady_node(cx, true, r);
}

/// Whether a subexpression stays what it is for a call of `self`.
spec fn same_or_moved(a: Tree, b: Tree) -> bool {
    b.head == a.head || (!(a.head is Var) && !synth::is_var(b, "self"@))
}

proof fn node_stays_steady(cx: CxV, is_ret: bool, a: Tree, b: Tree)
    requires
        node_steady(cx, is_ret, a),
        a.head == b.head,
        a.kids.len() == b.kids.len(),
        forall|i: int| 0 <= i < a.kids.len() ==> same_or_moved(#[trigger] a.kids[i], b.kids[i]),
    ensures
        node_steady(cx, is_ret, b),
{
    if b.head is Jump && passes::is_unthreaded(b) {
        assert(same_or_moved(a.kids[0], b.kids[0]));
        if a.kids.len() >= 2 {
            assert(same_or_moved(a.kids[1], b.kids[1]));
        }
        assert(passes::is_unthreaded(a));
    }
}

proof fn returning_keeps_steady(cx: CxV, is_ret: bool, t: Tree)
    requires
        names_are_free(cx),
        is_steady(cx, is_ret, t),
    ensures
        is_steady(cx, is_ret, rewrite::rewritten(passes::ret_rule(), t)),
        same_or_moved(t, rewrite::rewritten(passes::ret_rule(), t)),
    decreases t,
{
    let p = passes::ret_rule();
    let t2 = Tree { kids: rewrite::rewritten_kids(p, t.head, t.kids), ..t };
    let r = rewrite::rewritten(p, t);
    steady_kids(cx, is_ret, t);
    assert forall|i: int| 0 <= i < t2.kids.len() implies is_steady(
        cx,
        is_ret,
        #[trigger] t2.kids[i],
    ) && same_or_moved(t.kids[i], t2.kids[i]) by {
        assert(rewrite::entered(p, t.head, i));
        assert(is_steady(cx, is_ret, t.kids[i]));
        assert(decreases_to!(t => t.kids[i]));
        returning_keeps_steady(cx, is_ret, t.kids[i]);
    }
    if r != t2 {
        assert(is_steady(cx, is_ret, t2.kids[0]));
        steady_send(cx, is_ret, t.span, t2.kids[0]);
    } else {
        if !rewrite::is_part(t.head) {
            node_stays_steady(cx, is_ret, t, t2);
        }
        steady_node(cx, is_ret, t2);
    }
}

/// The caller threaded and the returns rewritten, what is steady is steady
/// for the branch.
pub proof fn returning_bodies_keeps_steady(cx: CxV, is_ret: bool, ts: Seq<Tree>)
    requires
        names_are_free(cx),
        all_steady(cx, false, ts),
    ensures
        ({
            let b5 = if is_ret {
                rewrite::rewritten_all(passes::thread_rule(), ts)
            } else {
                ts
            };
            all_steady(cx, is_ret, rewrite::rewritten_all(passes::ret_rule(), b5))
        }),
{
    let b5 = if is_ret {
        rewrite::rewritten_all(passes::thread_rule(), ts)
    } else {
        ts
    };
    let b6 = rewrite::rewritten_all(passes::ret_rule(), b5);
    assert forall|i: int| 0 <= i < b6.len() implies is_steady(cx, is_ret, #[trigger] b6[i]) by {
        assert(is_steady(cx, false, ts[i]));
        if is_ret {
            threading_makes_steady(cx, ts[i]);
        }
        returning_keeps_steady(cx, is_ret, b5[i]);
    }
}

// ── nested calls ───────────────────────────────────────────────────────────

proof fn moving_keeps_steady(
    cx: CxV,
    is_ret: bool,
    name: Text,
    t: Tree,
    span: SimpleSpan,
    lifts: Seq<Tree>,
)
    requires
        names_are_free(cx),
        reserved(name),
        is_steady(cx, is_ret, t),
        all_steady(cx, is_ret, lifts),
    ensures
        is_steady(cx, is_ret, synth::open_var(name, span)),
        all_steady(cx, is_ret, lifts.push(synth::open_let(name, t, span))),
{
    steady_var(cx, is_ret, synth::open_var(name, span));
    steady_let(cx, is_ret, synth::open_let(name, t, span));
}

pub proof fn lifting_keeps_steady(cx: CxV, is_ret: bool, t: Tree, st: Lifted)
    requires
        names_are_free(cx),
        is_steady(cx, is_ret, t),
        all_steady(cx, is_ret, st.lifts),
    ensures
        is_steady(cx, is_ret, lift::lifted(t, st).0),
        all_steady(cx, is_ret, lift::lifted(t, st).1.lifts),
        lift::lifted(t, st).0.head == t.head,
    decreases t, 0nat,
{
    steady_kids(cx, is_ret, t);
    lifting_kids_keeps_steady(cx, is_ret, t.head, t.kids, t.kids.len(), st);
    let r = lift::lifted(t, st).0;
    if !rewrite::is_part(t.head) {
        node_stays_steady(cx, is_ret, t, r);
    }
    steady_node(cx, is_ret, r);
}

proof fn lifting_kids_keeps_steady(
    cx: CxV,
    is_ret: bool,
    head: Head,
    ts: Seq<Tree>,
    n: nat,
    st: Lifted,
)
    requires
        names_are_free(cx),
        n <= ts.len(),
        all_steady(cx, is_ret, ts),
        all_steady(cx, is_ret, st.lifts),
    ensures
        lift::lifted_kids(head, ts, n, st).0.len() == n,
        all_steady(cx, is_ret, lift::lifted_kids(head, ts, n, st).0),
        all_steady(cx, is_ret, lift::lifted_kids(head, ts, n, st).1.lifts),
        forall|i: int|
            0 <= i < n ==> same_or_moved(
                #[trigger] ts[i],
                lift::lifted_kids(head, ts, n, st).0[i],
            ),
    decreases ts, n,
{
    if n > 0 {
        lifting_kids_keeps_steady(cx, is_ret, head, ts, (n - 1) as nat, st);
        let (ks, s1) = lift::lifted_kids(head, ts, (n - 1) as nat, st);
        let t = ts[n - 1];
        assert(is_steady(cx, is_ret, t));
        lifting_keeps_steady(cx, is_ret, t, s1);
        let (r, s) = lift::lifted(t, s1);
        numbered_is_reserved(s.next);
        lifted_names_differ(s.next);
        moving_keeps_steady(
            cx,
            is_ret,
            synth::numbered("__lift_"@, s.next),
            r,
            t.span,
            s.lifts,
        );
        moving_keeps_steady(
            cx,
            is_ret,
            synth::numbered("__anf_tmp"@, s.next),
            r,
            t.span,
            s.lifts,
        );
        let (kids, st2) = lift::lifted_kids(head, ts, n, st);
        assert(kids =~= ks.push(kids.last()));
        assert(same_or_moved(t, kids.last()));
        assert forall|i: int| 0 <= i < n implies same_or_moved(#[trigger] ts[i], kids[i]) by {
            if i < n - 1 {
                assert(kids[i] == ks[i]);
            }
        }
    }
}

pub proof fn lifting_a_body_keeps_steady(
    cx: CxV,
    is_ret: bool,
    body: Seq<Tree>,
    n: nat,
    next: u32,
)
    requires
        names_are_free(cx),
        n <= body.len(),
        all_steady(cx, is_ret, body),
    ensures
        all_steady(cx, is_ret, lift::lifted_body(body, n, next).lifts),
    decreases n,
{
    if n > 0 {
        lifting_a_body_keeps_steady(cx, is_ret, body, (n - 1) as nat, next);
        let st = lift::lifted_body(body, (n - 1) as nat, next);
        assert(is_steady(cx, is_ret, body[n - 1]));
        lifting_keeps_steady(cx, is_ret, body[n - 1], st);
    }
}

// ── calls and sends ────────────────────────────────────────────────────────

pub proof fn pinning_keeps_steady(cx: CxV, is_ret: bool, t: Tree, next: u32)
    requires
        is_steady(cx, is_ret, t),
    ensures
        is_steady(cx, is_ret, calls::pinned(t, next).0),
{
    if t.head is Pin {
        steady_operand(cx, is_ret, t);
        steady_let(cx, is_ret, calls::pinned(t, next).0);
    }
}

pub proof fn discarding_keeps_steady(cx: CxV, is_ret: bool, t: Tree, next: u32)
    requires
        is_steady(cx, is_ret, t),
    ensures
        is_steady(cx, is_ret, calls::discarded(cx, t, next).0),
{
    let r = calls::discarded(cx, t, next).0;
    if r != t {
        steady_let(cx, is_ret, r);
    }
}

pub proof fn awaiting_keeps_steady(
    cx: CxV,
    is_ret: bool,
    t: Tree,
    ret: Text,
    rest: Seq<Tree>,
    id: u32,
)
    requires
        names_are_free(cx),
        is_steady(cx, is_ret, t),
        calls::binds_ret(cx, t),
        all_steady(cx, is_ret, rest),
    ensures
        is_steady(cx, is_ret, calls::awaited(t, ret, rest, id)[0]),
        is_steady(cx, is_ret, calls::awaited(t, ret, rest, id)[1]),
{
    steady_kids(cx, is_ret, t);
    let call = t.kids[0];
    assert(is_steady(cx, is_ret, call));
    steady_kids(cx, is_ret, call);
    let s = calls::with_self(call, t.span);
    let me = synth::self_tree(t.span);
    numbered_is_reserved(id);
    steady_var(cx, is_ret, me);
    assert forall|i: int| 0 <= i < s.kids.len() implies is_steady(
        cx,
        is_ret,
        #[trigger] s.kids[i],
    ) by {
        if i == 0 {
            assert(is_steady(cx, is_ret, call.kids[0]));
        } else if i > 1 {
            assert(s.kids[i] == call.kids[i - 1]);
        }
    }
    assert(s.kids[0] == call.kids[0]);
    assert(!synth::is_var(call.kids[0], "self"@));
    steady_node(cx, is_ret, s);
    let out = calls::awaited(t, ret, rest, id);
    steady_let(cx, is_ret, out[0]);
    let wait = out[1];
    let filter = wait.kids[0];
    let handler = wait.kids[1];
    steady_var(cx, is_ret, filter.kids[0]);
    steady_node(cx, is_ret, filter);
    steady_node(cx, is_ret, handler);
    steady_node(cx, is_ret, wait);
}

pub proof fn wrapping_keeps_steady(cx: CxV, is_ret: bool, ts: Seq<Tree>)
    requires
        names_are_free(cx),
        all_steady(cx, is_ret, ts),
    ensures
        all_steady(cx, is_ret, tail::wrapped_body(ts)),
    decreases ts, 0nat,
{
    if ts.len() > 0 {
        let t = ts[ts.len() - 1];
        assert(is_steady(cx, is_ret, t));
        assert(decreases_to!(ts => t));
        wrapping_a_tail_keeps_steady(cx, is_ret, t);
        assert forall|i: int| 0 <= i < ts.drop_last().len() implies is_steady(
            cx,
            is_ret,
            #[trigger] ts.drop_last()[i],
        ) by {
            assert(is_steady(cx, is_ret, ts[i]));
        }
        join_steady(cx, is_ret, ts.drop_last(), tail::wrapped_tail(t));
    }
}

proof fn wrapping_a_tail_keeps_steady(cx: CxV, is_ret: bool, t: Tree)
    requires
        names_are_free(cx),
        is_steady(cx, is_ret, t),
    ensures
        all_steady(cx, is_ret, tail::wrapped_tail(t)),
    decreases t, 0nat,
{
    steady_kids(cx, is_ret, t);
    match t.head {
        Head::When | Head::Wait => {
            let r = Tree { kids: tail::wrapped_parts(t.kids), ..t };
            assert forall|i: int| 0 <= i < r.kids.len() implies is_steady(
                cx,
                is_ret,
                #[trigger] r.kids[i],
            ) by {
                assert(is_steady(cx, is_ret, t.kids[i]));
                if i >= 1 {
                    assert(decreases_to!(t => t.kids[i]));
                    wrapping_a_part_keeps_steady(cx, is_ret, t.kids[i]);
                }
            }
            steady_node(cx, is_ret, r);
            assert(tail::wrapped_tail(t) =~= seq![r]);
        },
        Head::Pin | Head::Let(_, _) => {
            steady_leaf(cx, is_ret, synth::null_pid(t.span));
            steady_send(cx, is_ret, t.span, synth::null_pid(t.span));
        },
        _ => {
            steady_send(cx, is_ret, t.span, t);
        },
    }
}

proof fn wrapping_a_part_keeps_steady(cx: CxV, is_ret: bool, part: Tree)
    requires
        names_are_free(cx),
        is_steady(cx, is_ret, part),
    ensures
        is_steady(cx, is_ret, tail::wrapped_part(part)),
    decreases part, 1nat,
{
    steady_kids(cx, is_ret, part);
    let k = tail::body_start(part) as int;
    if part.kids.len() > k {
        let rest = part.kids.skip(k);
        assert(decreases_to!(part => part.kids));
        assert(k > 0 ==> decreases_to!(part.kids => part.kids.skip(k)));
        assert(part.kids.skip(0) =~= part.kids);
        assert forall|i: int| 0 <= i < rest.len() implies is_steady(
            cx,
            is_ret,
            #[trigger] rest[i],
        ) by {
            assert(is_steady(cx, is_ret, part.kids[k + i]));
        }
        let first = part.kids.take(k);
        assert forall|i: int| 0 <= i < first.len() implies is_steady(
            cx,
            is_ret,
            #[trigger] first[i],
        ) by {
            assert(is_steady(cx, is_ret, part.kids[i]));
        }
        wrapping_keeps_steady(cx, is_ret, rest);
        join_steady(cx, is_ret, first, tail::wrapped_body(rest));
        let r = tail::wrapped_part(part);
        if !rewrite::is_part(part.head) {
            assert(r == part);
        } else {
            steady_node(cx, is_ret, r);
        }
    }
}

} // verus!
