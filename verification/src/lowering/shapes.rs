//! What becomes of expressions and statements on the way down.

use vstd::prelude::*;

use crate::api::ast::{ItemV, MachineItemV, PatternV, TypeV};
use crate::api::expr;
use crate::api::expr::{Head, Tree};
use crate::lowering::calls;
use crate::lowering::expand::CxV;
use crate::lowering::lift;
use crate::lowering::lift::Lifted;
use crate::lowering::passes;
use crate::lowering::program;
use crate::lowering::pure;
use crate::lowering::pure::{RetKeyV, TemplateV};
use crate::lowering::synth;
use crate::lowering::tuples;
use crate::order::{picks, picks_last, picks_no_more, picks_not_last, picks_one_more};
use crate::registry::{ConstValueV, ModuleId, RegistryV, ResolutionV};
use crate::rewrite;
use crate::span::Spanned;
use crate::text;
use crate::text::Text;

verus! {

/// Whether an expression is the variable `name`.
pub open spec fn names(t: Tree, name: Text) -> bool {
    t.kids.len() == 0 && match t.head {
        Head::Var(n, _) => n == name,
        _ => false,
    }
}

// ── answers ────────────────────────────────────────────────────────────────

/// Whether `u` is `t` with every `ret x` made a call of the caller, with
/// `self` and `x`.
pub open spec fn answers(t: Tree, u: Tree) -> bool
    decreases t,
{
    u.span == t.span && if t.head is Ret && t.kids.len() == 1 {
        &&& u.head is Jump
        &&& u.kids.len() == 3
        &&& names(u.kids[0], "__caller"@)
        &&& names(u.kids[1], "self"@)
        &&& answers(t.kids[0], u.kids[2])
    } else {
        &&& u.head == t.head
        &&& u.kids.len() == t.kids.len()
        &&& forall|i: int| 0 <= i < t.kids.len() ==> answers(#[trigger] t.kids[i], u.kids[i])
    }
}

/// A `ret` answers the caller with its value, and nothing else changes.
pub proof fn returns_answer_the_caller(t: Tree)
    ensures
        answers(t, rewrite::rewritten(passes::ret_rule(), t)),
    decreases t,
{
    let p = passes::ret_rule();
    let u = rewrite::rewritten(p, t);
    let kids = rewrite::rewritten_kids(p, t.head, t.kids);
    assert forall|i: int| 0 <= i < t.kids.len() implies answers(#[trigger] t.kids[i], kids[i]) by {
        returns_answer_the_caller(t.kids[i]);
        assert(rewrite::entered(p, t.head, i));
    }
    if t.head is Ret && t.kids.len() == 1 {
        assert(answers(t.kids[0], kids[0]));
        assert(u == synth::caller_send(t.span, kids[0]));
    }
}

/// Whether a call is one of `self` without the caller in front.
pub open spec fn is_own_call(t: Tree) -> bool {
    &&& t.head is Jump
    &&& t.kids.len() > 0
    &&& names_var(t.kids[0], "self"@)
    &&& t.kids.len() == 1 || !names_var(t.kids[1], "__caller"@)
}

/// Whether an expression is a variable called `name`.
pub open spec fn names_var(t: Tree, name: Text) -> bool {
    match t.head {
        Head::Var(n, _) => n == name,
        _ => false,
    }
}

/// Whether `u` is `t` with the caller as the first argument of every call of
/// `self`, and the arguments behind it.
pub open spec fn hands_on(t: Tree, u: Tree) -> bool
    decreases t,
{
    &&& u.span == t.span
    &&& u.head == t.head
    &&& if is_own_call(t) {
        &&& u.kids.len() == t.kids.len() + 1
        &&& names(u.kids[1], "__caller"@)
        &&& hands_on(t.kids[0], u.kids[0])
        &&& forall|i: int| 0 < i < t.kids.len() ==> hands_on(#[trigger] t.kids[i], u.kids[i + 1])
    } else {
        &&& u.kids.len() == t.kids.len()
        &&& forall|i: int| 0 <= i < t.kids.len() ==> hands_on(#[trigger] t.kids[i], u.kids[i])
    }
}

/// Calls of `self` hand on the caller in front of their arguments, and nothing
/// else changes.
pub proof fn own_calls_hand_on_the_caller(t: Tree)
    ensures
        hands_on(t, rewrite::rewritten(passes::thread_rule(), t)),
    decreases t,
{
    let p = passes::thread_rule();
    let u = rewrite::rewritten(p, t);
    let kids = rewrite::rewritten_kids(p, t.head, t.kids);
    assert forall|i: int| 0 <= i < t.kids.len() implies hands_on(#[trigger] t.kids[i], kids[i])
        && kids[i].head == t.kids[i].head by {
        own_calls_hand_on_the_caller(t.kids[i]);
        assert(rewrite::entered(p, t.head, i));
    }
    if t.head is Jump && t.kids.len() > 0 {
        assert(hands_on(t.kids[0], kids[0]));
        assert(kids[0].head == t.kids[0].head);
        if t.kids.len() > 1 {
            assert(kids[1].head == t.kids[1].head);
        }
    }
    if is_own_call(t) {
        let t2 = Tree { kids, ..t };
        assert(u == passes::with_first_arg(t2, synth::caller_var(t.span)));
        assert forall|i: int| 0 < i < t.kids.len() implies hands_on(
            #[trigger] t.kids[i],
            u.kids[i + 1],
        ) by {
            assert(u.kids[i + 1] == kids[i]);
        }
        assert(u.kids[0] == kids[0]);
    }
}

// ── constants and symbols ──────────────────────────────────────────────────

/// Whether a literal says a value.
pub open spec fn says_value(t: Tree, v: ConstValueV) -> bool {
    t.kids.len() == 0 && match v {
        ConstValueV::Int(n) => n >= 0 ==> match t.head {
            Head::Num(s, ty) => expr::int_literal(s) == Some(n) && ty == TypeV::Named(
                Spanned { inner: "i64"@, span: t.span },
            ),
            _ => false,
        },
        ConstValueV::Bool(b) => t.head == Head::Bool(b),
        ConstValueV::Str(s) => match t.head {
            Head::Str(w, ty) => w == s && ty == TypeV::Named(
                Spanned { inner: "str"@, span: t.span },
            ),
            _ => false,
        },
        ConstValueV::Atom(s) => t.head == Head::Atom(s),
    }
}

/// A number in decimal is a literal of that number.
pub proof fn decimals_read_back(n: nat)
    ensures
        expr::all_digits(text::decimal(n), 10),
        expr::digits_value(text::decimal(n), 10) == n,
        n <= i64::MAX ==> expr::int_literal(text::decimal(n)) == Some(n as i64),
        n <= usize::MAX ==> expr::index_literal(text::decimal(n)) == Some(n as usize),
    decreases n,
{
    let s = text::decimal(n);
    if n < 10 {
        assert(s.drop_last() =~= Seq::<char>::empty());
        assert(s.last() == text::digit_char(n));
        assert(expr::digits_value(s.drop_last(), 10) == 0);
        assert(expr::digit_value(text::digit_char(n)) == n);
    } else {
        let before = text::decimal(n / 10);
        decimals_read_back(n / 10);
        assert(s.drop_last() =~= before);
        assert(s.last() == text::digit_char(n % 10));
        assert(expr::digit_value(text::digit_char(n % 10)) == n % 10);
        assert forall|i: int| 0 <= i < s.len() implies expr::digit_value(#[trigger] s[i]) < 10 by {
            if i < before.len() {
                assert(s[i] == before[i]);
            }
        }
    }
    if s.len() >= 2 {
        assert(expr::digit_value(s[1]) < 10);
    }
}

/// The digits of literals, by what they count.
pub proof fn digits_count(c: char)
    ensures
        forall|k: int|
            0 <= k < 16 && (c == #[trigger] "0123456789abcdef"@[k] || c == "0123456789ABCDEF"@[k])
                ==> expr::digit_value(c) == k,
{
    reveal_strlit("0123456789abcdef");
    reveal_strlit("0123456789ABCDEF");
}

/// Whether `u` is `t` with every name of a constant made a literal of its
/// value, at the place of the name.
pub open spec fn has_values(reg: RegistryV, id: ModuleId, t: Tree, u: Tree) -> bool
    decreases t,
{
    u.span == t.span && match t.head {
        Head::Var(name, _) => match reg.resolved(id, name) {
            Some(ResolutionV::Const(c)) => says_value(u, c.value),
            _ => has_values_below(reg, id, t, u),
        },
        _ => has_values_below(reg, id, t, u),
    }
}

pub open spec fn has_values_below(reg: RegistryV, id: ModuleId, t: Tree, u: Tree) -> bool
    decreases t, 0nat,
{
    &&& u.head == t.head
    &&& u.kids.len() == t.kids.len()
    &&& forall|i: int| 0 <= i < t.kids.len() ==> has_values(reg, id, #[trigger] t.kids[i], u.kids[i])
}

/// The name of a constant becomes a literal of its value, and nothing else
/// changes.
pub proof fn constants_become_their_values(reg: RegistryV, id: ModuleId, t: Tree)
    ensures
        has_values(reg, id, t, rewrite::rewritten(passes::inline_rule(reg, id), t)),
    decreases t,
{
    let p = passes::inline_rule(reg, id);
    let kids = rewrite::rewritten_kids(p, t.head, t.kids);
    assert forall|i: int| 0 <= i < t.kids.len() implies has_values(
        reg,
        id,
        #[trigger] t.kids[i],
        kids[i],
    ) by {
        constants_become_their_values(reg, id, t.kids[i]);
        assert(rewrite::entered(p, t.head, i));
    }
    if let Head::Var(name, _) = t.head {
        if let Some(ResolutionV::Const(c)) = reg.resolved(id, name) {
            if let ConstValueV::Int(n) = c.value {
                if n >= 0 {
                    decimals_read_back(n as nat);
                }
            }
        }
    }
}

// ── tuple bindings ─────────────────────────────────────────────────────────

/// Whether a statement is `let name = value`.
pub open spec fn binds(t: Tree, name: Text, value: Tree) -> bool {
    t.kids.len() == 1 && t.kids[0] == value && match t.head {
        Head::Let(ident, _) => ident.inner == name,
        _ => false,
    }
}

/// Whether a statement binds `name` to slot `k` of the tuple called `whole`.
pub open spec fn binds_slot(t: Tree, name: Text, whole: Text, k: int) -> bool {
    t.kids.len() == 1 && match t.head {
        Head::Let(ident, _) => ident.inner == name,
        _ => false,
    } && is_slot(t.kids[0], whole, k)
}

/// Whether an expression is slot `k` of the tuple called `whole`.
pub open spec fn is_slot(t: Tree, whole: Text, k: int) -> bool {
    t.kids.len() == 1 && names(t.kids[0], whole) && match t.head {
        Head::TupleIndex(n) => n == k,
        _ => false,
    }
}

/// What a statement becomes once tuple bindings are gone: `let {a b} = e` a
/// name for `e`, then `a` bound to its slot 0, `b` to its slot 1, and so on;
/// any other statement stays.
pub open spec fn takes_apart(t: Tree, us: Seq<Tree>, next: u32) -> bool {
    match t.head {
        Head::LetTuple(fields) => {
            let whole = synth::numbered("__dst_"@, next);
            &&& us.len() == fields.len() + 1
            &&& t.kids.len() > 0 ==> binds(us[0], whole, t.kids[0])
            &&& forall|k: int|
                0 <= k < fields.len() ==> binds_slot(
                    us[k + 1],
                    (#[trigger] fields[k]).inner,
                    whole,
                    k,
                )
        },
        _ => us == seq![t],
    }
}

proof fn lets_bind_slots(
    name: Text,
    fields: Seq<Spanned<Text>>,
    n: nat,
    span: crate::span::SimpleSpan,
)
    requires
        n <= fields.len() <= usize::MAX,
    ensures
        tuples::field_lets(name, fields, n, span).len() == n,
        forall|k: int|
            0 <= k < n ==> binds_slot(
                tuples::field_lets(name, fields, n, span)[k],
                (#[trigger] fields[k]).inner,
                name,
                k,
            ),
    decreases n,
{
    if n > 0 {
        lets_bind_slots(name, fields, (n - 1) as nat, span);
    }
}

/// A tuple binding gives each name the slot at its place.
pub proof fn tuple_bindings_take_apart(t: Tree, next: u32)
    requires
        t.head matches Head::LetTuple(fields) ==> fields.len() <= usize::MAX,
    ensures
        takes_apart(t, tuples::expanded(t, next).0, next),
{
    if let Head::LetTuple(fields) = t.head {
        let name = synth::numbered("__dst_"@, next);
        lets_bind_slots(name, fields, fields.len(), t.span);
        let us = tuples::expanded(t, next).0;
        let lets = tuples::field_lets(name, fields, fields.len(), t.span);
        assert forall|k: int| 0 <= k < fields.len() implies binds_slot(
            us[k + 1],
            (#[trigger] fields[k]).inner,
            name,
            k,
        ) by {
            assert(us[k + 1] == lets[k]);
        }
    }
}

// ── bodies ─────────────────────────────────────────────────────────────────

/// Whether `cuts` part a sequence of length `len` into `n` pieces, one behind
/// the other: piece `k` goes from `cuts[k]` up to `cuts[k + 1]`.
pub open spec fn parts(cuts: Seq<int>, n: nat, len: nat) -> bool {
    &&& cuts.len() == n + 1
    &&& cuts[0] == 0
    &&& cuts[n as int] == len
    &&& forall|k: int| 0 <= k < n ==> 0 <= #[trigger] cuts[k] <= cuts[k + 1] <= len
}

proof fn parts_one_more(cuts: Seq<int>, n: nat, len: nat, more: nat)
    requires
        parts(cuts, n, len),
        len <= more,
    ensures
        parts(cuts.push(more as int), n + 1, more),
{
    let all = cuts.push(more as int);
    assert forall|k: int| 0 <= k < n + 1 implies 0 <= #[trigger] all[k] <= all[k + 1] <= more by {
        if k < n {
            assert(all[k] == cuts[k]);
            assert(all[k + 1] == cuts[k + 1]);
        } else {
            assert(all[k] == len);
        }
    }
}

/// Whether the piece of `out` from `i` up to `j` is the statement `t` with its
/// tuple binding taken apart.
pub open spec fn is_apart(t: Tree, out: Seq<Tree>, i: int, j: int) -> bool {
    exists|next: u32| #[trigger] takes_apart(t, out.subrange(i, j), next)
}

/// Whether `out` is the first `n` statements of a body in their order, each
/// with its tuple binding taken apart.
pub open spec fn are_apart(body: Seq<Tree>, n: nat, out: Seq<Tree>) -> bool {
    exists|cuts: Seq<int>|
        {
            &&& #[trigger] parts(cuts, n, out.len())
            &&& forall|k: int|
                0 <= k < n ==> is_apart(#[trigger] body[k], out, cuts[k], cuts[k + 1])
        }
}

/// Whether a body has no binding of more slots than can be counted.
pub open spec fn has_countable_fields(body: Seq<Tree>) -> bool {
    forall|i: int|
        0 <= i < body.len() ==> match (#[trigger] body[i]).head {
            Head::LetTuple(fields) => fields.len() <= usize::MAX,
            _ => true,
        }
}

/// A body with its tuple bindings taken apart is what its statements become,
/// in their order.
pub proof fn bodies_are_taken_apart_in_order(body: Seq<Tree>, n: nat, next: u32)
    requires
        n <= body.len(),
        has_countable_fields(body),
    ensures
        are_apart(body, n, tuples::expanded_body(body, n, next).0),
    decreases n,
{
    let out = tuples::expanded_body(body, n, next).0;
    if n == 0 {
        assert(parts(seq![0int], n, out.len()));
    } else {
        let m = (n - 1) as nat;
        bodies_are_taken_apart_in_order(body, m, next);
        let (was, c) = tuples::expanded_body(body, m, next);
        let cuts = choose|cuts: Seq<int>|
            {
                &&& #[trigger] parts(cuts, m, was.len())
                &&& forall|k: int|
                    0 <= k < m ==> is_apart(#[trigger] body[k], was, cuts[k], cuts[k + 1])
            };
        let these = tuples::expanded(body[n - 1], c).0;
        tuple_bindings_take_apart(body[n - 1], c);
        parts_one_more(cuts, m, was.len(), out.len());
        let all = cuts.push(out.len() as int);
        assert forall|k: int| 0 <= k < n implies is_apart(
            #[trigger] body[k],
            out,
            all[k],
            all[k + 1],
        ) by {
            if k < m {
                assert(is_apart(body[k], was, cuts[k], cuts[k + 1]));
                assert(out.subrange(cuts[k], cuts[k + 1]) =~= was.subrange(cuts[k], cuts[k + 1]));
            } else {
                assert(out.subrange(was.len() as int, out.len() as int) =~= these);
            }
        }
    }
}

// ── arms ───────────────────────────────────────────────────────────────────

/// Whether slot `k` of a pattern is a name for what stands there.
pub open spec fn slot_names(slots: Seq<Tree>) -> spec_fn(int) -> bool {
    |k: int|
        match slots[k].head {
            Head::Var(v, _) => v != "_"@,
            _ => false,
        }
}

/// Whether `lets` bind, in order, the names among the slots from `from` on,
/// each to the slot at its place in the tuple called `whole`.
pub open spec fn bind_slots(lets: Seq<Tree>, slots: Seq<Tree>, from: int, whole: Text) -> bool {
    exists|at: Seq<int>|
        {
            &&& #[trigger] picks(at, from, slots.len(), slot_names(slots))
            &&& lets.len() == at.len()
            &&& forall|k: int|
                0 <= k < lets.len() ==> match slots[at[k]].head {
                    Head::Var(v, _) => binds_slot(#[trigger] lets[k], v, whole, at[k]),
                    _ => false,
                }
        }
}

/// Whether `u` is the arm `t` of a `when` on a tuple, made an arm of a `when`
/// on the first slot of the tuple called `whole`: it asks of the first slot
/// what `t` asks, and binds the names of `t` before its body.
pub open spec fn splits(t: Tree, u: Tree, whole: Text) -> bool {
    let slots = t.kids[0].kids;
    let first = slots[0];
    &&& u.head is Arm
    &&& u.kids.len() > 0
    &&& exists|m: int|
        {
            &&& 1 <= m <= u.kids.len()
            &&& #[trigger] u.kids.skip(m) == t.kids.skip(1)
            &&& bind_slots(u.kids.subrange(1, m), slots, 0, whole)
        }
    &&& match first.head {
        Head::Var(_, _) => names_var(u.kids[0], "_"@),
        Head::Atom(_) | Head::Num(_, _) | Head::Str(_, _) | Head::Bool(_) => u.kids[0] == first,
        _ => u.kids[0].head is Tuple && u.kids[0].kids == seq![first],
    }
}

proof fn slot_lets_bind(name: Text, slots: Seq<Tree>, n: nat) -> (at: Seq<int>)
    requires
        1 <= n <= slots.len() <= usize::MAX,
    ensures
        ({
            let lets = tuples::slot_lets(name, slots, n);
            &&& picks(at, 1, n, slot_names(slots))
            &&& lets.len() == at.len()
            &&& forall|k: int|
                0 <= k < lets.len() ==> match slots[at[k]].head {
                    Head::Var(v, _) => binds_slot(#[trigger] lets[k], v, name, at[k]),
                    _ => false,
                }
        }),
    decreases n,
{
    let p = slot_names(slots);
    if n <= 1 {
        Seq::empty()
    } else {
        let was = slot_lets_bind(name, slots, (n - 1) as nat);
        let lets = tuples::slot_lets(name, slots, n);
        if p(n - 1) {
            let at = was.push(n - 1);
            assert forall|i: int| 1 <= i < n && #[trigger] p(i) implies at.contains(i) by {
                if i < n - 1 {
                    let k = choose|k: int| 0 <= k < was.len() && was[k] == i;
                    assert(at[k] == i);
                } else {
                    assert(at[was.len() as int] == i);
                }
            }
            assert forall|k: int| 0 <= k < lets.len() implies match slots[at[k]].head {
                Head::Var(v, _) => binds_slot(#[trigger] lets[k], v, name, at[k]),
                _ => false,
            } by {
                let before = tuples::slot_lets(name, slots, (n - 1) as nat);
                if k < was.len() {
                    assert(lets[k] == before[k]);
                    assert(at[k] == was[k]);
                }
            }
            at
        } else {
            assert forall|i: int| 1 <= i < n && #[trigger] p(i) implies was.contains(i) by {
                assert(i != n - 1);
            }
            was
        }
    }
}

/// An arm on a tuple, split, asks the same of the first slot and binds the
/// same names to the slots at their places.
pub proof fn split_arms_bind_their_slots(t: Tree, whole: Text)
    requires
        t.head is Arm,
        t.kids.len() > 0,
        t.kids[0].head is Tuple,
        0 < t.kids[0].kids.len() <= usize::MAX,
    ensures
        splits(t, tuples::split_arm(t, whole, t.kids[0].kids.len()), whole),
{
    let slots = t.kids[0].kids;
    let arity = slots.len();
    let first = slots[0];
    let u = tuples::split_arm(t, whole, arity);
    let p = slot_names(slots);
    let at = slot_lets_bind(whole, slots, arity);
    let lets = tuples::slot_lets(whole, slots, arity);
    let body = t.kids.skip(1);
    if p(0) {
        let v = first.head->Var_0;
        let one = synth::open_let(v, synth::slot_of(whole, 0, first.span), first.span);
        let m = lets.len() + 2;
        picks_one_more(at, 0, arity, p);
        let all = seq![0int] + at;
        assert(u.kids.subrange(1, m as int) =~= seq![one] + lets);
        assert(u.kids.skip(m as int) =~= body);
        let more = seq![one] + lets;
        assert forall|k: int| 0 <= k < more.len() implies match slots[all[k]].head {
            Head::Var(w, _) => binds_slot(#[trigger] more[k], w, whole, all[k]),
            _ => false,
        } by {
            if k > 0 {
                assert(more[k] == lets[k - 1]);
                assert(all[k] == at[k - 1]);
            }
        }
        assert(bind_slots(more, slots, 0, whole));
    } else {
        let m = lets.len() + 1;
        picks_no_more(at, 0, arity, p);
        assert(u.kids.subrange(1, m as int) =~= lets);
        assert(u.kids.skip(m as int) =~= body);
        assert(bind_slots(lets, slots, 0, whole));
    }
}

/// A `when` on a tuple becomes a name for its subject and a `when` on the
/// first slot of it, with an arm for every arm, in their order; an arm of
/// another number of slots stays.
pub proof fn split_whens_ask_the_first_slot(t: Tree, next: u32)
    requires
        t.head is When,
        t.kids.len() > 0,
        tuples::split_arity(t.kids[0], t.kids.skip(1)) > 0,
        tuples::split_arity(t.kids[0], t.kids.skip(1)) <= usize::MAX,
        forall|i: int| 0 < i < t.kids.len() ==> (#[trigger] t.kids[i]).head is Arm,
    ensures
        ({
            let whole = synth::numbered("__wtp_"@, next);
            let us = tuples::split_when(t, next).0;
            &&& us.len() == 2
            &&& binds(us[0], whole, t.kids[0])
            &&& us[1].head is When
            &&& us[1].kids.len() == t.kids.len()
            &&& is_slot(us[1].kids[0], whole, 0)
            &&& forall|i: int|
                0 < i < t.kids.len() ==> {
                    ||| us[1].kids[i] == #[trigger] t.kids[i]
                    ||| splits(t.kids[i], us[1].kids[i], whole)
                }
            &&& forall|i: int|
                0 < i < t.kids.len() && (#[trigger] t.kids[i]).kids.len() > 0
                    && t.kids[i].kids[0].head is Tuple && t.kids[i].kids[0].kids.len()
                    == tuples::split_arity(t.kids[0], t.kids.skip(1)) ==> splits(
                    t.kids[i],
                    us[1].kids[i],
                    whole,
                )
        }),
{
    let arms = t.kids.skip(1);
    let whole = synth::numbered("__wtp_"@, next);
    let us = tuples::split_when(t, next).0;
    let arity = tuples::split_arity(t.kids[0], arms);
    assert forall|i: int| 0 < i < t.kids.len() implies {
        &&& us[1].kids[i] == #[trigger] t.kids[i] || splits(t.kids[i], us[1].kids[i], whole)
        &&& t.kids[i].kids.len() > 0 && t.kids[i].kids[0].head is Tuple
            && t.kids[i].kids[0].kids.len() == arity ==> splits(t.kids[i], us[1].kids[i], whole)
    } by {
        assert(arms[i - 1] == t.kids[i]);
        assert(us[1].kids[i] == tuples::split_arm(arms[i - 1], whole, arity));
        let arm = t.kids[i];
        if arm.kids.len() > 0 && arm.kids[0].head is Tuple && arm.kids[0].kids.len() == arity {
            split_arms_bind_their_slots(arm, whole);
        }
    }
}

// ── lifting ────────────────────────────────────────────────────────────────

/// Whether `u`, with the bindings of `lets` from `i` up to `j` put back, is
/// `t`.  The bindings are put back from left to right, each of them once.
pub open spec fn puts_back(t: Tree, u: Tree, lets: Seq<Tree>, i: int, j: int) -> bool
    decreases j - i, u,
{
    ||| t == u && i == j
    ||| is_bound_last(u, lets, i, j) && puts_back(t, lets[j - 1].kids[0], lets, i, j - 1)
    ||| {
        &&& t.head == u.head
        &&& t.span == u.span
        &&& t.kids.len() == u.kids.len()
        &&& exists|at: Seq<int>|
            {
                &&& #[trigger] spans(at, u.kids.len(), i, j)
                &&& forall|n: int|
                    0 <= n < u.kids.len() && i <= at[n] <= at[n + 1] <= j ==> puts_back(
                        t.kids[n],
                        #[trigger] u.kids[n],
                        lets,
                        at[n],
                        at[n + 1],
                    )
            }
    }
}

/// Whether `u` is the name that the last of the bindings up to `j` gives.
pub open spec fn is_bound_last(u: Tree, lets: Seq<Tree>, i: int, j: int) -> bool {
    &&& i < j <= lets.len()
    &&& lets[j - 1].kids.len() == 1
    &&& match lets[j - 1].head {
        Head::Let(ident, _) => names(u, ident.inner),
        _ => false,
    }
}

/// Whether `at` are the places at which `n` neighbouring stretches from `i` up
/// to `j` begin and end.
pub open spec fn spans(at: Seq<int>, n: nat, i: int, j: int) -> bool {
    &&& at.len() == n + 1
    &&& at[0] == i
    &&& at[n as int] == j
    &&& forall|k: int| 0 <= k < n ==> i <= #[trigger] at[k] <= at[k + 1] <= j
}

proof fn puts_back_whatever_follows(
    t: Tree,
    u: Tree,
    a: Seq<Tree>,
    b: Seq<Tree>,
    i: int,
    j: int,
)
    requires
        puts_back(t, u, a, i, j),
        0 <= i <= j <= a.len() <= b.len(),
        forall|k: int| i <= k < j ==> #[trigger] a[k] == b[k],
    ensures
        puts_back(t, u, b, i, j),
    decreases j - i, u,
{
    if t == u && i == j {
    } else if is_bound_last(u, a, i, j) && puts_back(t, a[j - 1].kids[0], a, i, j - 1) {
        assert(a[j - 1] == b[j - 1]);
        puts_back_whatever_follows(t, a[j - 1].kids[0], a, b, i, j - 1);
    } else {
        let at = choose|at: Seq<int>|
            {
                &&& #[trigger] spans(at, u.kids.len(), i, j)
                &&& forall|n: int|
                    0 <= n < u.kids.len() && i <= at[n] <= at[n + 1] <= j ==> puts_back(
                        t.kids[n],
                        #[trigger] u.kids[n],
                        a,
                        at[n],
                        at[n + 1],
                    )
            };
        assert forall|n: int|
            0 <= n < u.kids.len() && i <= at[n] <= at[n + 1] <= j implies puts_back(
            t.kids[n],
            #[trigger] u.kids[n],
            b,
            at[n],
            at[n + 1],
        ) by {
            puts_back_whatever_follows(t.kids[n], u.kids[n], a, b, at[n], at[n + 1]);
        }
        assert(spans(at, u.kids.len(), i, j));
    }
}

/// Whether `b` begins with `a`.
spec fn goes_on(a: Seq<Tree>, b: Seq<Tree>) -> bool {
    a.len() <= b.len() && forall|k: int| 0 <= k < a.len() ==> #[trigger] a[k] == b[k]
}

proof fn lifting_puts_back(t: Tree, st: Lifted)
    ensures
        ({
            let (u, now) = lift::lifted(t, st);
            &&& goes_on(st.lifts, now.lifts)
            &&& puts_back(t, u, now.lifts, st.lifts.len() as int, now.lifts.len() as int)
        }),
    decreases t, 0nat,
{
    let (u, now) = lift::lifted(t, st);
    let at = lifting_kids_puts_back(t.head, t.kids, t.kids.len(), st);
    assert(spans(at, u.kids.len(), st.lifts.len() as int, now.lifts.len() as int));
}

proof fn lifting_kids_puts_back(head: Head, ts: Seq<Tree>, n: nat, st: Lifted) -> (at: Seq<int>)
    requires
        n <= ts.len(),
    ensures
        ({
            let (us, now) = lift::lifted_kids(head, ts, n, st);
            let i = st.lifts.len() as int;
            let j = now.lifts.len() as int;
            &&& us.len() == n
            &&& goes_on(st.lifts, now.lifts)
            &&& spans(at, n, i, j)
            &&& forall|k: int|
                0 <= k < n ==> puts_back(
                    ts[k],
                    #[trigger] us[k],
                    now.lifts,
                    at[k],
                    at[k + 1],
                )
        }),
    decreases ts, n,
{
    let (us, now) = lift::lifted_kids(head, ts, n, st);
    if n == 0 {
        seq![st.lifts.len() as int]
    } else {
        let m = (n - 1) as nat;
        let was = lifting_kids_puts_back(head, ts, m, st);
        let (ks, s1) = lift::lifted_kids(head, ts, m, st);
        let t = ts[n - 1];
        let i = s1.lifts.len() as int;
        let j = now.lifts.len() as int;
        let u = us[n - 1];
        if lift::mode(head, n - 1) is Keep {
            assert(puts_back(t, u, now.lifts, i, j));
        } else {
            lifting_puts_back(t, s1);
            let (r, s) = lift::lifted(t, s1);
            if u != r || now != s {
                // moved into a binding of its own
                assert(now.lifts.len() == s.lifts.len() + 1);
                assert(now.lifts[j - 1].kids[0] == r);
                puts_back_whatever_follows(t, r, s.lifts, now.lifts, i, j - 1);
                assert(is_bound_last(u, now.lifts, i, j));
            }
            assert(puts_back(t, u, now.lifts, i, j));
        }
        let at = was.push(j);
        assert forall|k: int| 0 <= k < n implies st.lifts.len() <= #[trigger] at[k] <= at[k + 1]
            <= j by {
            if k < m {
                assert(at[k] == was[k]);
                assert(at[k + 1] == was[k + 1]);
            }
        }
        assert forall|k: int| 0 <= k < n implies puts_back(
            ts[k],
            #[trigger] us[k],
            now.lifts,
            at[k],
            at[k + 1],
        ) by {
            if k < m {
                assert(at[k] == was[k]);
                assert(at[k + 1] == was[k + 1]);
                assert(us[k] == ks[k]);
                puts_back_whatever_follows(
                    ts[k],
                    ks[k],
                    s1.lifts,
                    now.lifts,
                    was[k],
                    was[k + 1],
                );
            }
        }
        at
    }
}

/// Whether the piece of `out` from `i` up to `j` is the statement `t`: the
/// last of it, once the bindings before it are put back.
pub open spec fn is_lifted(t: Tree, out: Seq<Tree>, i: int, j: int) -> bool {
    i < j <= out.len() && puts_back(t, out[j - 1], out, i, j - 1)
}

/// Whether `out` is the first `n` statements of a body in their order, each
/// behind what is lifted out of it.
pub open spec fn are_lifted(body: Seq<Tree>, n: nat, out: Seq<Tree>) -> bool {
    exists|cuts: Seq<int>|
        {
            &&& #[trigger] parts(cuts, n, out.len())
            &&& forall|k: int|
                0 <= k < n ==> is_lifted(#[trigger] body[k], out, cuts[k], cuts[k + 1])
        }
}

/// What is lifted out of a statement stands right before it, from left to
/// right, and putting it back gives the statement; the statements keep their
/// order.
pub proof fn lifted_bodies_can_be_put_back(body: Seq<Tree>, n: nat, next: u32)
    requires
        n <= body.len(),
    ensures
        are_lifted(body, n, lift::lifted_body(body, n, next).lifts),
    decreases n,
{
    let out = lift::lifted_body(body, n, next).lifts;
    if n == 0 {
        assert(parts(seq![0int], n, out.len()));
    } else {
        let m = (n - 1) as nat;
        lifted_bodies_can_be_put_back(body, m, next);
        let st = lift::lifted_body(body, m, next);
        let was = st.lifts;
        let cuts = choose|cuts: Seq<int>|
            {
                &&& #[trigger] parts(cuts, m, was.len())
                &&& forall|k: int|
                    0 <= k < m ==> is_lifted(#[trigger] body[k], was, cuts[k], cuts[k + 1])
            };
        lifting_puts_back(body[n - 1], st);
        let (t, s) = lift::lifted(body[n - 1], st);
        assert(out == s.lifts.push(t));
        parts_one_more(cuts, m, was.len(), out.len());
        let all = cuts.push(out.len() as int);
        assert forall|k: int| 0 <= k < n implies is_lifted(
            #[trigger] body[k],
            out,
            all[k],
            all[k + 1],
        ) by {
            if k < m {
                assert(is_lifted(body[k], was, cuts[k], cuts[k + 1]));
                let j = cuts[k + 1];
                assert(out[j - 1] == was[j - 1]);
                puts_back_whatever_follows(body[k], was[j - 1], was, out, cuts[k], j - 1);
            } else {
                puts_back_whatever_follows(
                    body[k],
                    t,
                    s.lifts,
                    out,
                    was.len() as int,
                    out.len() - 1,
                );
            }
        }
    }
}

// ── calls ──────────────────────────────────────────────────────────────────

/// Whether `u` is the call `t` with `first` in front of its arguments.
pub open spec fn is_call_with(t: Tree, u: Tree, first: Tree) -> bool {
    &&& u.head == t.head
    &&& u.kids.len() == t.kids.len() + 1
    &&& u.kids[0] == t.kids[0]
    &&& u.kids[1] == first
    &&& forall|i: int| 0 < i < t.kids.len() ==> u.kids[i + 1] == #[trigger] t.kids[i]
}

/// Whether an expression is the number nought.
pub open spec fn is_nought(t: Tree) -> bool {
    match t.head {
        Head::Num(s, _) => expr::int_literal(s) == Some(0i64),
        _ => false,
    }
}

/// Whether a parameter is `name`, of type `ty`.
pub open spec fn takes(p: Spanned<PatternV>, name: Text, ty: TypeV) -> bool {
    p.inner.ident.inner == name && p.inner.ty.inner == ty
}

/// `let r = f(args)` and what follows it become a call of `f` that hands on
/// `self` in front of the arguments, and a wait for what the called machine
/// sends back: the handler takes the sender and the value, the value under the
/// name `r`, and goes on with what follows.
pub proof fn bound_calls_wait_for_their_reply(t: Tree, ret: Text, rest: Seq<Tree>, id: u32)
    requires
        t.head is Let,
        t.kids.len() == 1,
        t.kids[0].head is Jump,
        t.kids[0].kids.len() > 0,
    ensures
        ({
            let us = calls::awaited(t, ret, rest, id);
            &&& us.len() == 2
            &&& us[0].head is Let
            &&& us[0].kids.len() == 1
            &&& us[0].kids[0].kids.len() > 1
            &&& names(us[0].kids[0].kids[1], "self"@)
            &&& is_call_with(t.kids[0], us[0].kids[0], us[0].kids[0].kids[1])
            &&& us[1].head is Wait
            &&& us[1].kids.len() == 2
            &&& us[1].kids[0].head is Filter
            &&& us[1].kids[0].kids.len() == 1
            &&& names(us[1].kids[0].kids[0], us[0].head->Let_0.inner)
            &&& us[1].kids[1].kids == rest
            &&& match us[1].kids[1].head {
                Head::Handler(h) => {
                    &&& h.label is None
                    &&& h.ret_ty is None
                    &&& h.patterns.len() == 2
                    &&& h.patterns[0].inner.ty.inner == TypeV::Named(
                        Spanned { inner: "pid"@, span: t.span },
                    )
                    &&& t.head->Let_0.inner != "_"@ ==> takes(
                        h.patterns[1],
                        t.head->Let_0.inner,
                        calls::type_of_word(text::trimmed(ret), t.span),
                    )
                    &&& h.patterns[1].inner.ident.inner != "_"@
                },
                _ => false,
            }
        }),
{
    let us = calls::awaited(t, ret, rest, id);
    let call = t.kids[0];
    let u = us[0].kids[0];
    assert forall|i: int| 0 < i < call.kids.len() implies u.kids[i + 1]
        == #[trigger] call.kids[i] by {
        assert(call.kids.skip(1)[i - 1] == call.kids[i]);
    }
    let name = calls::reply_name(id, "_value"@);
    reveal_strlit("_value");
    reveal_strlit("_");
    assert(name.len() >= 6);
}

/// A call whose reply nobody waits for hands on nobody in front of the
/// arguments.
pub proof fn unwaited_calls_hand_on_nobody(cx: CxV, t: Tree)
    ensures
        calls::unwaited(cx, t) matches Some(u) ==> is_call_with(t, u, u.kids[1]) && is_nought(
            u.kids[1],
        ),
{
    if let Some(u) = calls::unwaited(cx, t) {
        assert forall|i: int| 0 < i < t.kids.len() implies u.kids[i + 1] == #[trigger] t.kids[i] by {
            assert(t.kids.skip(1)[i - 1] == t.kids[i]);
        }
        reveal_strlit("0");
        decimals_read_back(0);
        assert("0"@ =~= text::decimal(0));
    }
}

/// A call that is resolved to a machine goes, by its new name, to what that
/// machine is called once its module has its symbols, whatever the module the
/// call stands in; its arguments stay where they are.
pub proof fn calls_reach_the_machine_they_name(
    reg: RegistryV,
    id: ModuleId,
    t: Tree,
    item: Spanned<ItemV>,
)
    requires
        t.head is Jump,
        t.kids.len() > 0,
        match (t.kids[0].head, item.inner) {
            (Head::Var(name, _), ItemV::Machine(m)) => name != "self"@ && match reg.resolved(
                id,
                name,
            ) {
                Some(ResolutionV::Machine(e)) => e.name == m.inner.ident.inner,
                _ => false,
            },
            _ => false,
        },
    ensures
        ({
            let u = passes::mangled_call(reg, id, t);
            let to = reg.resolved(id, t.kids[0].head->Var_0)->0->Machine_0.module;
            let goal = program::mangled_item(reg, to, item).inner->Machine_0.inner.ident.inner;
            &&& u.head == t.head
            &&& u.kids.len() == t.kids.len()
            &&& names_var(u.kids[0], goal)
            &&& forall|i: int| 0 < i < t.kids.len() ==> u.kids[i] == #[trigger] t.kids[i]
        }),
{
}

// ── modules ────────────────────────────────────────────────────────────────

/// Which items of a module stay: all but the machines that are expanded where
/// they are called.
pub open spec fn staying(cx: CxV, path: Seq<Text>, ast: Seq<Spanned<ItemV>>) -> spec_fn(
    int,
) -> bool {
    |i: int|
        match ast[i].inner {
            ItemV::Machine(m) => forall|k: int|
                0 <= k < cx.pure.len() ==> (#[trigger] cx.pure[k]).0 != (RetKeyV {
                    module: path,
                    name: m.inner.ident.inner,
                }),
            _ => true,
        }
}

/// Whether `b` is the member `a` of a machine: a field as it is, a branch with
/// its label, its result and its parameters, the last of them in their order.
pub open spec fn same_member(a: MachineItemV, b: MachineItemV) -> bool {
    match (a, b) {
        (MachineItemV::Field(_), MachineItemV::Field(_)) => a == b,
        (MachineItemV::Branch(x), MachineItemV::Branch(y)) => {
            let ps = x.head.patterns;
            let qs = y.head.patterns;
            &&& x.head.label == y.head.label
            &&& x.head.ret_ty == y.head.ret_ty
            &&& {
                ||| qs == ps
                ||| x.head.ret_ty is Some && qs.len() == ps.len() + 1 && qs.skip(1) == ps
                    && qs[0].inner.ident.inner == "__caller"@
                ||| x.head.ret_ty is Some && qs.len() == 1 && ps.len() == 1
                    && ps[0].inner.kind is Wildcard && qs[0].inner.ident.inner == "__caller"@
            }
        },
        _ => false,
    }
}

/// Whether `b` is the item `a`: a machine with its name, its type parameters
/// and its members in their order, anything else as it is.
pub open spec fn same_item(a: Spanned<ItemV>, b: Spanned<ItemV>) -> bool {
    a.span == b.span && match (a.inner, b.inner) {
        (ItemV::Machine(x), ItemV::Machine(y)) => {
            &&& x.span == y.span
            &&& x.inner.ident == y.inner.ident
            &&& x.inner.vis == y.inner.vis
            &&& x.inner.attrs == y.inner.attrs
            &&& x.inner.generics == y.inner.generics
            &&& x.inner.bounds == y.inner.bounds
            &&& x.inner.items.len() == y.inner.items.len()
            &&& forall|k: int|
                0 <= k < x.inner.items.len() ==> x.inner.items[k].span == y.inner.items[k].span
                    && same_member((#[trigger] x.inner.items[k]).inner, y.inner.items[k].inner)
        },
        _ => a == b,
    }
}

proof fn members_stay(cx: CxV, items: Seq<Spanned<MachineItemV>>, n: nat, next: u32)
    requires
        n <= items.len(),
    ensures
        ({
            let out = program::lowered_items(cx, items, n, next).0;
            &&& out.len() == n
            &&& forall|k: int|
                0 <= k < n ==> items[k].span == out[k].span && same_member(
                    (#[trigger] items[k]).inner,
                    out[k].inner,
                )
        }),
    decreases n,
{
    if n > 0 {
        members_stay(cx, items, (n - 1) as nat, next);
        if let MachineItemV::Branch(b) = items[n - 1].inner {
            let c = program::lowered_items(cx, items, (n - 1) as nat, next).1;
            let qs = program::lowered_branch(cx, b, c).0.head.patterns;
            assert(qs.len() == b.head.patterns.len() + 1 ==> qs.skip(1) =~= b.head.patterns);
        }
    }
}

proof fn looked_up(table: Seq<(RetKeyV, TemplateV)>, key: RetKeyV, from: int)
    requires
        0 <= from <= table.len(),
    ensures
        ({
            let i = pure::key_index(table, key, from);
            (0 <= i < table.len()) <==> exists|k: int|
                from <= k < table.len() && (#[trigger] table[k]).0 == key
        }),
    decreases table.len() - from,
{
    if from < table.len() && table[from].0 != key {
        looked_up(table, key, from + 1);
    }
}

/// Lowering a module keeps its items, in their order, but for the machines that
/// are expanded where they are called; only the bodies and the caller among
/// the parameters are new.
pub proof fn lowered_modules_keep_their_items(
    cx: CxV,
    path: Seq<Text>,
    ast: Seq<Spanned<ItemV>>,
    n: nat,
    next: u32,
) -> (at: Seq<int>)
    requires
        n <= ast.len(),
    ensures
        ({
            let out = program::lowered_ast(cx, path, ast, n, next).0;
            &&& picks(at, 0, n, staying(cx, path, ast))
            &&& out.len() == at.len()
            &&& forall|k: int| 0 <= k < out.len() ==> same_item(ast[at[k]], #[trigger] out[k])
        }),
    decreases n,
{
    let p = staying(cx, path, ast);
    let out = program::lowered_ast(cx, path, ast, n, next).0;
    if n == 0 {
        Seq::empty()
    } else {
        let was = lowered_modules_keep_their_items(cx, path, ast, (n - 1) as nat, next);
        let (before, c) = program::lowered_ast(cx, path, ast, (n - 1) as nat, next);
        if let ItemV::Machine(m) = ast[n - 1].inner {
            looked_up(cx.pure, RetKeyV { module: path, name: m.inner.ident.inner }, 0);
            members_stay(cx, m.inner.items, m.inner.items.len(), c);
        }
        if p(n - 1) {
            picks_last(was, (n - 1) as nat, p);
            let at = was.push(n - 1);
            assert forall|k: int| 0 <= k < out.len() implies same_item(
                ast[at[k]],
                #[trigger] out[k],
            ) by {
                if k < was.len() {
                    assert(out[k] == before[k]);
                    assert(at[k] == was[k]);
                }
            }
            at
        } else {
            picks_not_last(was, (n - 1) as nat, p);
            was
        }
    }
}

} // verus!
