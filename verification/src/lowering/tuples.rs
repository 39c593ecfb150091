//! Destructuring: tuple bindings and tuple patterns.

use vstd::prelude::*;

use crate::api::ast::{Branch, Ident, Type};
use crate::api::expr;
use crate::api::expr::{close, open, Expr, Head, Shape, Tree};
use crate::lowering::lift;
use crate::lowering::lift::Fresh;
use crate::lowering::synth;
use crate::lowering::synth::{let_expr, numbered_name, open_var_expr, slot_expr};
use crate::span::{SimpleSpan, SpanWrap, Spanned};
use crate::text;
use crate::text::{begins_with, same, Text};

verus! {

// ── tuple bindings ─────────────────────────────────────────────────────────

/// One `let` per field, in order, each for its slot of `name`.
pub open spec fn field_lets(
    name: Text,
    fields: Seq<Spanned<Text>>,
    n: nat,
    span: SimpleSpan,
) -> Seq<Tree>
    decreases n,
{
    if n == 0 {
        Seq::empty()
    } else {
        let f = fields[n - 1];
        field_lets(name, fields, (n - 1) as nat, span).push(
            synth::open_let(f.inner, synth::slot_of(name, (n - 1) as usize, span), f.span),
        )
    }
}

/// What a statement expands to: a tuple binding to a fresh name for the
/// whole and a `let` per field, any other statement to itself.
pub open spec fn expanded(t: Tree, next: u32) -> (Seq<Tree>, u32) {
    match t.head {
        Head::LetTuple(fields) => {
            let name = synth::numbered("__dst_"@, next);
            (
                seq![synth::open_let(name, synth::operand(t), t.span)] + field_lets(
                    name,
                    fields,
                    fields.len(),
                    t.span,
                ),
                lift::succ(next),
            )
        },
        _ => (seq![t], next),
    }
}

/// The first `n` statements of a body, expanded.
pub open spec fn expanded_body(body: Seq<Tree>, n: nat, next: u32) -> (Seq<Tree>, u32)
    decreases n,
{
    if n == 0 {
        (Seq::empty(), next)
    } else {
        let (before, c) = expanded_body(body, (n - 1) as nat, next);
        let (these, c2) = expanded(body[n - 1], c);
        (before + these, c2)
    }
}

fn push_field_lets(
    name: &str,
    fields: Vec<Spanned<Ident>>,
    span: SimpleSpan,
    out: &mut Vec<Spanned<Expr>>,
)
    ensures
        expr::trees(final(out)@) == expr::trees(old(out)@) + field_lets(
            name@,
            fields.deep_view(),
            fields@.len(),
            span,
        ),
{
    let ghost fs = fields.deep_view();
    let ghost start = expr::trees(out@);
    let total = fields.len();
    let mut i: usize = 0;
    proof {
        assert(start + field_lets(name@, fs, 0, span) =~= start);
    }
    while i < total
        invariant
            i <= total,
            total == fields@.len(),
            fs == fields.deep_view(),
            expr::trees(out@) == start + field_lets(name@, fs, i as nat, span),
        decreases total - i,
    {
        let ghost before = out@;
        proof {
            assert(fs[i as int] == fields@[i as int].deep_view());
        }
        let value = slot_expr(name, i, span);
        let one = let_expr(fields[i].inner.0.as_str(), Type::Unknown, value, fields[i].span);
        let ghost t = expr::tree_of(one);
        out.push(one);
        proof {
            assert(expr::trees(out@) =~= expr::trees(before).push(t));
            assert(expr::trees(out@) =~= start + field_lets(name@, fs, (i + 1) as nat, span));
        }
        i = i + 1;
    }
}

/// Expand every tuple binding of a body into a fresh binding of the whole
/// value and one ordinary `let` per field.
pub fn expand_let_tuple(body: Vec<Spanned<Expr>>, fresh: &mut Fresh) -> (r: Vec<Spanned<Expr>>)
    ensures
        (expr::trees(r@), final(fresh).next) == expanded_body(
            expr::trees(body@),
            body@.len(),
            old(fresh).next,
        ),
{
    let ghost es = body@;
    let ghost ts = expr::trees(es);
    let ghost start = fresh.next;
    let mut out: Vec<Spanned<Expr>> = Vec::new();
    proof {
        assert(expr::trees(out@) =~= Seq::<Tree>::empty());
    }
    for e in it: body
        invariant
            it.seq() == es,
            ts == expr::trees(es),
            (expr::trees(out@), fresh.next) == expanded_body(ts, it.index() as nat, start),
    {
        let ghost t = ts[it.index() as int];
        let ghost so_far = expr::trees(out@);
        let ghost before = out@;
        proof {
            assert(t == expr::tree_of(e));
        }
        let span = e.span;
        match e.inner {
            Expr::LetTuple { fields, default } => {
                let id = fresh.fresh_id();
                let name = numbered_name("__dst_", id);
                out.push(let_expr(name.as_str(), Type::Unknown, *default, span));
                proof {
                    assert(expr::trees(out@) =~= so_far.push(
                        synth::open_let(name@, t.kids[0], span),
                    ));
                }
                push_field_lets(name.as_str(), fields, span, &mut out);
                proof {
                    let lets = field_lets(name@, fields.deep_view(), fields@.len(), span);
                    let first = synth::open_let(name@, t.kids[0], span);
                    assert(so_far.push(first) + lets =~= so_far + (seq![first] + lets));
                }
            },
            other => {
                out.push(Spanned { inner: other, span });
                proof {
                    assert(expr::trees(out@) =~= so_far + seq![t]);
                }
            },
        }
    }
    out
}

// ── tuple patterns ─────────────────────────────────────────────────────────

/// The constructs whose parts are searched for nested bodies.
pub open spec fn looks_inside(head: Head) -> bool {
    head is When || head is Wait || head is Filter || head is Let || head is Jump || head is Tuple
        || head is TupleIndex || head is Ret || head is Pin || head is Neg
}

pub fn shape_looks_inside(shape: &Shape) -> (r: bool)
    ensures
        r == looks_inside(shape.deep_view()),
{
    matches!(
        shape,
        Shape::Let(_, _) | Shape::Jump | Shape::Tuple | Shape::TupleIndex(_) | Shape::Ret
            | Shape::Pin | Shape::Neg
    )
}

/// The `let`s for slots `1..n` of a tuple pattern: one for every slot that
/// is a name other than `_`.
pub open spec fn slot_lets(name: Text, slots: Seq<Tree>, n: nat) -> Seq<Tree>
    decreases n,
{
    if n <= 1 {
        Seq::empty()
    } else {
        let before = slot_lets(name, slots, (n - 1) as nat);
        let slot = slots[n - 1];
        match slot.head {
            Head::Var(v, _) => if v != "_"@ {
                before.push(
                    synth::open_let(
                        v,
                        synth::slot_of(name, (n - 1) as usize, slot.span),
                        slot.span,
                    ),
                )
            } else {
                before
            },
            _ => before,
        }
    }
}

/// An arm of a `when` on the tuple `name`, made an arm of a `when` on the
/// tuple's first slot.
pub open spec fn split_arm(arm: Tree, name: Text, arity: nat) -> Tree {
    let pat = arm.kids[0];
    let body = arm.kids.skip(1);
    if arm.kids.len() > 0 && pat.head is Tuple && pat.kids.len() == arity {
        let first = pat.kids[0];
        let all = slot_lets(name, pat.kids, arity) + body;
        match first.head {
            Head::Atom(_) | Head::Num(_, _) | Head::Str(_, _) | Head::Bool(_) => expr::arm_tree(
                first,
                all,
            ),
            Head::Var(v, _) => if v == "_"@ {
                expr::arm_tree(first, all)
            } else {
                expr::arm_tree(
                    synth::open_var("_"@, first.span),
                    seq![synth::open_let(v, synth::slot_of(name, 0, first.span), first.span)]
                        + all,
                )
            },
            _ => expr::arm_tree(expr::node(Head::Tuple, pat.span, seq![first]), all),
        }
    } else {
        arm
    }
}

/// The number of slots of the first tuple pattern among the arms from
/// `from` on; 0 where there is none.
pub open spec fn tuple_arity(arms: Seq<Tree>, from: int) -> nat
    decreases arms.len() - from,
{
    if from >= arms.len() {
        0
    } else if arms[from].head is Arm && arms[from].kids.len() > 0 && arms[from].kids[0].head is Tuple {
        arms[from].kids[0].kids.len()
    } else {
        tuple_arity(arms, from + 1)
    }
}

/// Whether `t` is the first slot of a subject that was bound to be split.
pub open spec fn is_split(t: Tree) -> bool {
    t.head == Head::TupleIndex(0usize) && t.kids.len() == 1 && match t.kids[0].head {
        Head::Var(name, _) => text::begins(name, "__wtp_"@),
        _ => false,
    }
}

/// By how many slots a `when` on `subject` is to be split; 0 where it has no
/// tuple pattern, and where it is split already.
pub open spec fn split_arity(subject: Tree, arms: Seq<Tree>) -> nat {
    if is_split(subject) {
        0
    } else {
        tuple_arity(arms, 0)
    }
}

/// A `when` with tuple patterns becomes a binding of its subject and a `when`
/// on the first slot of it.  An empty tuple has no slot to look at.
pub open spec fn split_when(t: Tree, next: u32) -> (Seq<Tree>, u32) {
    let arms = t.kids.skip(1);
    let arity = split_arity(t.kids[0], arms);
    if arity > 0 {
        let name = synth::numbered("__wtp_"@, next);
        (
            seq![
                synth::open_let(name, t.kids[0], t.span),
                expr::node(
                    Head::When,
                    t.span,
                    seq![synth::slot_of(name, 0, t.span)] + Seq::new(
                        arms.len(),
                        |i: int| split_arm(arms[i], name, arity),
                    ),
                ),
            ],
            lift::succ(next),
        )
    } else {
        (seq![t], next)
    }
}

/// Splits the `when`s of the bodies inside `t`.
pub open spec fn split_in(t: Tree, next: u32) -> (Tree, u32)
    decreases t, 0nat,
{
    match t.head {
        Head::Arm => if t.kids.len() > 0 {
            proof {
                assert(decreases_to!(t => t.kids.skip(1)));
            }
            let (pat, c) = split_in(t.kids[0], next);
            let (body, c2) = split_all(t.kids.skip(1), (t.kids.len() - 1) as nat, c);
            (Tree { kids: seq![pat] + body, ..t }, c2)
        } else {
            (t, next)
        },
        Head::Handler(_) => {
            let (body, c) = split_all(t.kids, t.kids.len(), next);
            (Tree { kids: body, ..t }, c)
        },
        h => if looks_inside(h) {
            let (kids, c) = split_kids(t.kids, t.kids.len(), next);
            (Tree { kids, ..t }, c)
        } else {
            (t, next)
        },
    }
}

/// [`split_in`] on each of the first `n` trees.
pub open spec fn split_kids(ts: Seq<Tree>, n: nat, next: u32) -> (Seq<Tree>, u32)
    decreases ts, n,
{
    if n == 0 || n > ts.len() {
        (Seq::empty(), next)
    } else {
        let (before, c) = split_kids(ts, (n - 1) as nat, next);
        let (t, c2) = split_in(ts[n - 1], c);
        (before.push(t), c2)
    }
}

/// The statements that a statement becomes.
pub open spec fn split_stmt(t: Tree, next: u32) -> (Seq<Tree>, u32)
    decreases t, 1nat,
{
    let (t2, c) = split_in(t, next);
    if t2.head is When && t2.kids.len() > 0 {
        split_when(t2, c)
    } else {
        (seq![t2], c)
    }
}

/// The statements that the first `n` statements of a body become.
pub open spec fn split_all(body: Seq<Tree>, n: nat, next: u32) -> (Seq<Tree>, u32)
    decreases body, n,
{
    if n == 0 || n > body.len() {
        (Seq::empty(), next)
    } else {
        let (before, c) = split_all(body, (n - 1) as nat, next);
        let (these, c2) = split_stmt(body[n - 1], c);
        (before + these, c2)
    }
}

// ── executable side ────────────────────────────────────────────────────────

fn push_slot_lets(name: &str, slots: &Vec<Spanned<Expr>>, out: &mut Vec<Spanned<Expr>>)
    ensures
        expr::trees(final(out)@) == expr::trees(old(out)@) + slot_lets(
            name@,
            expr::trees(slots@),
            slots@.len(),
        ),
{
    let ghost ts = expr::trees(slots@);
    let ghost start = expr::trees(out@);
    let mut i: usize = 1;
    proof {
        assert(start + slot_lets(name@, ts, 1) =~= start);
        assert(start + slot_lets(name@, ts, 0) =~= start);
    }
    while i < slots.len()
        invariant
            1 <= i,
            i <= slots@.len() || (i == 1 && slots@.len() == 0),
            ts == expr::trees(slots@),
            ts.len() == slots@.len(),
            expr::trees(out@) == start + slot_lets(name@, ts, i as nat),
        decreases slots.len() - i,
    {
        proof {
            assert(ts[i as int] == expr::tree_of(slots@[i as int]));
        }
        let ghost before = out@;
        if let Expr::Var(v, _) = &slots[i].inner {
            if !same(v.as_str(), "_") {
                let span = slots[i].span;
                let value = slot_expr(name, i, span);
                let one = let_expr(v.as_str(), Type::Unknown, value, span);
                let ghost t = expr::tree_of(one);
                out.push(one);
                proof {
                    assert(expr::trees(out@) =~= expr::trees(before).push(t));
                    assert(expr::trees(out@) =~= start + slot_lets(name@, ts, (i + 1) as nat));
                }
            }
        }
        i = i + 1;
    }
}

pub fn join_bodies(first: Vec<Spanned<Expr>>, rest: Vec<Spanned<Expr>>) -> (r: Vec<Spanned<Expr>>)
    ensures
        expr::trees(r@) == expr::trees(first@) + expr::trees(rest@),
{
    let ghost a = first@;
    let ghost b = rest@;
    let mut out = first;
    let mut rest = rest;
    out.append(&mut rest);
    proof {
        assert(expr::trees(out@) =~= expr::trees(a) + expr::trees(b));
    }
    out
}

/// The arm of the `when` on the first slot.
fn rewrite_tuple_arm(
    pat: Spanned<Expr>,
    body: Vec<Spanned<Expr>>,
    name: &str,
    arity: usize,
) -> (r: (Spanned<Expr>, Vec<Spanned<Expr>>))
    requires
        arity > 0,
    ensures
        expr::arm_tree(expr::tree_of(r.0), expr::trees(r.1@)) == split_arm(
            expr::arm_tree(expr::tree_of(pat), expr::trees(body@)),
            name@,
            arity as nat,
        ),
{
    let ghost arm = expr::arm_tree(expr::tree_of(pat), expr::trees(body@));
    proof {
        assert(arm.kids[0] == expr::tree_of(pat));
        assert(arm.kids.skip(1) =~= expr::trees(body@));
    }
    let pat_span = pat.span;
    match pat.inner {
        Expr::Tuple(slots) => {
            proof {
                assert(arm.kids[0].kids == expr::trees(slots@));
                assert(expr::trees(slots@).len() == slots@.len());
            }
            if slots.len() != arity {
                return (Expr::Tuple(slots).with_span(pat_span), body);
            }
            let ghost ts = expr::trees(slots@);
            proof {
                assert(ts[0] == expr::tree_of(slots@[0]));
            }
            let mut all: Vec<Spanned<Expr>> = Vec::new();
            proof {
                assert(expr::trees(all@) =~= Seq::<Tree>::empty());
            }
            push_slot_lets(name, &slots, &mut all);
            proof {
                assert(expr::trees(all@) =~= slot_lets(name@, ts, arity as nat));
            }
            let all = join_bodies(all, body);
            let mut slots = slots;
            let first = slots.swap_remove(0);
            let first_span = first.span;
            match first.inner {
                Expr::Atom(_) | Expr::Num(_, _) | Expr::String(_, _) | Expr::Bool(_) => {
                    (Spanned { inner: first.inner, span: first_span }, all)
                },
                Expr::Var(v, ty) => {
                    if same(v.as_str(), "_") {
                        (Expr::Var(v, ty).with_span(first_span), all)
                    } else {
                        let mut bound: Vec<Spanned<Expr>> = Vec::new();
                        let value = slot_expr(name, 0, first_span);
                        bound.push(let_expr(v.as_str(), Type::Unknown, value, first_span));
                        proof {
                            assert(expr::trees(bound@) =~= seq![
                                synth::open_let(
                                    v@,
                                    synth::slot_of(name@, 0, first_span),
                                    first_span,
                                ),
                            ]);
                        }
                        (open_var_expr("_", first_span), join_bodies(bound, all))
                    }
                },
                other => {
                    let mut elems: Vec<Spanned<Expr>> = Vec::new();
                    elems.push(Spanned { inner: other, span: first_span });
                    proof {
                        assert(expr::trees(elems@) =~= seq![ts[0]]);
                    }
                    (Expr::Tuple(elems).with_span(pat_span), all)
                },
            }
        },
        other => (Spanned { inner: other, span: pat_span }, body),
    }
}

fn first_arity(arms: &Vec<(Spanned<Expr>, Vec<Spanned<Expr>>)>) -> (r: usize)
    ensures
        r == tuple_arity(expr::arms_view(arms@), 0),
{
    let ghost av = expr::arms_view(arms@);
    let mut i: usize = 0;
    while i < arms.len()
        invariant
            i <= arms.len(),
            av == expr::arms_view(arms@),
            tuple_arity(av, 0) == tuple_arity(av, i as int),
        decreases arms.len() - i,
    {
        proof {
            assert(av[i as int] == expr::arm_tree(
                expr::tree_of(arms@[i as int].0),
                expr::trees(arms@[i as int].1@),
            ));
            assert(av[i as int].kids[0] == expr::tree_of(arms@[i as int].0));
        }
        if let Expr::Tuple(slots) = &arms[i].0.inner {
            proof {
                assert(av[i as int].kids[0].kids == expr::trees(slots@));
            }
            return slots.len();
        }
        i = i + 1;
    }
    0
}

fn subject_is_split(e: &Spanned<Expr>) -> (r: bool)
    ensures
        r == is_split(expr::tree_of(*e)),
{
    match &e.inner {
        Expr::TupleIndex { receiver, index } => {
            proof {
                assert(expr::tree_of(*e).kids == seq![expr::tree_of(**receiver)]);
                assert(expr::tree_of(*e).kids[0] == expr::tree_of(**receiver));
            }
            *index == 0 && match &receiver.inner {
                Expr::Var(name, _) => begins_with(name.as_str(), "__wtp_"),
                _ => false,
            }
        },
        _ => false,
    }
}

/// By how many slots a `when` is to be split.
pub fn arity_to_split(
    subject: &Spanned<Expr>,
    arms: &Vec<(Spanned<Expr>, Vec<Spanned<Expr>>)>,
) -> (r: usize)
    ensures
        r == split_arity(expr::tree_of(*subject), expr::arms_view(arms@)),
{
    if subject_is_split(subject) {
        0
    } else {
        first_arity(arms)
    }
}

fn split_the_when(
    cond: Box<Spanned<Expr>>,
    branches: Vec<(Spanned<Expr>, Vec<Spanned<Expr>>)>,
    span: SimpleSpan,
    fresh: &mut Fresh,
) -> (r: Vec<Spanned<Expr>>)
    ensures
        (expr::trees(r@), final(fresh).next) == split_when(
            expr::tree(Expr::When { cond, branches }, span),
            old(fresh).next,
        ),
{
    let ghost t = expr::tree(Expr::When { cond, branches }, span);
    let ghost av = expr::arms_view(branches@);
    let ghost bs = branches@;
    proof {
        assert(t.kids[0] == expr::tree_of(*cond));
        assert(t.kids.skip(1) =~= av);
    }
    let arity = arity_to_split(&cond, &branches);
    let mut out: Vec<Spanned<Expr>> = Vec::new();
    if arity == 0 {
        out.push(Expr::When { cond, branches }.with_span(span));
        proof {
            assert(expr::trees(out@) =~= seq![t]);
        }
        return out;
    }
    let id = fresh.fresh_id();
    let name = numbered_name("__wtp_", id);
    let arms = rewrite_tuple_arms(branches, name.as_str(), arity);
    let binding = let_expr(name.as_str(), Type::Unknown, *cond, span);
    let subject = slot_expr(name.as_str(), 0, span);
    let ghost first = expr::tree_of(subject);
    let w = Expr::When { cond: Box::new(subject), branches: arms }.with_span(span);
    let ghost b = expr::tree_of(binding);
    let ghost wt = expr::tree_of(w);
    proof {
        assert(wt.kids == seq![first] + expr::arms_view(arms@));
    }
    out.push(binding);
    out.push(w);
    proof {
        assert(expr::trees(out@) =~= seq![b, wt]);
    }
    out
}

fn rewrite_tuple_arms(
    arms: Vec<(Spanned<Expr>, Vec<Spanned<Expr>>)>,
    name: &str,
    arity: usize,
) -> (r: Vec<(Spanned<Expr>, Vec<Spanned<Expr>>)>)
    requires
        arity > 0,
    ensures
        expr::arms_view(r@) == Seq::new(
            expr::arms_view(arms@).len(),
            |i: int| split_arm(expr::arms_view(arms@)[i], name@, arity as nat),
        ),
{
    let ghost arms0 = arms@;
    let ghost av = expr::arms_view(arms0);
    let mut out: Vec<(Spanned<Expr>, Vec<Spanned<Expr>>)> = Vec::new();
    for arm in it: arms
        invariant
            it.seq() == arms0,
            av == expr::arms_view(arms0),
            arity > 0,
            out@.len() == it.index(),
            forall|j: int|
                0 <= j < it.index() ==> expr::arm_tree(
                    expr::tree_of((#[trigger] out@[j]).0),
                    expr::trees(out@[j].1@),
                ) == split_arm(av[j], name@, arity as nat),
    {
        let (pat, body) = arm;
        proof {
            assert(av[it.index() as int] == expr::arm_tree(
                expr::tree_of(pat),
                expr::trees(body@),
            ));
        }
        out.push(rewrite_tuple_arm(pat, body, name, arity));
    }
    proof {
        assert(expr::arms_view(out@) =~= Seq::new(
            av.len(),
            |i: int| split_arm(av[i], name@, arity as nat),
        ));
    }
    out
}

/// Splits the tuple patterns in the bodies inside an expression.  A `when`
/// in the position of a value is only looked into: there is no place for
/// the binding of its subject.
pub fn lower_when_tuple_patterns_in_expr(e: Spanned<Expr>, fresh: &mut Fresh) -> (r: Spanned<Expr>)
    ensures
        (expr::tree_of(r), final(fresh).next) == split_in(expr::tree_of(e), old(fresh).next),
    decreases expr::tree_of(e), 0nat,
{
    let ghost t = expr::tree_of(e);
    let ghost start = fresh.next;
    let span = e.span;
    match e.inner {
        Expr::When { cond, branches } => {
            let ghost c = expr::tree_of(*cond);
            let ghost av = expr::arms_view(branches@);
            proof {
                assert(t.kids == seq![c] + av);
                assert(t.kids[0] == c);
                assert(t.kids.skip(1) =~= av);
                assert(decreases_to!(t => t.kids[0]));
                assert(decreases_to!(t => t.kids.skip(1)));
            }
            let cond = lower_when_tuple_patterns_in_expr(*cond, fresh);
            let ghost mid = fresh.next;
            let branches = split_arms(branches, fresh);
            proof {
                split_kids_after_first(t.kids, t.kids.len(), start);
            }
            Expr::When { cond: Box::new(cond), branches }.with_span(span)
        },
        Expr::Wait { handlers, filter } => {
            let ghost f = t.kids[0];
            let ghost hv = expr::handlers_view(handlers@);
            proof {
                assert(f.kids == expr::trees(filter@));
                assert(t.kids == seq![f] + hv);
                assert(t.kids.skip(1) =~= hv);
                assert(decreases_to!(t => t.kids[0]));
                assert(decreases_to!(t => t.kids[0].kids));
                assert(decreases_to!(t => t.kids.skip(1)));
            }
            let filter = split_exprs(filter, fresh);
            let handlers = split_handlers(handlers, fresh);
            proof {
                split_kids_after_first(t.kids, t.kids.len(), start);
                assert(split_in(f, start).0.kids == expr::trees(filter@));
            }
            Expr::Wait { handlers, filter }.with_span(span)
        },
        other => {
            let (shape, kids) = open(other);
            proof {
                assert(t == expr::tree(other, span));
                assert(decreases_to!(t => t.kids));
            }
            if shape_looks_inside(&shape) {
                let kids = split_exprs(kids, fresh);
                close(shape, kids).with_span(span)
            } else {
                close(shape, kids).with_span(span)
            }
        },
    }
}

proof fn split_kids_after_first(ts: Seq<Tree>, n: nat, next: u32)
    requires
        1 <= n <= ts.len(),
    ensures
        split_kids(ts, n, next) == ({
            let (first, c) = split_in(ts[0], next);
            let (rest, c2) = split_kids(ts.skip(1), (n - 1) as nat, c);
            (seq![first] + rest, c2)
        }),
    decreases n,
{
    reveal_with_fuel(split_kids, 2);
    let (first, c) = split_in(ts[0], next);
    if n == 1 {
        assert(Seq::<Tree>::empty().push(first) =~= seq![first] + Seq::<Tree>::empty());
    } else {
        split_kids_after_first(ts, (n - 1) as nat, next);
        let (rest, c2) = split_kids(ts.skip(1), (n - 2) as nat, c);
        assert(ts.skip(1)[n - 2] == ts[n - 1]);
        let (last, c3) = split_in(ts[n - 1], c2);
        assert((seq![first] + rest).push(last) =~= seq![first] + rest.push(last));
    }
}

fn split_exprs(es: Vec<Spanned<Expr>>, fresh: &mut Fresh) -> (r: Vec<Spanned<Expr>>)
    ensures
        (expr::trees(r@), final(fresh).next) == split_kids(
            expr::trees(es@),
            es@.len(),
            old(fresh).next,
        ),
        r@.len() == es@.len(),
    decreases expr::trees(es@), 1nat,
{
    let ghost es0 = es@;
    let ghost ts = expr::trees(es0);
    let ghost start = fresh.next;
    let mut out: Vec<Spanned<Expr>> = Vec::new();
    proof {
        assert(expr::trees(out@) =~= Seq::<Tree>::empty());
    }
    for e in it: es
        invariant
            it.seq() == es0,
            es0 == es@,
            ts == expr::trees(es0),
            out@.len() == it.index(),
            (expr::trees(out@), fresh.next) == split_kids(ts, it.index() as nat, start),
    {
        proof {
            assert(ts[it.index() as int] == expr::tree_of(e));
            assert(decreases_to!(ts => ts[it.index() as int]));
        }
        let ghost before = out@;
        let one = lower_when_tuple_patterns_in_expr(e, fresh);
        out.push(one);
        proof {
            assert(expr::trees(out@) =~= expr::trees(before).push(expr::tree_of(one)));
        }
    }
    out
}

/// The view of arms with one more at the end.
pub proof fn push_arm(
    before: Seq<(Spanned<Expr>, Vec<Spanned<Expr>>)>,
    after: Seq<(Spanned<Expr>, Vec<Spanned<Expr>>)>,
)
    requires
        after.len() == before.len() + 1,
        after.drop_last() == before,
    ensures
        expr::arms_view(after) == expr::arms_view(before).push(
            expr::arm_tree(expr::tree_of(after.last().0), expr::trees(after.last().1@)),
        ),
{
    assert forall|i: int| 0 <= i < before.len() implies after[i] == before[i] by {
        assert(after.drop_last()[i] == before[i]);
    }
    assert(expr::arms_view(after) =~= expr::arms_view(before).push(
        expr::arm_tree(expr::tree_of(after.last().0), expr::trees(after.last().1@)),
    ));
}

/// The view of handlers with one more at the end.
pub proof fn push_handler(before: Seq<Spanned<Branch>>, after: Seq<Spanned<Branch>>)
    requires
        after.len() == before.len() + 1,
        after.drop_last() == before,
    ensures
        expr::handlers_view(after) == expr::handlers_view(before).push(
            Tree {
                head: Head::Handler(expr::branch_head(after.last().inner)),
                span: after.last().span,
                kids: expr::trees(after.last().inner.body@),
            },
        ),
{
    assert forall|i: int| 0 <= i < before.len() implies after[i] == before[i] by {
        assert(after.drop_last()[i] == before[i]);
    }
    assert(expr::handlers_view(after) =~= expr::handlers_view(before).push(
        Tree {
            head: Head::Handler(expr::branch_head(after.last().inner)),
            span: after.last().span,
            kids: expr::trees(after.last().inner.body@),
        },
    ));
}

fn split_arms(arms: Vec<(Spanned<Expr>, Vec<Spanned<Expr>>)>, fresh: &mut Fresh) -> (r: Vec<
    (Spanned<Expr>, Vec<Spanned<Expr>>),
>)
    ensures
        (expr::arms_view(r@), final(fresh).next) == split_kids(
            expr::arms_view(arms@),
            arms@.len(),
            old(fresh).next,
        ),
    decreases expr::arms_view(arms@), 1nat,
{
    let ghost arms0 = arms@;
    let ghost av = expr::arms_view(arms0);
    let ghost start = fresh.next;
    let mut out: Vec<(Spanned<Expr>, Vec<Spanned<Expr>>)> = Vec::new();
    proof {
        assert(expr::arms_view(out@) =~= Seq::<Tree>::empty());
    }
    for arm in it: arms
        invariant
            it.seq() == arms0,
            arms0 == arms@,
            av == expr::arms_view(arms0),
            (expr::arms_view(out@), fresh.next) == split_kids(av, it.index() as nat, start),
    {
        let ghost t = av[it.index() as int];
        let ghost before = out@;
        let ghost c = fresh.next;
        let (pat, body) = arm;
        proof {
            assert(t == expr::arm_tree(expr::tree_of(pat), expr::trees(body@)));
            assert(t.kids[0] == expr::tree_of(pat));
            assert(t.kids.skip(1) =~= expr::trees(body@));
            assert(decreases_to!(av => t));
            assert(decreases_to!(av => t.kids[0]));
            assert(decreases_to!(av => t.kids.skip(1)));
        }
        let pat = lower_when_tuple_patterns_in_expr(pat, fresh);
        let body = split_body(body, fresh);
        let ghost one = expr::arm_tree(expr::tree_of(pat), expr::trees(body@));
        proof {
            assert((one, fresh.next) == split_in(t, c));
        }
        out.push((pat, body));
        proof {
            assert(out@.drop_last() =~= before);
            push_arm(before, out@);
        }
    }
    out
}

fn split_handlers(hs: Vec<Spanned<Branch>>, fresh: &mut Fresh) -> (r: Vec<Spanned<Branch>>)
    ensures
        (expr::handlers_view(r@), final(fresh).next) == split_kids(
            expr::handlers_view(hs@),
            hs@.len(),
            old(fresh).next,
        ),
    decreases expr::handlers_view(hs@), 1nat,
{
    let ghost hs0 = hs@;
    let ghost hv = expr::handlers_view(hs0);
    let ghost start = fresh.next;
    let mut out: Vec<Spanned<Branch>> = Vec::new();
    proof {
        assert(expr::handlers_view(out@) =~= Seq::<Tree>::empty());
    }
    for h in it: hs
        invariant
            it.seq() == hs0,
            hs0 == hs@,
            hv == expr::handlers_view(hs0),
            (expr::handlers_view(out@), fresh.next) == split_kids(hv, it.index() as nat, start),
    {
        let ghost t = hv[it.index() as int];
        let ghost before = out@;
        let ghost c = fresh.next;
        proof {
            assert(t.kids == expr::trees(h.inner.body@));
            assert(decreases_to!(hv => t));
            assert(decreases_to!(hv => t.kids));
        }
        let span = h.span;
        let b = h.inner;
        let body = split_body(b.body, fresh);
        proof {
            assert((Tree { kids: expr::trees(body@), ..t }, fresh.next) == split_in(t, c));
        }
        let nb = Branch { label: b.label, patterns: b.patterns, ret_ty: b.ret_ty, body };
        out.push(Spanned { inner: nb, span });
        proof {
            assert(out@.drop_last() =~= before);
            push_handler(before, out@);
            assert(expr::branch_head(nb) == expr::branch_head(h.inner));
        }
    }
    out
}

/// Turns `when x { { :ok v } -> ... }` into a binding of `x` and a `when` on
/// its first slot, in every body.  A statement may become two.
pub fn lower_when_tuple_patterns(e: Spanned<Expr>, fresh: &mut Fresh) -> (r: Vec<Spanned<Expr>>)
    ensures
        (expr::trees(r@), final(fresh).next) == split_stmt(expr::tree_of(e), old(fresh).next),
    decreases expr::tree_of(e), 1nat,
{
    let e = lower_when_tuple_patterns_in_expr(e, fresh);
    let span = e.span;
    match e.inner {
        Expr::When { cond, branches } => split_the_when(cond, branches, span, fresh),
        other => {
            let mut out: Vec<Spanned<Expr>> = Vec::new();
            let one = Spanned { inner: other, span };
            let ghost t = expr::tree_of(one);
            out.push(one);
            proof {
                assert(expr::trees(out@) =~= seq![t]);
            }
            out
        },
    }
}

/// Splits the tuple patterns of every statement of a body.
pub fn split_body(body: Vec<Spanned<Expr>>, fresh: &mut Fresh) -> (r: Vec<Spanned<Expr>>)
    ensures
        (expr::trees(r@), final(fresh).next) == split_all(
            expr::trees(body@),
            body@.len(),
            old(fresh).next,
        ),
    decreases expr::trees(body@), 2nat,
{
    let ghost es0 = body@;
    let ghost ts = expr::trees(es0);
    let ghost start = fresh.next;
    let mut out: Vec<Spanned<Expr>> = Vec::new();
    proof {
        assert(expr::trees(out@) =~= Seq::<Tree>::empty());
    }
    for e in it: body
        invariant
            it.seq() == es0,
            es0 == body@,
            ts == expr::trees(es0),
            (expr::trees(out@), fresh.next) == split_all(ts, it.index() as nat, start),
    {
        proof {
            assert(ts[it.index() as int] == expr::tree_of(e));
            assert(decreases_to!(ts => ts[it.index() as int]));
        }
        let these = lower_when_tuple_patterns(e, fresh);
        out = join_bodies(out, these);
    }
    out
}

/// No statement of an expanded body is a tuple binding.
pub proof fn no_tuple_binding_is_left(body: Seq<Tree>, n: nat, next: u32)
    requires
        n <= body.len(),
        forall|i: int|
            0 <= i < body.len() && (#[trigger] body[i]).head is LetTuple ==> body[i].kids.len()
                == 1,
    ensures
        forall|i: int|
            0 <= i < expanded_body(body, n, next).0.len() ==> !((#[trigger] expanded_body(
                body,
                n,
                next,
            ).0[i]).head is LetTuple),
    decreases n,
{
    if n > 0 {
        no_tuple_binding_is_left(body, (n - 1) as nat, next);
        let (before, c) = expanded_body(body, (n - 1) as nat, next);
        let (these, _) = expanded(body[n - 1], c);
        let after = expanded_body(body, n, next).0;
        if let Head::LetTuple(fields) = body[n - 1].head {
            field_lets_are_lets(
                synth::numbered("__dst_"@, c),
                fields,
                fields.len(),
                body[n - 1].span,
            );
        }
        assert forall|i: int| 0 <= i < after.len() implies !((#[trigger] after[i]).head is LetTuple)
        by {
            if i < before.len() {
                assert(after[i] == before[i]);
            } else {
                assert(after[i] == these[i - before.len()]);
            }
        }
    }
}

proof fn field_lets_are_lets(name: Text, fields: Seq<Spanned<Text>>, n: nat, span: SimpleSpan)
    ensures
        forall|i: int|
            0 <= i < field_lets(name, fields, n, span).len() ==> (#[trigger] field_lets(
                name,
                fields,
                n,
                span,
            )[i]).head is Let,
    decreases n,
{
    if n > 0 {
        field_lets_are_lets(name, fields, (n - 1) as nat, span);
        let before = field_lets(name, fields, (n - 1) as nat, span);
        let after = field_lets(name, fields, n, span);
        assert forall|i: int| 0 <= i < after.len() implies (#[trigger] after[i]).head is Let by {
            if i < before.len() {
                assert(after[i] == before[i]);
            }
        }
    }
}

} // verus!
