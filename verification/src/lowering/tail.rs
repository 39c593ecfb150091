//! The value of a body: what its last statement sends to the caller.

use vstd::prelude::*;

use crate::api::ast::Branch;
use crate::api::expr;
use crate::api::expr::{Expr, Head, Tree};
use crate::lowering::synth;
use crate::lowering::synth::{build_caller_send, is_var_named, synth_null_pid};
use crate::lowering::tuples;
use crate::span::{SimpleSpan, SpanWrap, Spanned};

verus! {

/// Whether `t` is a call of the caller.
pub open spec fn calls_caller(t: Tree) -> bool {
    t.head is Jump && t.kids.len() > 0 && synth::is_var(t.kids[0], "__caller"@)
}

/// How many of a part's subtrees come before its body: an arm begins with
/// its pattern.
pub open spec fn body_start(part: Tree) -> nat {
    if part.head is Arm {
        1
    } else {
        0
    }
}

/// Whether `t` is certain to end in a send to the caller: it is one, or it
/// is a `when` or `wait` with parts whose bodies all end in one.
pub open spec fn sends(t: Tree) -> bool
    decreases t, 0nat,
{
    match t.head {
        Head::Jump => calls_caller(t),
        Head::When | Head::Wait => t.kids.len() > 1 && parts_send(t.kids, 1),
        _ => false,
    }
}

/// Whether the bodies of the parts from `from` on all end in a send.
pub open spec fn parts_send(parts: Seq<Tree>, from: int) -> bool
    decreases parts, parts.len() - from,
{
    if from < 0 || from >= parts.len() {
        true
    } else {
        part_sends(parts[from]) && parts_send(parts, from + 1)
    }
}

/// Whether the body of a part ends in a send.
pub open spec fn part_sends(part: Tree) -> bool
    decreases part, 1nat,
{
    part.kids.len() > body_start(part) && part.kids.len() > 0 && sends(
        part.kids[part.kids.len() - 1],
    )
}

/// A body whose value goes to the caller.
pub open spec fn wrapped_body(body: Seq<Tree>) -> Seq<Tree>
    decreases body, 0nat,
{
    if body.len() == 0 {
        body
    } else {
        body.drop_last() + wrapped_tail(body[body.len() - 1])
    }
}

/// A last statement whose value goes to the caller.  The bodies of a `when`
/// or `wait` send on their own; a statement without a value is followed by
/// a send of nothing.
pub open spec fn wrapped_tail(t: Tree) -> Seq<Tree>
    decreases t, 0nat,
{
    match t.head {
        Head::When | Head::Wait => seq![Tree { kids: wrapped_parts(t.kids), ..t }],
        Head::Pin | Head::Let(_, _) => seq![
            t,
            synth::caller_send(t.span, synth::null_pid(t.span)),
        ],
        Head::LetTuple(_) => seq![t],
        _ => if calls_caller(t) {
            seq![t]
        } else {
            seq![synth::caller_send(t.span, t)]
        },
    }
}

/// The parts of a `when` or `wait`, their bodies wrapped; the first subtree
/// is no part.
pub open spec fn wrapped_parts(ts: Seq<Tree>) -> Seq<Tree>
    decreases ts, 0nat,
{
    Seq::new(
        ts.len(),
        |i: int|
            if 1 <= i < ts.len() {
                wrapped_part(ts[i])
            } else {
                ts[i]
            },
    )
}

/// A part whose body is wrapped.
pub open spec fn wrapped_part(part: Tree) -> Tree
    decreases part, 1nat,
{
    let k = body_start(part) as int;
    if (part.head is Arm || part.head is Handler) && part.kids.len() > k {
        proof {
            assert(decreases_to!(part => part.kids));
            assert(k > 0 ==> decreases_to!(part.kids => part.kids.skip(k)));
            assert(part.kids.skip(0) =~= part.kids);
        }
        Tree { kids: part.kids.take(k) + wrapped_body(part.kids.skip(k)), ..part }
    } else {
        part
    }
}

/// Whether every body inside a tail has a value to send: no `when` or
/// `wait` without parts, no empty body, no tuple binding at the end.
pub open spec fn has_value(t: Tree) -> bool
    decreases t, 0nat,
{
    match t.head {
        Head::When | Head::Wait => t.kids.len() > 1 && parts_have_value(t.kids, 1),
        Head::LetTuple(_) => false,
        _ => true,
    }
}

/// [`has_value`] of the last statement of each part from `from` on.
pub open spec fn parts_have_value(parts: Seq<Tree>, from: int) -> bool
    decreases parts, parts.len() - from,
{
    if from < 0 || from >= parts.len() {
        true
    } else {
        (parts[from].head is Arm || parts[from].head is Handler) && parts[from].kids.len()
            > body_start(parts[from]) && parts[from].kids.len() > 0 && has_value(
            parts[from].kids[parts[from].kids.len() - 1],
        ) && parts_have_value(parts, from + 1)
    }
}

/// A wrapped body that has a value to send ends in a send to the caller.
pub proof fn wrapped_body_sends(body: Seq<Tree>)
    requires
        body.len() > 0,
        has_value(body.last()),
    ensures
        wrapped_body(body).len() > 0,
        sends(wrapped_body(body).last()),
    decreases body, 0nat,
{
    wrapped_tail_sends(body[body.len() - 1]);
    let w = wrapped_tail(body[body.len() - 1]);
    assert(wrapped_body(body).last() == w.last());
}

proof fn wrapped_tail_sends(t: Tree)
    requires
        has_value(t),
    ensures
        wrapped_tail(t).len() > 0,
        sends(wrapped_tail(t).last()),
    decreases t, 0nat,
{
    if t.head is When || t.head is Wait {
        wrapped_parts_send(t.kids, 1);
        let w = wrapped_tail(t).last();
        assert(w.kids == wrapped_parts(t.kids));
    } else {
        let s = synth::caller_send(t.span, t);
        assert(s.kids[0] == synth::caller_var(t.span));
        let n = synth::caller_send(t.span, synth::null_pid(t.span));
        assert(n.kids[0] == synth::caller_var(t.span));
    }
}

proof fn wrapped_parts_send(parts: Seq<Tree>, from: int)
    requires
        from >= 1,
        parts_have_value(parts, from),
    ensures
        parts_send(wrapped_parts(parts), from),
    decreases parts, parts.len() - from,
{
    if from < parts.len() {
        wrapped_parts_send(parts, from + 1);
        let p = parts[from];
        let k = body_start(p) as int;
        let b = p.kids.skip(k);
        assert(b.last() == p.kids[p.kids.len() - 1]);
        assert(decreases_to!(parts => p));
        assert(decreases_to!(p => p.kids));
        assert(k == 0 ==> b =~= p.kids);
        assert(k > 0 ==> decreases_to!(p.kids => p.kids.skip(k)));
        wrapped_body_sends(b);
        let w = wrapped_part(p);
        assert(wrapped_parts(parts)[from] == w);
        assert(w.kids.last() == wrapped_body(b).last());
        assert(part_sends(w));
    }
}

/// Wrapping a wrapped body changes nothing.
pub proof fn wrapping_twice_is_wrapping_once(body: Seq<Tree>)
    ensures
        wrapped_body(wrapped_body(body)) == wrapped_body(body),
    decreases body, 0nat,
{
    if body.len() > 0 {
        let t = body[body.len() - 1];
        let w = wrapped_tail(t);
        let once = wrapped_body(body);
        wrapped_tail_is_stable(t);
        assert(once.last() == w.last());
        assert(once.drop_last() =~= body.drop_last() + w.drop_last());
        assert(wrapped_body(once) == once.drop_last() + wrapped_tail(w.last()));
        assert(wrapped_tail(w.last()) == seq![w.last()]);
        assert(once.drop_last() + seq![w.last()] =~= once);
    }
}

proof fn wrapped_tail_is_stable(t: Tree)
    ensures
        wrapped_tail(t).len() > 0,
        wrapped_tail(wrapped_tail(t).last()) == seq![wrapped_tail(t).last()],
    decreases t, 0nat,
{
    let w = wrapped_tail(t);
    let last = w.last();
    if t.head is When || t.head is Wait {
        assert forall|i: int| 1 <= i < t.kids.len() implies wrapped_part(
            wrapped_part(t.kids[i]),
        ) == wrapped_part(t.kids[i]) by {
            let p = t.kids[i];
            let k = body_start(p) as int;
            if (p.head is Arm || p.head is Handler) && p.kids.len() > k {
                let b = p.kids.skip(k);
                assert(decreases_to!(t => t.kids));
                assert(decreases_to!(t => t.kids[i]));
                assert(decreases_to!(t => t.kids[i].kids));
                assert(k == 0 ==> b =~= p.kids);
                assert(k > 0 ==> decreases_to!(p.kids => p.kids.skip(k)));
                wrapping_twice_is_wrapping_once(b);
                let q = wrapped_part(p);
                assert(q.kids == p.kids.take(k) + wrapped_body(b));
                assert(q.kids.skip(k) =~= wrapped_body(b));
                assert(q.kids.take(k) =~= p.kids.take(k));
                wrapped_body_is_not_empty(b);
                assert(wrapped_part(q).kids =~= q.kids);
            }
        }
        assert(wrapped_parts(wrapped_parts(t.kids)) =~= wrapped_parts(t.kids));
        assert(last.kids == wrapped_parts(t.kids));
    } else {
        let s = synth::caller_send(t.span, t);
        assert(s.kids[0] == synth::caller_var(t.span));
        let n = synth::caller_send(t.span, synth::null_pid(t.span));
        assert(n.kids[0] == synth::caller_var(t.span));
    }
}

proof fn wrapped_body_is_not_empty(body: Seq<Tree>)
    requires
        body.len() > 0,
    ensures
        wrapped_body(body).len() > 0,
{
    let t = body[body.len() - 1];
    assert(wrapped_tail(t).len() > 0);
}

// ── executable side ────────────────────────────────────────────────────────

/// Tail shapes that have no value.
pub fn tail_has_no_value(e: &Expr) -> (r: bool)
    ensures
        r == (e is LetTuple),
{
    matches!(e, Expr::LetTuple { .. })
}

fn is_caller_call(e: &Expr) -> (r: bool)
    ensures
        forall|span: SimpleSpan| r == calls_caller(#[trigger] expr::tree(*e, span)),
{
    match e {
        Expr::Jump { ident, args } => {
            proof {
                assert forall|span: SimpleSpan|
                    (#[trigger] expr::tree(*e, span)).kids[0] == expr::tree_of(**ident) by {
                    assert(expr::tree(*e, span).kids == seq![expr::tree_of(**ident)]
                        + expr::trees(args@));
                }
            }
            is_var_named(&ident.inner, "__caller")
        },
        _ => false,
    }
}

proof fn parts_send_after_first(first: Tree, parts: Seq<Tree>, from: int)
    requires
        from >= 0,
    ensures
        parts_send(seq![first] + parts, from + 1) == parts_send(parts, from),
    decreases parts.len() - from,
{
    if from < parts.len() {
        assert((seq![first] + parts)[from + 1] == parts[from]);
        parts_send_after_first(first, parts, from + 1);
    }
}

/// True when the expression is guaranteed to end in a send to the caller,
/// directly or through every branch and handler.
pub fn is_caller_send(e: &Spanned<Expr>) -> (r: bool)
    ensures
        r == sends(expr::tree_of(*e)),
    decreases expr::tree_of(*e), 0nat,
{
    let ghost t = expr::tree_of(*e);
    match &e.inner {
        Expr::Jump { .. } => is_caller_call(&e.inner),
        Expr::When { cond, branches } => {
            let ghost av = expr::arms_view(branches@);
            proof {
                assert(t.kids == seq![expr::tree_of(**cond)] + av);
                assert(t.kids.skip(1) =~= av);
                assert(decreases_to!(t => t.kids.skip(1)));
                parts_send_after_first(expr::tree_of(**cond), av, 0);
            }
            branches.len() > 0 && arms_send(branches)
        },
        Expr::Wait { handlers, filter } => {
            let ghost hv = expr::handlers_view(handlers@);
            proof {
                assert(t.kids == seq![t.kids[0]] + hv);
                assert(t.kids.skip(1) =~= hv);
                assert(decreases_to!(t => t.kids.skip(1)));
                parts_send_after_first(t.kids[0], hv, 0);
            }
            handlers.len() > 0 && handlers_send(handlers)
        },
        _ => false,
    }
}

fn last_sends(body: &Vec<Spanned<Expr>>) -> (r: bool)
    ensures
        r == (body@.len() > 0 && sends(expr::trees(body@).last())),
    decreases expr::trees(body@), 0nat,
{
    let n = body.len();
    if n == 0 {
        return false;
    }
    proof {
        assert(expr::trees(body@)[n - 1] == expr::tree_of(body@[n - 1]));
        assert(decreases_to!(expr::trees(body@) => expr::trees(body@)[n - 1]));
    }
    is_caller_send(&body[n - 1])
}

fn arms_send(arms: &Vec<(Spanned<Expr>, Vec<Spanned<Expr>>)>) -> (r: bool)
    ensures
        r == parts_send(expr::arms_view(arms@), 0),
    decreases expr::arms_view(arms@), 0nat,
{
    let ghost av = expr::arms_view(arms@);
    let mut i: usize = 0;
    while i < arms.len()
        invariant
            i <= arms.len(),
            av == expr::arms_view(arms@),
            parts_send(av, 0) == parts_send(av, i as int),
        decreases arms.len() - i,
    {
        let ghost p = av[i as int];
        let ghost b = expr::trees(arms@[i as int].1@);
        proof {
            assert(p == expr::arm_tree(expr::tree_of(arms@[i as int].0), b));
            assert(p.kids.skip(1) =~= b);
            assert(b.len() > 0 ==> b.last() == p.kids[p.kids.len() - 1]);
            assert(decreases_to!(av => p));
            assert(decreases_to!(av => p.kids));
            assert(decreases_to!(av => p.kids.skip(1)));
        }
        let ok = last_sends(&arms[i].1);
        proof {
            assert(ok == part_sends(p));
        }
        if !ok {
            return false;
        }
        i = i + 1;
    }
    true
}

fn handlers_send(hs: &Vec<Spanned<Branch>>) -> (r: bool)
    ensures
        r == parts_send(expr::handlers_view(hs@), 0),
    decreases expr::handlers_view(hs@), 0nat,
{
    let ghost hv = expr::handlers_view(hs@);
    let mut i: usize = 0;
    while i < hs.len()
        invariant
            i <= hs.len(),
            hv == expr::handlers_view(hs@),
            parts_send(hv, 0) == parts_send(hv, i as int),
        decreases hs.len() - i,
    {
        let ghost p = hv[i as int];
        proof {
            assert(p.kids == expr::trees(hs@[i as int].inner.body@));
            assert(decreases_to!(hv => p));
            assert(decreases_to!(hv => p.kids));
        }
        let ok = last_sends(&hs[i].inner.body);
        proof {
            assert(ok == part_sends(p));
        }
        if !ok {
            return false;
        }
        i = i + 1;
    }
    true
}

fn one_stmt(e: Spanned<Expr>) -> (r: Vec<Spanned<Expr>>)
    ensures
        expr::trees(r@) == seq![expr::tree_of(e)],
{
    let mut out: Vec<Spanned<Expr>> = Vec::new();
    let ghost t = expr::tree_of(e);
    out.push(e);
    proof {
        assert(expr::trees(out@) =~= seq![t]);
    }
    out
}

fn two_stmts(a: Spanned<Expr>, b: Spanned<Expr>) -> (r: Vec<Spanned<Expr>>)
    ensures
        expr::trees(r@) == seq![expr::tree_of(a), expr::tree_of(b)],
{
    let mut out: Vec<Spanned<Expr>> = Vec::new();
    let ghost s = expr::tree_of(a);
    let ghost t = expr::tree_of(b);
    out.push(a);
    out.push(b);
    proof {
        assert(expr::trees(out@) =~= seq![s, t]);
    }
    out
}

/// The last statement of a body, made to send its value to the caller.
pub fn wrap_tail_in_caller_send(tail: Spanned<Expr>) -> (r: Vec<Spanned<Expr>>)
    ensures
        expr::trees(r@) == wrapped_tail(expr::tree_of(tail)),
    decreases expr::tree_of(tail), 0nat,
{
    let ghost t = expr::tree_of(tail);
    let span = tail.span;
    match tail.inner {
        Expr::When { cond, branches } => {
            let ghost c = expr::tree_of(*cond);
            let ghost av = expr::arms_view(branches@);
            proof {
                assert(t.kids == seq![c] + av);
                assert(t.kids.skip(1) =~= av);
                assert(decreases_to!(t => t.kids.skip(1)));
            }
            let branches = wrap_arms(branches);
            let w = Expr::When { cond, branches }.with_span(span);
            proof {
                assert(expr::tree_of(w).kids == seq![c] + expr::arms_view(branches@));
                assert(expr::tree_of(w).kids =~= wrapped_parts(t.kids));
            }
            one_stmt(w)
        },
        Expr::Wait { handlers, filter } => {
            let ghost f = t.kids[0];
            let ghost hv = expr::handlers_view(handlers@);
            proof {
                assert(t.kids == seq![f] + hv);
                assert(t.kids.skip(1) =~= hv);
                assert(decreases_to!(t => t.kids.skip(1)));
            }
            let handlers = wrap_handlers(handlers);
            let w = Expr::Wait { handlers, filter }.with_span(span);
            proof {
                assert(expr::tree_of(w).kids == seq![f] + expr::handlers_view(handlers@));
                assert(expr::tree_of(w).kids =~= wrapped_parts(t.kids));
            }
            one_stmt(w)
        },
        Expr::Pin(inner) => {
            let send = build_caller_send(span, synth_null_pid(span)).with_span(span);
            two_stmts(Expr::Pin(inner).with_span(span), send)
        },
        Expr::Let { ident, ty, default } => {
            let send = build_caller_send(span, synth_null_pid(span)).with_span(span);
            two_stmts(Expr::Let { ident, ty, default }.with_span(span), send)
        },
        other => {
            if tail_has_no_value(&other) || is_caller_call(&other) {
                one_stmt(Spanned { inner: other, span })
            } else {
                one_stmt(
                    build_caller_send(span, Spanned { inner: other, span }).with_span(span),
                )
            }
        },
    }
}

fn wrap_arms(arms: Vec<(Spanned<Expr>, Vec<Spanned<Expr>>)>) -> (r: Vec<
    (Spanned<Expr>, Vec<Spanned<Expr>>),
>)
    ensures
        expr::arms_view(r@) == Seq::new(
            arms@.len(),
            |i: int| wrapped_part(expr::arms_view(arms@)[i]),
        ),
    decreases expr::arms_view(arms@), 1nat,
{
    let ghost arms0 = arms@;
    let ghost av = expr::arms_view(arms0);
    let mut out: Vec<(Spanned<Expr>, Vec<Spanned<Expr>>)> = Vec::new();
    for arm in it: arms
        invariant
            it.seq() == arms0,
            arms0 == arms@,
            av == expr::arms_view(arms0),
            out@.len() == it.index(),
            forall|j: int|
                0 <= j < it.index() ==> expr::arm_tree(
                    expr::tree_of((#[trigger] out@[j]).0),
                    expr::trees(out@[j].1@),
                ) == wrapped_part(av[j]),
    {
        let ghost p = av[it.index() as int];
        let (pat, body) = arm;
        proof {
            assert(p == expr::arm_tree(expr::tree_of(pat), expr::trees(body@)));
            assert(p.kids.skip(1) =~= expr::trees(body@));
            assert(p.kids.take(1) =~= seq![expr::tree_of(pat)]);
            assert(decreases_to!(av => p));
            assert(decreases_to!(av => p.kids));
            assert(decreases_to!(av => p.kids.skip(1)));
            if body@.len() == 0 {
                assert(wrapped_body(expr::trees(body@)) =~= expr::trees(body@));
            }
        }
        let body = wrap_body_tail_in_caller_send(body);
        proof {
            assert(expr::arm_tree(expr::tree_of(pat), expr::trees(body@)).kids
                =~= wrapped_part(p).kids);
        }
        out.push((pat, body));
    }
    proof {
        assert(expr::arms_view(out@) =~= Seq::new(
            arms0.len(),
            |i: int| wrapped_part(expr::arms_view(arms0)[i]),
        ));
    }
    out
}

fn wrap_handlers(hs: Vec<Spanned<Branch>>) -> (r: Vec<Spanned<Branch>>)
    ensures
        expr::handlers_view(r@) == Seq::new(
            hs@.len(),
            |i: int| wrapped_part(expr::handlers_view(hs@)[i]),
        ),
    decreases expr::handlers_view(hs@), 1nat,
{
    let ghost hs0 = hs@;
    let ghost hv = expr::handlers_view(hs0);
    let mut out: Vec<Spanned<Branch>> = Vec::new();
    for h in it: hs
        invariant
            it.seq() == hs0,
            hs0 == hs@,
            hv == expr::handlers_view(hs0),
            out@.len() == it.index(),
            forall|j: int|
                0 <= j < it.index() ==> (Tree {
                    head: Head::Handler(expr::branch_head((#[trigger] out@[j]).inner)),
                    span: out@[j].span,
                    kids: expr::trees(out@[j].inner.body@),
                }) == wrapped_part(hv[j]),
    {
        let ghost p = hv[it.index() as int];
        proof {
            assert(p.kids == expr::trees(h.inner.body@));
            assert(p.kids.skip(0) =~= p.kids);
            assert(decreases_to!(hv => p));
            assert(decreases_to!(hv => p.kids));
            if h.inner.body@.len() == 0 {
                assert(wrapped_body(p.kids) =~= p.kids);
            }
        }
        let span = h.span;
        let b = h.inner;
        let body = wrap_body_tail_in_caller_send(b.body);
        let nb = Branch { label: b.label, patterns: b.patterns, ret_ty: b.ret_ty, body };
        proof {
            assert(expr::trees(body@) =~= wrapped_part(p).kids);
        }
        out.push(Spanned { inner: nb, span });
    }
    proof {
        assert(expr::handlers_view(out@) =~= Seq::new(
            hs0.len(),
            |i: int| wrapped_part(expr::handlers_view(hs0)[i]),
        ));
    }
    out
}

/// Make the value of a body go to the caller.
pub fn wrap_body_tail_in_caller_send(body: Vec<Spanned<Expr>>) -> (r: Vec<Spanned<Expr>>)
    ensures
        expr::trees(r@) == wrapped_body(expr::trees(body@)),
    decreases expr::trees(body@), 2nat,
{
    let ghost ts = expr::trees(body@);
    let ghost n = body@.len();
    let mut out = body;
    match out.pop() {
        None => {
            proof {
                assert(expr::trees(out@) =~= ts);
            }
            out
        },
        Some(last) => {
            proof {
                assert(ts[n - 1] == expr::tree_of(last));
                assert(decreases_to!(ts => ts[n - 1]));
                assert(expr::trees(out@) =~= ts.drop_last());
            }
            let tail = wrap_tail_in_caller_send(last);
            tuples::join_bodies(out, tail)
        },
    }
}

} // verus!
