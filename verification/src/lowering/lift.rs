//! Lifting calls and composite operands out of value positions.

use vstd::prelude::*;

use crate::api::ast::Type;
use crate::api::expr;
use crate::api::expr::{close, kids_of, open, BinOp, Expr, Head, Shape, Tree};
use crate::lowering::synth;
use crate::lowering::synth::{let_expr, numbered_name, open_var_expr};
use crate::span::{SimpleSpan, SpanWrap, Spanned};
use crate::text::Text;

verus! {

/// The source of fresh numbers.
pub struct Fresh {
    pub next: u32,
}

/// The number that comes after `id`.
pub open spec fn succ(id: u32) -> u32 {
    if id == u32::MAX {
        0
    } else {
        (id + 1) as u32
    }
}

impl Fresh {
    /// Hands out the next number.
    pub fn fresh_id(&mut self) -> (r: u32)
        ensures
            r == old(self).next,
            final(self).next == succ(old(self).next),
    {
        let id = self.next;
        self.next = if id == u32::MAX {
            0
        } else {
            id + 1
        };
        id
    }
}

/// How a subexpression is lifted.
#[derive(Clone, Copy, PartialEq, Eq, Structural)]
pub enum Mode {
    /// Not at all.
    Keep,
    /// Only what lies deeper.
    Inside,
    /// A call moves into a fresh `let`.
    Value,
    /// Everything but a leaf moves into a fresh `let`.
    Leaf,
}

/// How subexpression `i` below `head` is lifted: arguments, tuple elements
/// and arithmetic operands give up calls, the operands of comparisons and
/// bit operators everything but leaves, and the arms of a `when` stay.
pub open spec fn mode(head: Head, i: int) -> Mode {
    match head {
        Head::Jump => if i == 0 {
            Mode::Inside
        } else {
            Mode::Value
        },
        Head::Let(_, _) | Head::TupleIndex(_) | Head::Ret | Head::Pin | Head::Neg => Mode::Inside,
        Head::Tuple => Mode::Value,
        Head::Bin(op) => if op is Add || op is Sub || op is Mul || op is Div {
            Mode::Value
        } else {
            Mode::Leaf
        },
        Head::When => if i == 0 {
            Mode::Inside
        } else {
            Mode::Keep
        },
        _ => Mode::Keep,
    }
}

fn mode_of(shape: &Shape, i: usize) -> (r: Mode)
    ensures
        r == mode(shape.deep_view(), i as int),
{
    match shape {
        Shape::Jump => if i == 0 {
            Mode::Inside
        } else {
            Mode::Value
        },
        Shape::Let(_, _) | Shape::TupleIndex(_) | Shape::Ret | Shape::Pin | Shape::Neg => {
            Mode::Inside
        },
        Shape::Tuple => Mode::Value,
        Shape::Bin(op) => match op {
            BinOp::Add | BinOp::Sub | BinOp::Mul | BinOp::Div => Mode::Value,
            _ => Mode::Leaf,
        },
        _ => Mode::Keep,
    }
}

/// Literals that are their own value, and variables.
pub open spec fn is_leaf(t: Tree) -> bool {
    t.head is Num || t.head is Bool || t.head is Var || t.head is Atom
}

fn is_anf_leaf(e: &Expr) -> (r: bool)
    ensures
        forall|span: SimpleSpan| r == is_leaf(#[trigger] expr::tree(*e, span)),
{
    matches!(e, Expr::Num(_, _) | Expr::Bool(_) | Expr::Var(_, _) | Expr::Atom(_))
}

/// The statements lifted so far and the next fresh number.
#[verifier::ext_equal]
pub struct Lifted {
    pub lifts: Seq<Tree>,
    pub next: u32,
}

/// Moves `t` into a fresh `let` and refers to it.
pub open spec fn moved(prefix: Text, t: Tree, span: SimpleSpan, st: Lifted) -> (Tree, Lifted) {
    let name = synth::numbered(prefix, st.next);
    (
        synth::open_var(name, span),
        Lifted { lifts: st.lifts.push(synth::open_let(name, t, span)), next: succ(st.next) },
    )
}

/// Lifts what lies inside `t`.
pub open spec fn lifted(t: Tree, st: Lifted) -> (Tree, Lifted)
    decreases t, 0nat,
{
    let (kids, st2) = lifted_kids(t.head, t.kids, t.kids.len(), st);
    (Tree { kids, ..t }, st2)
}

/// Lifts the first `n` subexpressions below `head`, from left to right.
pub open spec fn lifted_kids(head: Head, ts: Seq<Tree>, n: nat, st: Lifted) -> (Seq<Tree>, Lifted)
    decreases ts, n,
{
    if n == 0 || n > ts.len() {
        (Seq::empty(), st)
    } else {
        let (ks, s1) = lifted_kids(head, ts, (n - 1) as nat, st);
        let t = ts[n - 1];
        let (k, s2) = match mode(head, n - 1) {
            Mode::Keep => (t, s1),
            Mode::Inside => lifted(t, s1),
            Mode::Value => {
                let (r, s) = lifted(t, s1);
                if t.head is Jump {
                    moved("__lift_"@, r, t.span, s)
                } else {
                    (r, s)
                }
            },
            Mode::Leaf => {
                let (r, s) = lifted(t, s1);
                if is_leaf(r) {
                    (r, s)
                } else {
                    moved("__anf_tmp"@, r, t.span, s)
                }
            },
        };
        (ks.push(k), s2)
    }
}

fn move_out(
    prefix: &str,
    e: Spanned<Expr>,
    span: SimpleSpan,
    lifts: &mut Vec<Spanned<Expr>>,
    fresh: &mut Fresh,
) -> (r: Spanned<Expr>)
    ensures
        ({
            let st = Lifted { lifts: expr::trees(old(lifts)@), next: old(fresh).next };
            (
                expr::tree_of(r),
                Lifted { lifts: expr::trees(final(lifts)@), next: final(fresh).next },
            ) == moved(prefix@, expr::tree_of(e), span, st)
        }),
{
    let id = fresh.fresh_id();
    let name = numbered_name(prefix, id);
    let ghost before = lifts@;
    lifts.push(let_expr(name.as_str(), Type::Unknown, e, span));
    proof {
        assert(expr::trees(lifts@) =~= expr::trees(before).push(
            synth::open_let(name@, expr::tree_of(e), span),
        ));
    }
    open_var_expr(name.as_str(), span)
}

/// Lifts nested calls and composite operands inside an expression into
/// `lifts`.
pub fn lift_in_expr(
    e: Spanned<Expr>,
    lifts: &mut Vec<Spanned<Expr>>,
    fresh: &mut Fresh,
) -> (r: Spanned<Expr>)
    ensures
        ({
            let st = Lifted { lifts: expr::trees(old(lifts)@), next: old(fresh).next };
            (
                expr::tree_of(r),
                Lifted { lifts: expr::trees(final(lifts)@), next: final(fresh).next },
            ) == lifted(expr::tree_of(e), st)
        }),
    decreases expr::tree_of(e), 0nat,
{
    let ghost t = expr::tree_of(e);
    let ghost st = Lifted { lifts: expr::trees(lifts@), next: fresh.next };
    let span = e.span;
    match e.inner {
        Expr::When { cond, branches } => {
            proof {
                assert(t.kids == seq![expr::tree_of(*cond)] + expr::arms_view(branches@));
                assert(t.kids[0] == expr::tree_of(*cond));
                assert(decreases_to!(t => t.kids[0]));
            }
            let cond = lift_in_expr(*cond, lifts, fresh);
            proof {
                let (c, s1) = lifted(t.kids[0], st);
                when_kids_stay(t, st, t.kids.len());
                assert(seq![c] + t.kids.skip(1) =~= seq![c] + expr::arms_view(branches@));
            }
            Expr::When { cond: Box::new(cond), branches }.with_span(span)
        },
        Expr::Wait { handlers, filter } => {
            proof {
                kept_kids_stay(t.head, t.kids, t.kids.len(), st);
                assert(t.kids.take(t.kids.len() as int) =~= t.kids);
            }
            Expr::Wait { handlers, filter }.with_span(span)
        },
        other => {
            let (shape, kids) = open(other);
            proof {
                assert(t == expr::tree(other, span));
                assert(decreases_to!(t => t.kids));
            }
            let kids = lift_kids(&shape, kids, lifts, fresh);
            close(shape, kids).with_span(span)
        },
    }
}

proof fn when_kids_stay(t: Tree, st: Lifted, n: nat)
    requires
        t.head is When,
        1 <= n <= t.kids.len(),
    ensures
        lifted_kids(t.head, t.kids, n, st) == (
            seq![lifted(t.kids[0], st).0] + t.kids.subrange(1, n as int),
            lifted(t.kids[0], st).1,
        ),
    decreases n,
{
    if n == 1 {
        assert(lifted_kids(t.head, t.kids, 0, st).0.push(lifted(t.kids[0], st).0) =~= seq![
            lifted(t.kids[0], st).0,
        ] + t.kids.subrange(1, 1));
    } else {
        when_kids_stay(t, st, (n - 1) as nat);
        assert((seq![lifted(t.kids[0], st).0] + t.kids.subrange(1, n - 1)).push(t.kids[n - 1])
            =~= seq![lifted(t.kids[0], st).0] + t.kids.subrange(1, n as int));
    }
    if n == t.kids.len() {
        assert(t.kids.subrange(1, n as int) =~= t.kids.skip(1));
    }
}

proof fn kept_kids_stay(head: Head, ts: Seq<Tree>, n: nat, st: Lifted)
    requires
        head is Wait,
        n <= ts.len(),
    ensures
        lifted_kids(head, ts, n, st) == (ts.take(n as int), st),
    decreases n,
{
    if n > 0 {
        kept_kids_stay(head, ts, (n - 1) as nat, st);
        assert(ts.take(n - 1).push(ts[n - 1]) =~= ts.take(n as int));
    } else {
        assert(ts.take(0) =~= Seq::<Tree>::empty());
    }
}

fn lift_kids(
    shape: &Shape,
    kids: Vec<Spanned<Expr>>,
    lifts: &mut Vec<Spanned<Expr>>,
    fresh: &mut Fresh,
) -> (r: Vec<Spanned<Expr>>)
    ensures
        ({
            let st = Lifted { lifts: expr::trees(old(lifts)@), next: old(fresh).next };
            (
                expr::trees(r@),
                Lifted { lifts: expr::trees(final(lifts)@), next: final(fresh).next },
            ) == lifted_kids(shape.deep_view(), expr::trees(kids@), kids@.len(), st)
        }),
        r@.len() == kids@.len(),
    decreases expr::trees(kids@), 1nat,
{
    let ghost ks = kids@;
    let ghost ts = expr::trees(ks);
    let ghost head = shape.deep_view();
    let ghost st = Lifted { lifts: expr::trees(lifts@), next: fresh.next };
    let total = kids.len();
    let mut out: Vec<Spanned<Expr>> = Vec::new();
    let mut n: usize = 0;
    proof {
        assert(expr::trees(out@) =~= Seq::<Tree>::empty());
    }
    for k in it: kids
        invariant
            it.seq() == ks,
            ks == kids@,
            n == it.index(),
            ks.len() == total,
            ts == expr::trees(ks),
            head == shape.deep_view(),
            out@.len() == n,
            (
                expr::trees(out@),
                Lifted { lifts: expr::trees(lifts@), next: fresh.next },
            ) == lifted_kids(head, ts, n as nat, st),
    {
        let ghost t = ts[n as int];
        proof {
            assert(t == expr::tree_of(k));
            assert(decreases_to!(ts => t));
        }
        let span = k.span;
        let ghost before = out@;
        let one = match mode_of(shape, n) {
            Mode::Keep => k,
            Mode::Inside => lift_in_expr(k, lifts, fresh),
            Mode::Value => {
                let is_call = matches!(k.inner, Expr::Jump { .. });
                let r = lift_in_expr(k, lifts, fresh);
                if is_call {
                    move_out("__lift_", r, span, lifts, fresh)
                } else {
                    r
                }
            },
            Mode::Leaf => {
                let r = lift_in_expr(k, lifts, fresh);
                if is_anf_leaf(&r.inner) {
                    r
                } else {
                    move_out("__anf_tmp", r, span, lifts, fresh)
                }
            },
        };
        out.push(one);
        proof {
            assert(expr::trees(out@) =~= expr::trees(before).push(expr::tree_of(one)));
        }
        n = n + 1;
    }
    out
}

/// Lifts every statement of a body; what a statement gives up stands before
/// it.
pub open spec fn lifted_body(body: Seq<Tree>, n: nat, next: u32) -> Lifted
    decreases n,
{
    if n == 0 {
        Lifted { lifts: Seq::empty(), next }
    } else {
        let st = lifted_body(body, (n - 1) as nat, next);
        let (t, s) = lifted(body[n - 1], st);
        Lifted { lifts: s.lifts.push(t), next: s.next }
    }
}

/// Lift every call in argument position into a fresh `let` binding before
/// the enclosing statement.
pub fn lift_nested_calls(body: Vec<Spanned<Expr>>, fresh: &mut Fresh) -> (r: Vec<Spanned<Expr>>)
    ensures
        (Lifted { lifts: expr::trees(r@), next: final(fresh).next }) == lifted_body(
            expr::trees(body@),
            body@.len(),
            old(fresh).next,
        ),
{
    let ghost es = body@;
    let ghost ts = expr::trees(es);
    let ghost start = fresh.next;
    let mut out: Vec<Spanned<Expr>> = Vec::new();
    proof {
        assert(expr::trees(out@) =~= Seq::<Tree>::empty());
    }
    for e in it: body
        invariant
            it.seq() == es,
            ts == expr::trees(es),
            (Lifted { lifts: expr::trees(out@), next: fresh.next }) == lifted_body(
                ts,
                it.index() as nat,
                start,
            ),
    {
        proof {
            assert(ts[it.index() as int] == expr::tree_of(e));
        }
        let lifted_e = lift_in_expr(e, &mut out, fresh);
        let ghost before = out@;
        out.push(lifted_e);
        proof {
            assert(expr::trees(out@) =~= expr::trees(before).push(expr::tree_of(lifted_e)));
        }
    }
    out
}

// ── what is left in place ──────────────────────────────────────────────────

/// Whether nothing in `t` is left to lift: no argument, tuple element or
/// arithmetic operand is a call, and the operands of comparisons and bit
/// operators are leaves.
pub open spec fn flat(t: Tree) -> bool
    decreases t,
{
    forall|i: int|
        0 <= i < t.kids.len() ==> match mode(t.head, i) {
            Mode::Keep => true,
            Mode::Inside => flat(#[trigger] t.kids[i]),
            Mode::Value => !(t.kids[i].head is Jump) && flat(t.kids[i]),
            Mode::Leaf => is_leaf(t.kids[i]),
        }
}

/// [`flat`] of all statements of a body.
pub open spec fn all_flat(ts: Seq<Tree>) -> bool {
    forall|i: int| 0 <= i < ts.len() ==> flat(#[trigger] ts[i])
}

proof fn lifting_flattens(t: Tree, st: Lifted)
    requires
        all_flat(st.lifts),
    ensures
        flat(lifted(t, st).0),
        all_flat(lifted(t, st).1.lifts),
    decreases t, 0nat,
{
    lifting_kids_flattens(t.head, t.kids, t.kids.len(), st);
    let r = lifted(t, st).0;
    assert forall|i: int| 0 <= i < r.kids.len() implies match mode(r.head, i) {
        Mode::Keep => true,
        Mode::Inside => flat(#[trigger] r.kids[i]),
        Mode::Value => !(r.kids[i].head is Jump) && flat(r.kids[i]),
        Mode::Leaf => is_leaf(r.kids[i]),
    } by {
        assert(fits_mode(t.head, i, r.kids[i]));
    }
}

/// Whether a subexpression is as its mode leaves it.
spec fn fits_mode(head: Head, i: int, k: Tree) -> bool {
    match mode(head, i) {
        Mode::Keep => true,
        Mode::Inside => flat(k),
        Mode::Value => !(k.head is Jump) && flat(k),
        Mode::Leaf => is_leaf(k),
    }
}

proof fn lifting_kids_flattens(head: Head, ts: Seq<Tree>, n: nat, st: Lifted)
    requires
        n <= ts.len(),
        all_flat(st.lifts),
    ensures
        lifted_kids(head, ts, n, st).0.len() == n,
        forall|i: int|
            0 <= i < n ==> fits_mode(head, i, #[trigger] lifted_kids(head, ts, n, st).0[i]),
        all_flat(lifted_kids(head, ts, n, st).1.lifts),
    decreases ts, n,
{
    if n > 0 {
        lifting_kids_flattens(head, ts, (n - 1) as nat, st);
        let (ks, s1) = lifted_kids(head, ts, (n - 1) as nat, st);
        let t = ts[n - 1];
        lifting_flattens(t, s1);
        let (r, s) = lifted(t, s1);
        moving_keeps_flat("__lift_"@, r, t.span, s);
        moving_keeps_flat("__anf_tmp"@, r, t.span, s);
        let kids = lifted_kids(head, ts, n, st).0;
        assert forall|i: int| 0 <= i < n implies fits_mode(head, i, #[trigger] kids[i]) by {
            if i < n - 1 {
                assert(kids[i] == ks[i]);
            }
        }
    }
}

proof fn moving_keeps_flat(prefix: Text, t: Tree, span: SimpleSpan, st: Lifted)
    requires
        flat(t),
        all_flat(st.lifts),
    ensures
        flat(moved(prefix, t, span, st).0),
        is_leaf(moved(prefix, t, span, st).0),
        all_flat(moved(prefix, t, span, st).1.lifts),
{
    let l = synth::open_let(synth::numbered(prefix, st.next), t, span);
    assert(flat(l)) by {
        assert(l.kids[0] == t);
    }
    let after = moved(prefix, t, span, st).1.lifts;
    assert forall|i: int| 0 <= i < after.len() implies flat(#[trigger] after[i]) by {
        if i < st.lifts.len() {
            assert(after[i] == st.lifts[i]);
        }
    }
}

/// Lifting leaves no nested call: every statement that comes out of it is
/// flat.
pub proof fn lifted_bodies_are_flat(body: Seq<Tree>, n: nat, next: u32)
    requires
        n <= body.len(),
    ensures
        all_flat(lifted_body(body, n, next).lifts),
    decreases n,
{
    if n > 0 {
        lifted_bodies_are_flat(body, (n - 1) as nat, next);
        let st = lifted_body(body, (n - 1) as nat, next);
        lifting_flattens(body[n - 1], st);
        let (t, s) = lifted(body[n - 1], st);
        let after = lifted_body(body, n, next).lifts;
        assert forall|i: int| 0 <= i < after.len() implies flat(#[trigger] after[i]) by {
            if i < s.lifts.len() {
                assert(after[i] == s.lifts[i]);
            }
        }
    }
}

fn mode_in(e: &Expr, i: usize) -> (r: Mode)
    ensures
        forall|span: SimpleSpan| r == mode((#[trigger] expr::tree(*e, span)).head, i as int),
{
    match e {
        Expr::Jump { .. } => if i == 0 {
            Mode::Inside
        } else {
            Mode::Value
        },
        Expr::Let { .. } | Expr::TupleIndex { .. } | Expr::Ret(_) | Expr::Pin(_) | Expr::Neg(_) => {
            Mode::Inside
        },
        Expr::Tuple(_) | Expr::Add(_, _) | Expr::Sub(_, _) | Expr::Mul(_, _) | Expr::Div(_, _) => {
            Mode::Value
        },
        Expr::Le(_, _) | Expr::Ge(_, _) | Expr::Eq(_, _) | Expr::Lt(_, _) | Expr::Gt(_, _)
        | Expr::BAnd(_, _) | Expr::BOr(_, _) | Expr::BXor(_, _) | Expr::Shl(_, _)
        | Expr::Shr(_, _) => Mode::Leaf,
        Expr::When { .. } => if i == 0 {
            Mode::Inside
        } else {
            Mode::Keep
        },
        _ => Mode::Keep,
    }
}

/// Whether nothing is to be lifted out of an expression.
pub fn is_flat(e: &Spanned<Expr>) -> (r: bool)
    ensures
        r == flat(expr::tree_of(*e)),
    decreases expr::tree_of(*e), 0nat,
{
    let ghost t = expr::tree_of(*e);
    match &e.inner {
        Expr::When { cond, branches } => {
            proof {
                assert(t.kids == seq![expr::tree_of(**cond)] + expr::arms_view(branches@));
                assert(t.kids[0] == expr::tree_of(**cond));
                assert(decreases_to!(t => t.kids[0]));
            }
            let r = is_flat(cond);
            proof {
                assert(mode(t.head, 0) is Inside);
                assert(forall|i: int| i > 0 ==> mode(t.head, i) is Keep);
                if r {
                    assert forall|i: int| 0 <= i < t.kids.len() implies match mode(t.head, i) {
                        Mode::Keep => true,
                        Mode::Inside => flat(#[trigger] t.kids[i]),
                        Mode::Value => !(t.kids[i].head is Jump) && flat(t.kids[i]),
                        Mode::Leaf => is_leaf(t.kids[i]),
                    } by {}
                }
            }
            r
        },
        Expr::Wait { .. } => {
            proof {
                assert(t.head is Wait);
                assert(forall|i: int| mode(t.head, i) is Keep);
            }
            true
        },
        other => {
            let kids = kids_of(other);
            proof {
                assert(t.kids == expr::ref_trees(kids@));
                assert(decreases_to!(t => t.kids));
            }
            let mut i: usize = 0;
            while i < kids.len()
                invariant
                    i <= kids.len(),
                    t == expr::tree(*other, t.span),
                    t == expr::tree_of(*e),
                    t.kids == expr::ref_trees(kids@),
                    forall|j: int| 0 <= j < i ==> fits_mode(t.head, j, #[trigger] t.kids[j]),
                decreases kids.len() - i,
            {
                proof {
                    assert(t.kids[i as int] == expr::tree_of(*kids@[i as int]));
                    assert(decreases_to!(t => t.kids[i as int]));
                }
                let ok = match mode_in(other, i) {
                    Mode::Keep => true,
                    Mode::Inside => is_flat(kids[i]),
                    Mode::Value => !matches!(kids[i].inner, Expr::Jump { .. }) && is_flat(kids[i]),
                    Mode::Leaf => is_anf_leaf(&kids[i].inner),
                };
                proof {
                    assert(ok == fits_mode(t.head, i as int, t.kids[i as int]));
                }
                if !ok {
                    return false;
                }
                i = i + 1;
            }
            proof {
                assert forall|j: int| 0 <= j < t.kids.len() implies match mode(t.head, j) {
                    Mode::Keep => true,
                    Mode::Inside => flat(#[trigger] t.kids[j]),
                    Mode::Value => !(t.kids[j].head is Jump) && flat(t.kids[j]),
                    Mode::Leaf => is_leaf(t.kids[j]),
                } by {
                    assert(fits_mode(t.head, j, t.kids[j]));
                }
            }
            true
        },
    }
}

} // verus!
