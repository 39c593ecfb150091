//! Properties that hold of an expression when they hold of its nodes.

use vstd::prelude::*;

use crate::api::ast::Branch;
use crate::api::expr;
use crate::api::expr::{kids_of, Expr, Head, Tree};
use crate::span::{SimpleSpan, Spanned};

verus! {

/// What a property asks.
pub struct Ask {
    /// What is asked of a node itself.
    pub local: spec_fn(Tree) -> bool,
    /// Whether subexpression `i` below a head has to satisfy the property
    /// too.
    pub covers: spec_fn(Head, int) -> bool,
}

/// A property of nodes that can be checked.
pub trait Property {
    /// What has to hold for the property to be checked.
    spec fn ready(&self) -> bool;

    spec fn ask(&self) -> Ask;

    fn check_local(&self, e: &Spanned<Expr>) -> (r: bool)
        requires
            self.ready(),
        ensures
            r == (self.ask().local)(expr::tree_of(*e)),
    ;

    fn check_covers(&self, e: &Expr, i: usize) -> (r: bool)
        ensures
            forall|span: SimpleSpan|
                r == (self.ask().covers)((#[trigger] expr::tree(*e, span)).head, i as int),
    ;
}

/// Whether a kid has to satisfy the property: all parts of a `when` and a
/// `wait` do, once their node does.
pub open spec fn covered(p: Ask, head: Head, i: int) -> bool {
    match head {
        Head::When | Head::Wait | Head::Arm | Head::Filter | Head::Handler(_) => true,
        h => (p.covers)(h, i),
    }
}

/// Whether a tree satisfies the property: its node does, and so do the
/// subexpressions that are covered.
pub open spec fn holds(p: Ask, t: Tree) -> bool
    decreases t,
{
    (is_part(t.head) || (p.local)(t)) && holds_first(p, t.head, t.kids, t.kids.len())
}

pub open spec fn is_part(head: Head) -> bool {
    head is Arm || head is Filter || head is Handler
}

/// Whether the covered ones among the first `n` kids satisfy the property.
pub open spec fn holds_first(p: Ask, head: Head, ts: Seq<Tree>, n: nat) -> bool
    decreases ts, n,
{
    n == 0 || n > ts.len() || (holds_first(p, head, ts, (n - 1) as nat) && (covered(
        p,
        head,
        n - 1,
    ) ==> holds(p, ts[n - 1])))
}

/// Whether all trees of a list satisfy the property.
pub open spec fn all_hold(p: Ask, ts: Seq<Tree>) -> bool {
    forall|i: int| 0 <= i < ts.len() ==> #[trigger] holds(p, ts[i])
}

pub proof fn holds_first_iff(p: Ask, head: Head, ts: Seq<Tree>, n: nat)
    requires
        n <= ts.len(),
    ensures
        holds_first(p, head, ts, n) == (forall|i: int|
            0 <= i < n && covered(p, head, i) ==> #[trigger] holds(p, ts[i])),
    decreases n,
{
    if n > 0 {
        holds_first_iff(p, head, ts, (n - 1) as nat);
        if holds_first(p, head, ts, n) {
        } else {
            if holds_first(p, head, ts, (n - 1) as nat) {
                assert(covered(p, head, n - 1) && !holds(p, ts[n - 1]));
            }
        }
    }
}

/// `holds`, with its quantifier.
pub proof fn holds_iff(p: Ask, t: Tree)
    ensures
        holds(p, t) == ((is_part(t.head) || (p.local)(t)) && (forall|i: int|
            0 <= i < t.kids.len() && covered(p, t.head, i) ==> #[trigger] holds(p, t.kids[i]))),
{
    holds_first_iff(p, t.head, t.kids, t.kids.len());
}

/// Checks one expression.
pub fn check<P: Property>(p: &P, e: &Spanned<Expr>) -> (r: bool)
    requires
        p.ready(),
    ensures
        r == holds(p.ask(), expr::tree_of(*e)),
    decreases expr::tree_of(*e), 0nat,
{
    let ghost t = expr::tree_of(*e);
    proof {
        holds_iff(p.ask(), t);
    }
    if !p.check_local(e) {
        return false;
    }
    match &e.inner {
        Expr::When { cond, branches } => {
            proof {
                assert(t.kids == seq![expr::tree_of(**cond)] + expr::arms_view(branches@));
                assert(t.kids[0] == expr::tree_of(**cond));
                assert(t.kids.skip(1) =~= expr::arms_view(branches@));
                assert(decreases_to!(t => t.kids[0]));
                assert(decreases_to!(t => t.kids.skip(1)));
            }
            let a = check(p, cond);
            let b = check_arms(p, branches);
            proof {
                assert forall|i: int| 0 <= i < t.kids.len() && a && b implies #[trigger] holds(
                    p.ask(),
                    t.kids[i],
                ) by {
                    if i > 0 {
                        assert(holds(p.ask(), t.kids.skip(1)[i - 1]));
                    }
                }
                if !b {
                    let k = choose|k: int|
                        0 <= k < t.kids.skip(1).len() && !#[trigger] holds(
                            p.ask(),
                            t.kids.skip(1)[k],
                        );
                    assert(!holds(p.ask(), t.kids[k + 1]));
                }
            }
            a && b
        },
        Expr::Wait { handlers, filter } => {
            let ghost f = t.kids[0];
            proof {
                assert(t.kids.skip(1) =~= expr::handlers_view(handlers@));
                assert(f.kids == expr::trees(filter@));
                assert(decreases_to!(t => t.kids.skip(1)));
                assert(decreases_to!(t => t.kids[0]));
                assert(decreases_to!(t.kids[0] => t.kids[0].kids));
                holds_iff(p.ask(), f);
            }
            let a = check_all(p, filter);
            let b = check_handlers(p, handlers);
            proof {
                assert(a == holds(p.ask(), f));
                assert forall|i: int| 0 <= i < t.kids.len() && a && b implies #[trigger] holds(
                    p.ask(),
                    t.kids[i],
                ) by {
                    if i > 0 {
                        assert(holds(p.ask(), t.kids.skip(1)[i - 1]));
                    }
                }
                if !b {
                    let k = choose|k: int|
                        0 <= k < t.kids.skip(1).len() && !#[trigger] holds(
                            p.ask(),
                            t.kids.skip(1)[k],
                        );
                    assert(!holds(p.ask(), t.kids[k + 1]));
                }
            }
            a && b
        },
        other => {
            let kids = kids_of(other);
            proof {
                assert(t.kids == expr::ref_trees(kids@));
                assert(decreases_to!(t => t.kids));
            }
            check_kids(p, other, kids, Ghost(t))
        },
    }
}

fn check_kids<'a, P: Property>(
    p: &P,
    e: &'a Expr,
    kids: Vec<&'a Spanned<Expr>>,
    Ghost(t): Ghost<Tree>,
) -> (r: bool)
    requires
        p.ready(),
        t == expr::tree(*e, t.span),
        t.kids == expr::ref_trees(kids@),
        !(t.head is When),
        !(t.head is Wait),
        !is_part(t.head),
    ensures
        r == (forall|i: int|
            0 <= i < t.kids.len() && covered(p.ask(), t.head, i) ==> #[trigger] holds(p.ask(), t.kids[i])),
    decreases t.kids, 1nat,
{
    let mut i: usize = 0;
    while i < kids.len()
        invariant
            p.ready(),
            i <= kids.len(),
            t == expr::tree(*e, t.span),
            t.kids == expr::ref_trees(kids@),
            !(t.head is When),
            !(t.head is Wait),
            !is_part(t.head),
            forall|j: int|
                0 <= j < i && covered(p.ask(), t.head, j) ==> #[trigger] holds(p.ask(), t.kids[j]),
        decreases kids.len() - i,
    {
        proof {
            assert(t.kids[i as int] == expr::tree_of(*kids@[i as int]));
            assert(decreases_to!(t.kids => t.kids[i as int]));
        }
        if p.check_covers(e, i) && !check(p, kids[i]) {
            proof {
                assert(covered(p.ask(), t.head, i as int) && !holds(p.ask(), t.kids[i as int]));
            }
            return false;
        }
        i = i + 1;
    }
    true
}

/// Checks every expression of a list.
pub fn check_all<P: Property>(p: &P, es: &Vec<Spanned<Expr>>) -> (r: bool)
    requires
        p.ready(),
    ensures
        r == all_hold(p.ask(), expr::trees(es@)),
    decreases expr::trees(es@), 1nat,
{
    let ghost ts = expr::trees(es@);
    let mut i: usize = 0;
    while i < es.len()
        invariant
            p.ready(),
            i <= es.len(),
            ts == expr::trees(es@),
            forall|j: int| 0 <= j < i ==> #[trigger] holds(p.ask(), ts[j]),
        decreases es.len() - i,
    {
        proof {
            assert(ts[i as int] == expr::tree_of(es@[i as int]));
            assert(decreases_to!(ts => ts[i as int]));
        }
        if !check(p, &es[i]) {
            proof {
                assert(!holds(p.ask(), ts[i as int]));
            }
            return false;
        }
        i = i + 1;
    }
    true
}

fn check_arms<P: Property>(p: &P, arms: &Vec<(Spanned<Expr>, Vec<Spanned<Expr>>)>) -> (r: bool)
    requires
        p.ready(),
    ensures
        r == all_hold(p.ask(), expr::arms_view(arms@)),
    decreases expr::arms_view(arms@), 1nat,
{
    let ghost ts = expr::arms_view(arms@);
    let mut i: usize = 0;
    while i < arms.len()
        invariant
            p.ready(),
            i <= arms.len(),
            ts == expr::arms_view(arms@),
            forall|j: int| 0 <= j < i ==> #[trigger] holds(p.ask(), ts[j]),
        decreases arms.len() - i,
    {
        let ghost arm = ts[i as int];
        proof {
            holds_iff(p.ask(), arm);
            assert(arm == expr::arm_tree(
                expr::tree_of(arms@[i as int].0),
                expr::trees(arms@[i as int].1@),
            ));
            assert(arm.kids[0] == expr::tree_of(arms@[i as int].0));
            assert(arm.kids.skip(1) =~= expr::trees(arms@[i as int].1@));
            assert(decreases_to!(ts => arm));
            assert(decreases_to!(ts => arm.kids[0]));
            assert(decreases_to!(ts => arm.kids.skip(1)));
        }
        let a = check(p, &arms[i].0);
        let b = check_all(p, &arms[i].1);
        proof {
            assert forall|k: int| 0 <= k < arm.kids.len() && a && b implies #[trigger] holds(
                p.ask(),
                arm.kids[k],
            ) by {
                if k > 0 {
                    assert(holds(p.ask(), arm.kids.skip(1)[k - 1]));
                }
            }
            if !b {
                let k = choose|k: int|
                    0 <= k < arm.kids.skip(1).len() && !#[trigger] holds(
                        p.ask(),
                        arm.kids.skip(1)[k],
                    );
                assert(!holds(p.ask(), arm.kids[k + 1]));
            }
            assert((a && b) == holds(p.ask(), arm));
        }
        if !(a && b) {
            return false;
        }
        i = i + 1;
    }
    true
}

fn check_handlers<P: Property>(p: &P, hs: &Vec<Spanned<Branch>>) -> (r: bool)
    requires
        p.ready(),
    ensures
        r == all_hold(p.ask(), expr::handlers_view(hs@)),
    decreases expr::handlers_view(hs@), 1nat,
{
    let ghost ts = expr::handlers_view(hs@);
    let mut i: usize = 0;
    while i < hs.len()
        invariant
            p.ready(),
            i <= hs.len(),
            ts == expr::handlers_view(hs@),
            forall|j: int| 0 <= j < i ==> #[trigger] holds(p.ask(), ts[j]),
        decreases hs.len() - i,
    {
        let ghost h = ts[i as int];
        proof {
            holds_iff(p.ask(), h);
            assert(h.kids == expr::trees(hs@[i as int].inner.body@));
            assert(decreases_to!(ts => h));
            assert(decreases_to!(ts => h.kids));
        }
        if !check_all(p, &hs[i].inner.body) {
            proof {
                assert(!holds(p.ask(), h));
            }
            return false;
        }
        proof {
            assert(holds(p.ask(), h));
        }
        i = i + 1;
    }
    true
}

} // verus!
