//! Rewriting expressions bottom-up.
//!
//! A [`Pass`] says which subexpressions it enters and what becomes of a node
//! whose subexpressions have been rewritten; [`rewrite`] does the walking.

use vstd::prelude::*;

use crate::api::ast::Branch;
use crate::api::expr;
use crate::api::expr::{close, open, Expr, Head, Shape, Tree};
use crate::span::{SimpleSpan, Spanned};

verus! {

/// What a pass does.
pub struct Rule {
    /// Whether subexpression `i` of a node other than `when` and `wait` is
    /// rewritten.
    pub enters: spec_fn(Head, int) -> bool,
    /// Whether the bodies of `wait` handlers are rewritten.
    pub handlers: bool,
    /// Whether the patterns of `when` arms are rewritten.
    pub patterns: bool,
    /// What becomes of a node whose subexpressions have been rewritten.
    pub at: spec_fn(Tree) -> Tree,
}

/// One rewriting pass over expressions.
pub trait Pass {
    /// What the pass needs of its own data.
    spec fn ready(&self) -> bool;

    /// What the pass does.
    spec fn rule(&self) -> Rule;

    fn does_enter(&self, shape: &Shape, i: usize) -> (r: bool)
        requires
            self.ready(),
        ensures
            r == (self.rule().enters)(shape.deep_view(), i as int),
    ;

    fn does_enter_handlers(&self) -> (r: bool)
        requires
            self.ready(),
        ensures
            r == self.rule().handlers,
    ;

    fn does_enter_patterns(&self) -> (r: bool)
        requires
            self.ready(),
        ensures
            r == self.rule().patterns,
    ;

    fn apply(&self, e: Spanned<Expr>) -> (r: Spanned<Expr>)
        requires
            self.ready(),
        ensures
            expr::tree_of(r) == (self.rule().at)(expr::tree_of(e)),
    ;
}

/// Whether subexpression `i` below `head` is rewritten.
pub open spec fn entered(p: Rule, head: Head, i: int) -> bool {
    match head {
        Head::When | Head::Filter | Head::Handler(_) => true,
        Head::Arm => i > 0 || p.patterns,
        Head::Wait => i == 0 || p.handlers,
        h => (p.enters)(h, i),
    }
}

/// Whether `head` is a part of a `when` or `wait` and no expression itself.
pub open spec fn is_part(head: Head) -> bool {
    head is Arm || head is Filter || head is Handler
}

/// The rewritten tree.
pub open spec fn rewritten(p: Rule, t: Tree) -> Tree
    decreases t,
{
    let t2 = Tree { kids: rewritten_kids(p, t.head, t.kids), ..t };
    if is_part(t.head) {
        t2
    } else {
        (p.at)(t2)
    }
}

/// The subexpressions below `head`, those that are entered rewritten.
pub open spec fn rewritten_kids(p: Rule, head: Head, ts: Seq<Tree>) -> Seq<Tree>
    decreases ts,
{
    Seq::new(
        ts.len(),
        |i: int|
            if 0 <= i < ts.len() {
                if entered(p, head, i) {
                    rewritten(p, ts[i])
                } else {
                    ts[i]
                }
            } else {
                arbitrary()
            },
    )
}

/// The rewritten trees of a list.
pub open spec fn rewritten_all(p: Rule, ts: Seq<Tree>) -> Seq<Tree> {
    Seq::new(ts.len(), |i: int| rewritten(p, ts[i]))
}

/// Rewrites one expression.
pub fn rewrite<P: Pass>(p: &P, e: Spanned<Expr>) -> (r: Spanned<Expr>)
    requires
        p.ready(),
    ensures
        expr::tree_of(r) == rewritten(p.rule(), expr::tree_of(e)),
    decreases expr::tree_of(e), 1nat,
{
    let ghost t = expr::tree_of(e);
    let span = e.span;
    let inner = match e.inner {
        Expr::When { cond, branches } => {
            let ghost bs = branches@;
            let ghost c = expr::tree_of(*cond);
            proof {
                assert(t.kids[0] == c);
                assert(t.kids.skip(1) =~= expr::arms_view(bs));
                assert(decreases_to!(t => t.kids.skip(1)));
            }
            let cond = rewrite(p, *cond);
            let branches = rewrite_arms(p, branches);
            proof {
                assert(seq![expr::tree_of(cond)] + expr::arms_view(branches@) =~= rewritten_kids(
                    p.rule(),
                    t.head,
                    t.kids,
                ));
            }
            Expr::When { cond: Box::new(cond), branches }
        },
        Expr::Wait { handlers, filter } => rewrite_wait(p, handlers, filter, Ghost(span)),
        other => {
            let (shape, kids) = open(other);
            proof {
                assert(t == expr::tree(other, span));
                assert(decreases_to!(t => t.kids));
            }
            let kids = rewrite_kids(p, &shape, kids);
            close(shape, kids)
        },
    };
    p.apply(Spanned { inner, span })
}

fn rewrite_wait<P: Pass>(
    p: &P,
    handlers: Vec<Spanned<Branch>>,
    filter: Vec<Spanned<Expr>>,
    Ghost(span): Ghost<SimpleSpan>,
) -> (r: Expr)
    requires
        p.ready(),
    ensures
        expr::tree(r, span) == (Tree {
            kids: rewritten_kids(
                p.rule(),
                Head::Wait,
                expr::tree(Expr::Wait { handlers, filter }, span).kids,
            ),
            ..expr::tree(Expr::Wait { handlers, filter }, span)
        }),
    decreases expr::tree(Expr::Wait { handlers, filter }, span), 0nat,
{
    let ghost t = expr::tree(Expr::Wait { handlers, filter }, span);
    proof {
        assert(t.kids[0].kids == expr::trees(filter@));
        assert(t.kids.skip(1) =~= expr::handlers_view(handlers@));
        assert(decreases_to!(t => t.kids.skip(1)));
        assert(decreases_to!(t => t.kids[0]));
        assert(decreases_to!(t => t.kids[0].kids));
    }
    let filter = rewrite_all(p, filter);
    let handlers = if p.does_enter_handlers() {
        rewrite_handlers(p, handlers)
    } else {
        handlers
    };
    let w = Expr::Wait { handlers, filter };
    proof {
        assert(rewritten(p.rule(), t.kids[0]).kids =~= rewritten_all(p.rule(), t.kids[0].kids));
        assert(expr::tree(w, span).kids =~= rewritten_kids(p.rule(), t.head, t.kids));
    }
    w
}

fn rewrite_kids<P: Pass>(p: &P, shape: &Shape, kids: Vec<Spanned<Expr>>) -> (r: Vec<
    Spanned<Expr>,
>)
    requires
        p.ready(),
    ensures
        expr::trees(r@) == rewritten_kids(p.rule(), shape.deep_view(), expr::trees(kids@)),
        r@.len() == kids@.len(),
    decreases expr::trees(kids@), 2nat,
{
    let ghost ks = kids@;
    let ghost ts = expr::trees(ks);
    let total = kids.len();
    let mut out: Vec<Spanned<Expr>> = Vec::new();
    let mut n: usize = 0;
    for k in it: kids
        invariant
            p.ready(),
            it.seq() == ks,
            ks == kids@,
            n == it.index(),
            ks.len() == total,
            ts == expr::trees(ks),
            out@.len() == n,
            forall|j: int|
                0 <= j < n ==> expr::tree_of(#[trigger] out@[j]) == rewritten_kids(
                    p.rule(),
                    shape.deep_view(),
                    ts,
                )[j],
    {
        proof {
            assert(ts[n as int] == expr::tree_of(k));
            assert(decreases_to!(ts => ts[n as int]));
        }
        if p.does_enter(shape, n) {
            out.push(rewrite(p, k));
        } else {
            out.push(k);
        }
        n = n + 1;
    }
    proof {
        assert(expr::trees(out@) =~= rewritten_kids(p.rule(), shape.deep_view(), ts));
    }
    out
}

/// Rewrites every expression of a list.
pub fn rewrite_all<P: Pass>(p: &P, es: Vec<Spanned<Expr>>) -> (r: Vec<Spanned<Expr>>)
    requires
        p.ready(),
    ensures
        expr::trees(r@) == rewritten_all(p.rule(), expr::trees(es@)),
        r@.len() == es@.len(),
    decreases expr::trees(es@), 2nat,
{
    let ghost es0 = es@;
    let mut out: Vec<Spanned<Expr>> = Vec::new();
    for e in it: es
        invariant
            p.ready(),
            it.seq() == es0,
            es0 == es@,
            out@.len() == it.index(),
            forall|j: int|
                0 <= j < it.index() ==> expr::tree_of(#[trigger] out@[j]) == rewritten(
                    p.rule(),
                    expr::tree_of(es0[j]),
                ),
    {
        proof {
            assert(expr::trees(es0)[it.index() as int] == expr::tree_of(e));
            assert(decreases_to!(expr::trees(es0) => expr::trees(es0)[it.index() as int]));
        }
        out.push(rewrite(p, e));
    }
    proof {
        assert(expr::trees(out@) =~= rewritten_all(p.rule(), expr::trees(es0)));
    }
    out
}

fn rewrite_arms<P: Pass>(p: &P, arms: Vec<(Spanned<Expr>, Vec<Spanned<Expr>>)>) -> (r: Vec<
    (Spanned<Expr>, Vec<Spanned<Expr>>),
>)
    requires
        p.ready(),
    ensures
        expr::arms_view(r@) == rewritten_all(p.rule(), expr::arms_view(arms@)),
    decreases expr::arms_view(arms@), 2nat,
{
    let ghost arms0 = arms@;
    let ghost av = expr::arms_view(arms0);
    let mut out: Vec<(Spanned<Expr>, Vec<Spanned<Expr>>)> = Vec::new();
    for arm in it: arms
        invariant
            p.ready(),
            it.seq() == arms0,
            arms0 == arms@,
            av == expr::arms_view(arms0),
            out@.len() == it.index(),
            forall|j: int|
                0 <= j < it.index() ==> expr::arm_tree(
                    expr::tree_of((#[trigger] out@[j]).0),
                    expr::trees(out@[j].1@),
                ) == rewritten(p.rule(), av[j]),
    {
        let ghost t = av[it.index() as int];
        let (pat, body) = arm;
        proof {
            assert(t == expr::arm_tree(expr::tree_of(pat), expr::trees(body@)));
            assert(t.kids[0] == expr::tree_of(pat));
            assert(t.kids.skip(1) =~= expr::trees(body@));
            assert(decreases_to!(av => t));
            assert(decreases_to!(av => t.kids[0]));
            assert(decreases_to!(av => t.kids.skip(1)));
        }
        let pat = if p.does_enter_patterns() {
            rewrite(p, pat)
        } else {
            pat
        };
        let body = rewrite_all(p, body);
        proof {
            let got = expr::arm_tree(expr::tree_of(pat), expr::trees(body@));
            assert(got.kids =~= rewritten(p.rule(), t).kids);
        }
        out.push((pat, body));
    }
    proof {
        assert(expr::arms_view(out@) =~= rewritten_all(p.rule(), av));
    }
    out
}

fn rewrite_handlers<P: Pass>(p: &P, hs: Vec<Spanned<Branch>>) -> (r: Vec<Spanned<Branch>>)
    requires
        p.ready(),
    ensures
        expr::handlers_view(r@) == rewritten_all(p.rule(), expr::handlers_view(hs@)),
    decreases expr::handlers_view(hs@), 2nat,
{
    let ghost hs0 = hs@;
    let ghost hv = expr::handlers_view(hs0);
    let mut out: Vec<Spanned<Branch>> = Vec::new();
    for h in it: hs
        invariant
            p.ready(),
            it.seq() == hs0,
            hs0 == hs@,
            hv == expr::handlers_view(hs0),
            out@.len() == it.index(),
            forall|j: int|
                0 <= j < it.index() ==> (Tree {
                    head: Head::Handler(expr::branch_head((#[trigger] out@[j]).inner)),
                    span: out@[j].span,
                    kids: expr::trees(out@[j].inner.body@),
                }) == rewritten(p.rule(), hv[j]),
    {
        let ghost t = hv[it.index() as int];
        proof {
            assert(t.kids == expr::trees(h.inner.body@));
            assert(decreases_to!(hv => t));
            assert(decreases_to!(hv => t.kids));
        }
        let span = h.span;
        let b = h.inner;
        let body = rewrite_all(p, b.body);
        let nb = Branch { label: b.label, patterns: b.patterns, ret_ty: b.ret_ty, body };
        proof {
            assert(expr::trees(body@) =~= rewritten(p.rule(), t).kids);
        }
        out.push(Spanned { inner: nb, span });
    }
    proof {
        assert(expr::handlers_view(out@) =~= rewritten_all(p.rule(), hv));
    }
    out
}

// ── passes that settle ─────────────────────────────────────────────────────

/// Whether a pass has nothing left to do below a node.
pub open spec fn settled_below(p: Rule, t: Tree) -> bool {
    forall|i: int|
        0 <= i < t.kids.len() && entered(p, t.head, i) ==> rewritten(p, #[trigger] t.kids[i])
            == t.kids[i]
}

/// Whether a pass leaves nothing for a second run: what it makes of a node
/// that is settled below is settled.
pub open spec fn settles(p: Rule) -> bool {
    forall|t: Tree|
        settled_below(p, t) && !is_part(t.head) ==> rewritten(p, #[trigger] (p.at)(t)) == (p.at)(
            t,
        )
}

/// A second run of a pass that settles changes nothing.
pub proof fn rewriting_twice_is_once(p: Rule, t: Tree)
    requires
        settles(p),
    ensures
        rewritten(p, rewritten(p, t)) == rewritten(p, t),
    decreases t,
{
    let t2 = Tree { kids: rewritten_kids(p, t.head, t.kids), ..t };
    assert forall|i: int| 0 <= i < t2.kids.len() && entered(p, t2.head, i) implies rewritten(
        p,
        #[trigger] t2.kids[i],
    ) == t2.kids[i] by {
        assert(decreases_to!(t => t.kids[i]));
        rewriting_twice_is_once(p, t.kids[i]);
    }
    if is_part(t.head) {
        assert(rewritten_kids(p, t2.head, t2.kids) =~= t2.kids);
    } else {
        assert(settled_below(p, t2));
        assert(rewritten(p, (p.at)(t2)) == (p.at)(t2));
    }
}

/// A node that is settled below and stays as it is is settled.
pub proof fn settled_node(p: Rule, t: Tree)
    requires
        settled_below(p, t),
        !is_part(t.head) ==> (p.at)(t) == t,
    ensures
        rewritten(p, t) == t,
{
    assert(rewritten_kids(p, t.head, t.kids) =~= t.kids);
    assert(Tree { kids: rewritten_kids(p, t.head, t.kids), ..t } == t);
}

} // verus!
