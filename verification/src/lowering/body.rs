//! Lowering a body: the passes in order.

use vstd::prelude::*;

use crate::api::ast::Branch;
use crate::api::expr;
use crate::api::expr::{close, open, Expr, Head, Tree};
use crate::lowering::calls;
use crate::lowering::calls::{expand_let_with_ret, rewrite_pins};
use crate::lowering::expand;
use crate::lowering::expand::{CxV, LowerCx};
use crate::lowering::lift;
use crate::lowering::lift::{lift_nested_calls, Fresh};
use crate::lowering::passes;
use crate::lowering::passes::{FlattenPaths, InlineConsts, RewriteRet, ThreadCaller};
use crate::lowering::tail;
use crate::lowering::tail::{is_caller_send, wrap_body_tail_in_caller_send};
use crate::lowering::tuples;
use crate::lowering::tuples::{expand_let_tuple, join_bodies, shape_looks_inside, split_body};
use crate::rewrite;
use crate::rewrite::rewrite_all;
use crate::span::{SpanWrap, Spanned};

verus! {

/// The passes that leave the order of a body's statements alone: paths and
/// constants, destructuring, the caller and `ret`, nested calls, calls whose
/// value nobody asked for, and pure calls.
pub open spec fn prepared(
    cx: CxV,
    body: Seq<Tree>,
    is_ret: bool,
    next: u32,
    fuel: nat,
) -> (Seq<Tree>, u32) {
    let b1 = rewrite::rewritten_all(passes::paths_rule(cx.reg, cx.id), body);
    let b2 = rewrite::rewritten_all(passes::inline_rule(cx.reg, cx.id), b1);
    let (b3, c3) = tuples::expanded_body(b2, b2.len(), next);
    let (b4, c4) = tuples::split_all(b3, b3.len(), c3);
    let b5 = if is_ret {
        rewrite::rewritten_all(passes::thread_rule(), b4)
    } else {
        b4
    };
    let b6 = rewrite::rewritten_all(passes::ret_rule(), b5);
    let l7 = lift::lifted_body(b6, b6.len(), c4);
    let (b8, c8) = calls::pinned_all(l7.lifts, l7.lifts.len(), l7.next);
    let (b9, c9) = calls::discarded_all(cx, b8, b8.len(), c8);
    expand::inlined(cx, b9, cx.id, c9, fuel)
}

/// The first statement from `from` on that binds what a ret-machine returns.
pub open spec fn first_ret_let(cx: CxV, body: Seq<Tree>, from: int) -> int
    decreases body.len() - from,
{
    if from >= body.len() || calls::binds_ret(cx, body[from]) {
        from
    } else {
        first_ret_let(cx, body, from + 1)
    }
}

/// A body of which the value is sent to the caller, unless it is certain to
/// end in a send.
pub open spec fn sent(body: Seq<Tree>) -> Seq<Tree> {
    if body.len() > 0 && !tail::sends(body.last()) {
        tail::wrapped_body(body)
    } else {
        body
    }
}

/// The lowered body, up to `fuel` deep: it is prepared; at the first binding
/// of what a ret-machine returns, the rest of the body moves into the `wait`
/// for the reply; the value of the outermost body of a ret-branch goes to
/// the caller, lifted where it is a call; and the bodies of `when` and `wait` are lowered in turn.
pub open spec fn lowered(
    cx: CxV,
    body: Seq<Tree>,
    is_ret: bool,
    outermost: bool,
    next: u32,
    fuel: nat,
) -> (Seq<Tree>, u32)
    decreases fuel, 1nat, body, 0nat,
{
    if fuel == 0 {
        (body, next)
    } else {
        let (b, c) = prepared(cx, body, is_ret, next, fuel);
        let i = first_ret_let(cx, b, 0);
        let (b2, c2) = if 0 <= i < b.len() {
            let (rest, c2) = lowered(
                cx,
                b.skip(i + 1),
                is_ret,
                true,
                lift::succ(c),
                (fuel - 1) as nat,
            );
            (
                b.take(i) + calls::awaited(b[i], calls::ret_of(cx, b[i].kids[0])->0, rest, c),
                c2,
            )
        } else {
            (b, c)
        };
        let (b3, c3) = if is_ret && outermost {
            let l = lift::lifted_body(sent(b2), sent(b2).len(), c2);
            (l.lifts, l.next)
        } else {
            (b2, c2)
        };
        arms_lowered_all(cx, b3, b3.len(), is_ret, c3, fuel)
    }
}

/// The bodies inside `t`, lowered.
pub open spec fn arms_lowered(cx: CxV, t: Tree, is_ret: bool, next: u32, fuel: nat) -> (Tree, u32)
    decreases fuel, 0nat, t, 0nat,
{
    match t.head {
        Head::Arm => if t.kids.len() > 0 && fuel > 0 {
            let (pat, c) = arms_lowered(cx, t.kids[0], is_ret, next, fuel);
            let (body, c2) = lowered(cx, t.kids.skip(1), is_ret, false, c, (fuel - 1) as nat);
            (Tree { kids: seq![pat] + body, ..t }, c2)
        } else {
            (t, next)
        },
        Head::Handler(_) => if fuel > 0 {
            let (body, c) = lowered(cx, t.kids, is_ret, false, next, (fuel - 1) as nat);
            (Tree { kids: body, ..t }, c)
        } else {
            (t, next)
        },
        h => if tuples::looks_inside(h) {
            let (kids, c) = arms_lowered_all(cx, t.kids, t.kids.len(), is_ret, next, fuel);
            (Tree { kids, ..t }, c)
        } else {
            (t, next)
        },
    }
}

/// [`arms_lowered`] on each of the first `n` trees.
pub open spec fn arms_lowered_all(
    cx: CxV,
    ts: Seq<Tree>,
    n: nat,
    is_ret: bool,
    next: u32,
    fuel: nat,
) -> (Seq<Tree>, u32)
    decreases fuel, 0nat, ts, n,
{
    if n == 0 || n > ts.len() {
        (Seq::empty(), next)
    } else {
        let (before, c) = arms_lowered_all(cx, ts, (n - 1) as nat, is_ret, next, fuel);
        let (t, c2) = arms_lowered(cx, ts[n - 1], is_ret, c, fuel);
        (before.push(t), c2)
    }
}

proof fn arms_after_first(cx: CxV, ts: Seq<Tree>, n: nat, is_ret: bool, next: u32, fuel: nat)
    requires
        1 <= n <= ts.len(),
    ensures
        arms_lowered_all(cx, ts, n, is_ret, next, fuel) == ({
            let (first, c) = arms_lowered(cx, ts[0], is_ret, next, fuel);
            let (rest, c2) = arms_lowered_all(cx, ts.skip(1), (n - 1) as nat, is_ret, c, fuel);
            (seq![first] + rest, c2)
        }),
    decreases n,
{
    reveal_with_fuel(arms_lowered_all, 2);
    let (first, c) = arms_lowered(cx, ts[0], is_ret, next, fuel);
    if n == 1 {
        assert(Seq::<Tree>::empty().push(first) =~= seq![first] + Seq::<Tree>::empty());
    } else {
        arms_after_first(cx, ts, (n - 1) as nat, is_ret, next, fuel);
        let (rest, c2) = arms_lowered_all(cx, ts.skip(1), (n - 2) as nat, is_ret, c, fuel);
        assert(ts.skip(1)[n - 2] == ts[n - 1]);
        let (last, c3) = arms_lowered(cx, ts[n - 1], is_ret, c2, fuel);
        assert((seq![first] + rest).push(last) =~= seq![first] + rest.push(last));
    }
}

impl<'a> LowerCx<'a> {
    fn prepare_body(
        &self,
        body: Vec<Spanned<Expr>>,
        is_ret_branch: bool,
        fresh: &mut Fresh,
        fuel: u64,
    ) -> (r: Vec<Spanned<Expr>>)
        requires
            self.deep_view().wf(),
        ensures
            (expr::trees(r@), final(fresh).next) == prepared(
                self.deep_view(),
                expr::trees(body@),
                is_ret_branch,
                old(fresh).next,
                fuel as nat,
            ),
    {
        let flatten = FlattenPaths { registry: self.registry, module_id: self.module_id };
        let body = rewrite_all(&flatten, body);
        let consts = InlineConsts { registry: self.registry, module_id: self.module_id };
        let body = rewrite_all(&consts, body);
        let body = expand_let_tuple(body, fresh);
        let body = split_body(body, fresh);
        let body = if is_ret_branch {
            rewrite_all(&ThreadCaller {  }, body)
        } else {
            body
        };
        let body = rewrite_all(&RewriteRet {  }, body);
        let body = lift_nested_calls(body, fresh);
        let body = rewrite_pins(body, fresh);
        let body = self.wrap_bare_ret_calls(body, fresh);
        self.inline_pure_calls_in_scope(body, self.module_id, fresh, fuel)
    }

    fn find_ret_let(&self, body: &Vec<Spanned<Expr>>) -> (r: usize)
        requires
            self.deep_view().wf(),
        ensures
            r == first_ret_let(self.deep_view(), expr::trees(body@), 0),
            r <= body@.len(),
            r < body@.len() ==> calls::binds_ret(
                self.deep_view(),
                expr::trees(body@)[r as int],
            ),
    {
        let ghost cx = self.deep_view();
        let ghost ts = expr::trees(body@);
        let mut i: usize = 0;
        while i < body.len()
            invariant
                i <= body.len(),
                cx == self.deep_view(),
                cx.wf(),
                ts == expr::trees(body@),
                first_ret_let(cx, ts, 0) == first_ret_let(cx, ts, i as int),
            decreases body.len() - i,
        {
            proof {
                assert(ts[i as int] == expr::tree_of(body@[i as int]));
            }
            if self.is_let_with_ret_target(&body[i]) {
                return i;
            }
            i = i + 1;
        }
        i
    }

    /// Lower a body.  The outermost body of a ret-branch sends its value to
    /// the caller; the bodies inside it do not.
    #[verifier::rlimit(40)]
    pub fn lower_body(
        &self,
        body: Vec<Spanned<Expr>>,
        is_ret_branch: bool,
        is_outermost: bool,
        fresh: &mut Fresh,
        fuel: u64,
    ) -> (r: Vec<Spanned<Expr>>)
        requires
            self.deep_view().wf(),
        ensures
            (expr::trees(r@), final(fresh).next) == lowered(
                self.deep_view(),
                expr::trees(body@),
                is_ret_branch,
                is_outermost,
                old(fresh).next,
                fuel as nat,
            ),
        decreases fuel, 1nat, expr::trees(body@), 0nat,
    {
        let ghost cx = self.deep_view();
        if fuel == 0 {
            return body;
        }
        let body = self.prepare_body(body, is_ret_branch, fresh, fuel);
        let ghost b = expr::trees(body@);
        let ghost es = body@;
        let i = self.find_ret_let(&body);
        let mut body = body;
        if i < body.len() {
            let mut tail_part = body.split_off(i);
            let ghost tp = tail_part@;
            proof {
                assert(tp.len() > 0);
                assert(tp[0] == es[i as int]);
            }
            let stmt = tail_part.remove(0);
            proof {
                assert(b[i as int] == expr::tree_of(stmt));
                assert(expr::trees(tail_part@) =~= b.skip(i + 1));
                assert(expr::trees(body@) =~= b.take(i as int));
            }
            let ret = match &stmt.inner {
                Expr::Let { default: Some(call), .. } => {
                    proof {
                        assert(b[i as int].kids[0] == expr::tree_of(**call));
                    }
                    self.ret_target(call)
                },
                _ => None,
            };
            proof {
                assert(ret is Some);
            }
            let ret = ret.unwrap();
            let id = fresh.fresh_id();
            let rest = self.lower_body(tail_part, is_ret_branch, true, fresh, fuel - 1);
            let emitted = expand_let_with_ret(stmt, ret.as_str(), rest, id);
            body = join_bodies(body, emitted);
        }
        let n = body.len();
        if is_ret_branch && is_outermost && n > 0 {
            proof {
                assert(expr::trees(body@).last() == expr::tree_of(body@[n - 1]));
            }
            if !is_caller_send(&body[n - 1]) {
                body = wrap_body_tail_in_caller_send(body);
            }
        }
        if is_ret_branch && is_outermost {
            body = lift_nested_calls(body, fresh);
        }
        self.lower_arm_bodies(body, is_ret_branch, fresh, fuel)
    }

    /// Lower the bodies of the `when`s and `wait`s inside an expression.
    pub fn lower_arm_bodies_in_expr(
        &self,
        e: Spanned<Expr>,
        is_ret_branch: bool,
        fresh: &mut Fresh,
        fuel: u64,
    ) -> (r: Spanned<Expr>)
        requires
            self.deep_view().wf(),
        ensures
            (expr::tree_of(r), final(fresh).next) == arms_lowered(
                self.deep_view(),
                expr::tree_of(e),
                is_ret_branch,
                old(fresh).next,
                fuel as nat,
            ),
        decreases fuel, 0nat, expr::tree_of(e), 0nat,
    {
        let ghost cx = self.deep_view();
        let ghost t = expr::tree_of(e);
        let ghost start = fresh.next;
        let span = e.span;
        match e.inner {
            Expr::When { cond, branches } => {
                let ghost c = expr::tree_of(*cond);
                let ghost av = expr::arms_view(branches@);
                proof {
                    assert(t.kids == seq![c] + av);
                    assert(t.kids[0] == c);
                    assert(t.kids.skip(1) =~= av);
                    assert(decreases_to!(t => t.kids[0]));
                    assert(decreases_to!(t => t.kids.skip(1)));
                }
                let cond = self.lower_arm_bodies_in_expr(*cond, is_ret_branch, fresh, fuel);
                let branches = self.lower_arms(branches, is_ret_branch, fresh, fuel);
                proof {
                    arms_after_first(
                        cx,
                        t.kids,
                        t.kids.len(),
                        is_ret_branch,
                        start,
                        fuel as nat,
                    );
                }
                Expr::When { cond: Box::new(cond), branches }.with_span(span)
            },
            Expr::Wait { handlers, filter } => {
                let ghost f = t.kids[0];
                let ghost hv = expr::handlers_view(handlers@);
                proof {
                    assert(f.kids == expr::trees(filter@));
                    assert(t.kids == seq![f] + hv);
                    assert(t.kids.skip(1) =~= hv);
                    assert(decreases_to!(t => t.kids[0]));
                    assert(decreases_to!(t => t.kids[0].kids));
                    assert(decreases_to!(t => t.kids.skip(1)));
                }
                let filter = self.lower_arm_bodies(filter, is_ret_branch, fresh, fuel);
                let handlers = self.lower_handlers(handlers, is_ret_branch, fresh, fuel);
                proof {
                    arms_after_first(
                        cx,
                        t.kids,
                        t.kids.len(),
                        is_ret_branch,
                        start,
                        fuel as nat,
                    );
                    assert(arms_lowered(cx, f, is_ret_branch, start, fuel as nat).0.kids
                        == expr::trees(filter@));
                }
                Expr::Wait { handlers, filter }.with_span(span)
            },
            other => {
                let (shape, kids) = open(other);
                proof {
                    assert(t == expr::tree(other, span));
                    assert(decreases_to!(t => t.kids));
                }
                if shape_looks_inside(&shape) {
                    let kids = self.lower_arm_bodies(kids, is_ret_branch, fresh, fuel);
                    close(shape, kids).with_span(span)
                } else {
                    close(shape, kids).with_span(span)
                }
            },
        }
    }

    fn lower_arm_bodies(
        &self,
        es: Vec<Spanned<Expr>>,
        is_ret_branch: bool,
        fresh: &mut Fresh,
        fuel: u64,
    ) -> (r: Vec<Spanned<Expr>>)
        requires
            self.deep_view().wf(),
        ensures
            (expr::trees(r@), final(fresh).next) == arms_lowered_all(
                self.deep_view(),
                expr::trees(es@),
                es@.len(),
                is_ret_branch,
                old(fresh).next,
                fuel as nat,
            ),
            r@.len() == es@.len(),
        decreases fuel, 0nat, expr::trees(es@), 1nat,
    {
        let ghost cx = self.deep_view();
        let ghost es0 = es@;
        let ghost ts = expr::trees(es0);
        let ghost start = fresh.next;
        let mut out: Vec<Spanned<Expr>> = Vec::new();
        proof {
            assert(expr::trees(out@) =~= Seq::<Tree>::empty());
        }
        for e in it: es
            invariant
                it.seq() == es0,
                es0 == es@,
                ts == expr::trees(es0),
                cx == self.deep_view(),
                cx.wf(),
                out@.len() == it.index(),
                (expr::trees(out@), fresh.next) == arms_lowered_all(
                    cx,
                    ts,
                    it.index() as nat,
                    is_ret_branch,
                    start,
                    fuel as nat,
                ),
        {
            proof {
                assert(ts[it.index() as int] == expr::tree_of(e));
                assert(decreases_to!(ts => ts[it.index() as int]));
            }
            let ghost before = out@;
            let one = self.lower_arm_bodies_in_expr(e, is_ret_branch, fresh, fuel);
            let ghost t = expr::tree_of(one);
            out.push(one);
            proof {
                assert(expr::trees(out@) =~= expr::trees(before).push(t));
            }
        }
        out
    }

    fn lower_arms(
        &self,
        arms: Vec<(Spanned<Expr>, Vec<Spanned<Expr>>)>,
        is_ret_branch: bool,
        fresh: &mut Fresh,
        fuel: u64,
    ) -> (r: Vec<(Spanned<Expr>, Vec<Spanned<Expr>>)>)
        requires
            self.deep_view().wf(),
        ensures
            (expr::arms_view(r@), final(fresh).next) == arms_lowered_all(
                self.deep_view(),
                expr::arms_view(arms@),
                arms@.len(),
                is_ret_branch,
                old(fresh).next,
                fuel as nat,
            ),
        decreases fuel, 0nat, expr::arms_view(arms@), 1nat,
    {
        let ghost cx = self.deep_view();
        let ghost arms0 = arms@;
        let ghost av = expr::arms_view(arms0);
        let ghost start = fresh.next;
        let mut out: Vec<(Spanned<Expr>, Vec<Spanned<Expr>>)> = Vec::new();
        proof {
            assert(expr::arms_view(out@) =~= Seq::<Tree>::empty());
        }
        for arm in it: arms
            invariant
                it.seq() == arms0,
                arms0 == arms@,
                av == expr::arms_view(arms0),
                cx == self.deep_view(),
                cx.wf(),
                (expr::arms_view(out@), fresh.next) == arms_lowered_all(
                    cx,
                    av,
                    it.index() as nat,
                    is_ret_branch,
                    start,
                    fuel as nat,
                ),
        {
            let ghost t = av[it.index() as int];
            let ghost before = out@;
            let ghost c = fresh.next;
            let (pat, body) = arm;
            proof {
                assert(t == expr::arm_tree(expr::tree_of(pat), expr::trees(body@)));
                assert(t.kids[0] == expr::tree_of(pat));
                assert(t.kids.skip(1) =~= expr::trees(body@));
                assert(decreases_to!(av => t));
                assert(decreases_to!(av => t.kids[0]));
            }
            let (pat, body) = if fuel == 0 {
                (pat, body)
            } else {
                let pat = self.lower_arm_bodies_in_expr(pat, is_ret_branch, fresh, fuel);
                let body = self.lower_body(body, is_ret_branch, false, fresh, fuel - 1);
                (pat, body)
            };
            let ghost one = expr::arm_tree(expr::tree_of(pat), expr::trees(body@));
            proof {
                assert((one, fresh.next) == arms_lowered(cx, t, is_ret_branch, c, fuel as nat));
            }
            out.push((pat, body));
            proof {
                assert(out@.drop_last() =~= before);
                tuples::push_arm(before, out@);
            }
        }
        out
    }

    fn lower_handlers(
        &self,
        hs: Vec<Spanned<Branch>>,
        is_ret_branch: bool,
        fresh: &mut Fresh,
        fuel: u64,
    ) -> (r: Vec<Spanned<Branch>>)
        requires
            self.deep_view().wf(),
        ensures
            (expr::handlers_view(r@), final(fresh).next) == arms_lowered_all(
                self.deep_view(),
                expr::handlers_view(hs@),
                hs@.len(),
                is_ret_branch,
                old(fresh).next,
                fuel as nat,
            ),
        decreases fuel, 0nat, expr::handlers_view(hs@), 1nat,
    {
        let ghost cx = self.deep_view();
        let ghost hs0 = hs@;
        let ghost hv = expr::handlers_view(hs0);
        let ghost start = fresh.next;
        let mut out: Vec<Spanned<Branch>> = Vec::new();
        proof {
            assert(expr::handlers_view(out@) =~= Seq::<Tree>::empty());
        }
        for h in it: hs
            invariant
                it.seq() == hs0,
                hs0 == hs@,
                hv == expr::handlers_view(hs0),
                cx == self.deep_view(),
                cx.wf(),
                (expr::handlers_view(out@), fresh.next) == arms_lowered_all(
                    cx,
                    hv,
                    it.index() as nat,
                    is_ret_branch,
                    start,
                    fuel as nat,
                ),
        {
            let ghost t = hv[it.index() as int];
            let ghost before = out@;
            let ghost c = fresh.next;
            proof {
                assert(t.kids == expr::trees(h.inner.body@));
            }
            let span = h.span;
            let b = h.inner;
            let body = if fuel == 0 {
                b.body
            } else {
                self.lower_body(b.body, is_ret_branch, false, fresh, fuel - 1)
            };
            proof {
                assert((Tree { kids: expr::trees(body@), ..t }, fresh.next) == arms_lowered(
                    cx,
                    t,
                    is_ret_branch,
                    c,
                    fuel as nat,
                ));
            }
            let nb = Branch { label: b.label, patterns: b.patterns, ret_ty: b.ret_ty, body };
            out.push(Spanned { inner: nb, span });
            proof {
                assert(out@.drop_last() =~= before);
                tuples::push_handler(before, out@);
                assert(expr::branch_head(nb) == expr::branch_head(h.inner));
            }
        }
        out
    }
}

} // verus!
