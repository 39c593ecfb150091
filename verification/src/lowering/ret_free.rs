//! What lowering does to `ret`: none is left.

use vstd::prelude::*;

use crate::api::ast::{
    BranchV, Item, ItemV, Machine, MachineItem, MachineItemV, MachineV, PatternV,
};
use crate::api::expr;
use crate::api::expr::{Expr, Head, Tree};
use crate::inspect;
use crate::inspect::Ask;
use crate::loader::{ModuleV, ParsedProgram};
use crate::lowering::body;
use crate::lowering::calls;
use crate::lowering::expand;
use crate::lowering::expand::CxV;
use crate::lowering::lift;
use crate::lowering::lift::Lifted;
use crate::lowering::passes;
use crate::lowering::program;
use crate::lowering::pure;
use crate::lowering::pure::{RetKeyV, TemplateV};
use crate::lowering::settled;
use crate::lowering::synth;
use crate::lowering::tail;
use crate::lowering::tuples;
use crate::registry::{ModuleId, RegistryV};
use crate::rewrite;
use crate::rewrite::Rule;
use crate::span::{SimpleSpan, Spanned};
use crate::text::Text;

verus! {

/// Every `ret` has its one operand, as it has in every expression.
pub open spec fn rets_whole() -> Ask {
    Ask {
        local: |t: Tree| t.head is Ret ==> t.kids.len() == 1,
        covers: |head: Head, i: int| true,
    }
}

spec fn free(t: Tree) -> bool {
    inspect::holds(pure::no_ret(), t)
}

spec fn all_free(ts: Seq<Tree>) -> bool {
    inspect::all_hold(pure::no_ret(), ts)
}

spec fn whole(t: Tree) -> bool {
    inspect::holds(rets_whole(), t)
}

/// `free`, or `whole` where `strict` does not hold.
spec fn fit(strict: bool, t: Tree) -> bool {
    if strict {
        free(t)
    } else {
        whole(t)
    }
}

spec fn all_fit(strict: bool, ts: Seq<Tree>) -> bool {
    forall|i: int| 0 <= i < ts.len() ==> #[trigger] fit(strict, ts[i])
}

// ── nodes ──────────────────────────────────────────────────────────────────

proof fn free_kids(t: Tree)
    requires
        free(t),
    ensures
        all_free(t.kids),
        rewrite::is_part(t.head) || !(t.head is Ret),
{
    inspect::holds_iff(pure::no_ret(), t);
    assert forall|i: int| 0 <= i < t.kids.len() implies #[trigger] inspect::holds(
        pure::no_ret(),
        t.kids[i],
    ) by {
        assert(inspect::covered(pure::no_ret(), t.head, i));
    }
}

proof fn free_node(t: Tree)
    requires
        all_free(t.kids),
        !(t.head is Ret),
    ensures
        free(t),
{
    inspect::holds_iff(pure::no_ret(), t);
}

pub proof fn free_is_whole(t: Tree)
    requires
        inspect::holds(pure::no_ret(), t),
    ensures
        inspect::holds(rets_whole(), t),
    decreases t,
{
    free_kids(t);
    assert forall|i: int| 0 <= i < t.kids.len() implies #[trigger] inspect::holds(
        rets_whole(),
        t.kids[i],
    ) by {
        assert(inspect::holds(pure::no_ret(), t.kids[i]));
        assert(decreases_to!(t => t.kids[i]));
        free_is_whole(t.kids[i]);
    }
    inspect::holds_iff(rets_whole(), t);
}

/// Everything below a node that is fit is fit.
proof fn fit_kids(strict: bool, t: Tree)
    requires
        fit(strict, t),
    ensures
        all_fit(strict, t.kids),
        strict ==> !(t.head is Ret),
        t.head is Ret ==> t.kids.len() == 1,
{
    if strict {
        free_kids(t);
        assert forall|i: int| 0 <= i < t.kids.len() implies #[trigger] fit(strict, t.kids[i]) by {
            assert(inspect::holds(pure::no_ret(), t.kids[i]));
        }
    } else {
        inspect::holds_iff(rets_whole(), t);
        assert forall|i: int| 0 <= i < t.kids.len() implies #[trigger] fit(strict, t.kids[i]) by {
            assert(inspect::covered(rets_whole(), t.head, i));
            assert(inspect::holds(rets_whole(), t.kids[i]));
        }
    }
}

proof fn fit_node(strict: bool, t: Tree)
    requires
        all_fit(strict, t.kids),
        strict ==> !(t.head is Ret),
        t.head is Ret ==> t.kids.len() == 1,
    ensures
        fit(strict, t),
{
    if strict {
        assert forall|i: int| 0 <= i < t.kids.len() implies #[trigger] inspect::holds(
            pure::no_ret(),
            t.kids[i],
        ) by {
            assert(fit(strict, t.kids[i]));
        }
        free_node(t);
    } else {
        assert forall|i: int| 0 <= i < t.kids.len() implies #[trigger] inspect::holds(
            rets_whole(),
            t.kids[i],
        ) by {
            assert(fit(strict, t.kids[i]));
        }
        inspect::holds_iff(rets_whole(), t);
    }
}

proof fn free_is_fit(strict: bool, t: Tree)
    requires
        free(t),
    ensures
        fit(strict, t),
{
    if !strict {
        free_is_whole(t);
    }
}

proof fn free_leaf(t: Tree)
    requires
        t.kids.len() == 0,
        !(t.head is Ret),
    ensures
        free(t),
{
    free_node(t);
}

proof fn free_slot(name: Text, index: usize, span: SimpleSpan)
    ensures
        free(synth::slot_of(name, index, span)),
{
    let s = synth::slot_of(name, index, span);
    free_leaf(s.kids[0]);
    free_node(s);
}

/// A binding of something fit is fit.
proof fn fit_let(strict: bool, t: Tree)
    requires
        t.head is Let,
        t.kids.len() == 1,
        fit(strict, t.kids[0]),
    ensures
        fit(strict, t),
{
    assert forall|i: int| 0 <= i < t.kids.len() implies #[trigger] fit(strict, t.kids[i]) by {
        assert(i == 0);
    }
    fit_node(strict, t);
}

proof fn free_let(t: Tree)
    requires
        t.head is Let,
        t.kids.len() == 1,
        free(t.kids[0]),
    ensures
        free(t),
{
    fit_let(true, t);
}

proof fn free_send(span: SimpleSpan, value: Tree)
    requires
        free(value),
    ensures
        free(synth::caller_send(span, value)),
{
    let s = synth::caller_send(span, value);
    free_leaf(synth::caller_var(span));
    free_leaf(synth::self_tree(span));
    free_node(s);
}

// ── expressions ────────────────────────────────────────────────────────────

/// A node whose parts are whole is whole.
proof fn node_of_parts(t: Tree)
    requires
        all_fit(false, t.kids),
        t.head is Ret ==> t.kids.len() == 1,
    ensures
        inspect::holds(rets_whole(), t),
{
    fit_node(false, t);
}

proof fn node_of_one(t: Tree, part: Tree)
    requires
        t.kids == seq![part],
        inspect::holds(rets_whole(), part),
    ensures
        inspect::holds(rets_whole(), t),
{
    assert(fit(false, part));
    node_of_parts(t);
}

proof fn node_of_two(t: Tree, a: Tree, b: Tree)
    requires
        t.kids == seq![a, b],
        inspect::holds(rets_whole(), a),
        inspect::holds(rets_whole(), b),
        !(t.head is Ret),
    ensures
        inspect::holds(rets_whole(), t),
{
    assert(fit(false, a) && fit(false, b));
    node_of_parts(t);
}

proof fn node_of_list(t: Tree, first: Tree, rest: Seq<Tree>)
    requires
        t.kids == seq![first] + rest,
        inspect::holds(rets_whole(), first),
        all_fit(false, rest),
        !(t.head is Ret),
    ensures
        inspect::holds(rets_whole(), t),
{
    assert(fit(false, first));
    join_fit(false, seq![first], rest);
    node_of_parts(t);
}

/// In every expression every `ret` has its operand.
#[verifier::spinoff_prover]
#[verifier::rlimit(60)]
pub proof fn expressions_are_whole(e: Expr, span: SimpleSpan)
    ensures
        inspect::holds(rets_whole(), expr::tree(e, span)),
    decreases e,
{
    let t = expr::tree(e, span);
    match e {
        Expr::Num(_, _) | Expr::String(_, _) | Expr::Bool(_) | Expr::Unit | Expr::Var(_, _)
        | Expr::Path(_) | Expr::Atom(_) => {
            node_of_parts(t);
        },
        Expr::Let { ident, ty, default } => {
            if let Some(d) = default {
                expressions_are_whole(d.inner, d.span);
                node_of_one(t, expr::tree(d.inner, d.span));
            } else {
                node_of_parts(t);
            }
        },
        Expr::LetTuple { fields, default } => {
            expressions_are_whole(default.inner, default.span);
            node_of_one(t, expr::tree(default.inner, default.span));
        },
        Expr::Jump { ident, args } => {
            expressions_are_whole(ident.inner, ident.span);
            lists_are_whole(args@);
            node_of_list(t, expr::tree(ident.inner, ident.span), expr::trees(args@));
        },
        Expr::MethodCall { receiver, method, args } => {
            expressions_are_whole(receiver.inner, receiver.span);
            lists_are_whole(args@);
            node_of_list(t, expr::tree(receiver.inner, receiver.span), expr::trees(args@));
        },
        Expr::AtAccess { receiver, field } => {
            expressions_are_whole(receiver.inner, receiver.span);
            node_of_one(t, expr::tree(receiver.inner, receiver.span));
        },
        Expr::DotAccess { receiver, field } => {
            expressions_are_whole(receiver.inner, receiver.span);
            node_of_one(t, expr::tree(receiver.inner, receiver.span));
        },
        Expr::StructInit { base, fields } => {
            expressions_are_whole(base.inner, base.span);
            lists_are_whole(fields@);
            node_of_list(t, expr::tree(base.inner, base.span), expr::trees(fields@));
        },
        Expr::RecordLiteral { name, fields } => {
            let fs = fields@;
            assert forall|i: int| 0 <= i < fs.len() implies #[trigger] fit(
                false,
                expr::field_trees(fs)[i],
            ) by {
                assert(decreases_to!(fs => fs[i]));
                expressions_are_whole(fs[i].1.inner, fs[i].1.span);
            }
            assert(t.kids == expr::field_trees(fs));
            assert(all_fit(false, expr::field_trees(fs)));
            node_of_parts(t);
        },
        Expr::Tuple(elems) => {
            lists_are_whole(elems@);
            node_of_parts(t);
        },
        Expr::TupleIndex { receiver, index } => {
            expressions_are_whole(receiver.inner, receiver.span);
            node_of_one(t, expr::tree(receiver.inner, receiver.span));
        },
        Expr::When { cond, branches } => {
            let arms = branches@;
            expressions_are_whole(cond.inner, cond.span);
            assert forall|i: int| 0 <= i < arms.len() implies #[trigger] fit(
                false,
                expr::arms_view(arms)[i],
            ) by {
                assert(decreases_to!(arms => arms[i]));
                expressions_are_whole(arms[i].0.inner, arms[i].0.span);
                lists_are_whole(arms[i].1@);
                fit_arm(
                    false,
                    expr::tree(arms[i].0.inner, arms[i].0.span),
                    expr::trees(arms[i].1@),
                );
            }
            node_of_list(t, expr::tree(cond.inner, cond.span), expr::arms_view(arms));
        },
        Expr::Wait { handlers, filter } => {
            let hs = handlers@;
            let f = expr::node(Head::Filter, crate::span::zero_span(), expr::trees(filter@));
            lists_are_whole(filter@);
            node_of_parts(f);
            assert forall|i: int| 0 <= i < hs.len() implies #[trigger] fit(
                false,
                expr::handlers_view(hs)[i],
            ) by {
                assert(decreases_to!(hs => hs[i]));
                lists_are_whole(hs[i].inner.body@);
                node_of_parts(expr::handlers_view(hs)[i]);
            }
            node_of_list(t, f, expr::handlers_view(hs));
        },
        Expr::Ret(x) | Expr::Pin(x) | Expr::Neg(x) => {
            expressions_are_whole(x.inner, x.span);
            node_of_one(t, expr::tree(x.inner, x.span));
        },
        Expr::Index { receiver, index } => {
            expressions_are_whole(receiver.inner, receiver.span);
            expressions_are_whole(index.inner, index.span);
            node_of_two(
                t,
                expr::tree(receiver.inner, receiver.span),
                expr::tree(index.inner, index.span),
            );
        },
        Expr::Mul(l, r) | Expr::Div(l, r) | Expr::Add(l, r) | Expr::Sub(l, r) | Expr::Le(l, r)
        | Expr::Ge(l, r) | Expr::Eq(l, r) | Expr::Lt(l, r) | Expr::Gt(l, r) | Expr::BAnd(l, r)
        | Expr::BOr(l, r) | Expr::BXor(l, r) | Expr::Shl(l, r) | Expr::Shr(l, r) => {
            expressions_are_whole(l.inner, l.span);
            expressions_are_whole(r.inner, r.span);
            node_of_two(t, expr::tree(l.inner, l.span), expr::tree(r.inner, r.span));
        },
    }
}

proof fn lists_are_whole(es: Seq<Spanned<Expr>>)
    ensures
        all_fit(false, expr::trees(es)),
    decreases es,
{
    assert forall|i: int| 0 <= i < es.len() implies #[trigger] fit(
        false,
        expr::trees(es)[i],
    ) by {
        assert(decreases_to!(es => es[i]));
        expressions_are_whole(es[i].inner, es[i].span);
    }
}

// ── rewriting passes ───────────────────────────────────────────────────────

/// A pass that makes fit nodes of fit nodes.
spec fn keeps(strict: bool, p: Rule) -> bool {
    forall|t: Tree|
        fit(strict, t) && !rewrite::is_part(t.head) ==> fit(strict, #[trigger] (p.at)(t))
}

proof fn rewriting_keeps(strict: bool, p: Rule, t: Tree)
    requires
        keeps(strict, p),
        fit(strict, t),
    ensures
        fit(strict, rewrite::rewritten(p, t)),
    decreases t,
{
    fit_kids(strict, t);
    let t2 = Tree { kids: rewrite::rewritten_kids(p, t.head, t.kids), ..t };
    assert forall|i: int| 0 <= i < t2.kids.len() implies #[trigger] fit(strict, t2.kids[i]) by {
        assert(fit(strict, t.kids[i]));
        assert(decreases_to!(t => t.kids[i]));
        rewriting_keeps(strict, p, t.kids[i]);
    }
    fit_node(strict, t2);
}

proof fn rewriting_all_keeps(strict: bool, p: Rule, ts: Seq<Tree>)
    requires
        keeps(strict, p),
        all_fit(strict, ts),
    ensures
        all_fit(strict, rewrite::rewritten_all(p, ts)),
{
    let out = rewrite::rewritten_all(p, ts);
    assert forall|i: int| 0 <= i < out.len() implies #[trigger] fit(strict, out[i]) by {
        assert(fit(strict, ts[i]));
        rewriting_keeps(strict, p, ts[i]);
    }
}

proof fn paths_keep(strict: bool, cx: CxV)
    ensures
        keeps(strict, passes::paths_rule(cx.reg, cx.id)),
{
    let p = passes::paths_rule(cx.reg, cx.id);
    assert forall|t: Tree| fit(strict, t) && !rewrite::is_part(t.head) implies fit(
        strict,
        #[trigger] (p.at)(t),
    ) by {
        if (p.at)(t) != t {
            free_leaf((p.at)(t));
            free_is_fit(strict, (p.at)(t));
        }
    }
}

proof fn consts_keep(strict: bool, cx: CxV)
    ensures
        keeps(strict, passes::inline_rule(cx.reg, cx.id)),
{
    let p = passes::inline_rule(cx.reg, cx.id);
    assert forall|t: Tree| fit(strict, t) && !rewrite::is_part(t.head) implies fit(
        strict,
        #[trigger] (p.at)(t),
    ) by {
        if (p.at)(t) != t {
            free_leaf((p.at)(t));
            free_is_fit(strict, (p.at)(t));
        }
    }
}

proof fn threading_keeps(strict: bool)
    ensures
        keeps(strict, passes::thread_rule()),
{
    let p = passes::thread_rule();
    assert forall|t: Tree| fit(strict, t) && !rewrite::is_part(t.head) implies fit(
        strict,
        #[trigger] (p.at)(t),
    ) by {
        if passes::is_unthreaded(t) {
            let r = passes::with_first_arg(t, synth::caller_var(t.span));
            fit_kids(strict, t);
            free_leaf(synth::caller_var(t.span));
            free_is_fit(strict, synth::caller_var(t.span));
            assert forall|i: int| 0 <= i < r.kids.len() implies #[trigger] fit(
                strict,
                r.kids[i],
            ) by {
                if i == 0 {
                    assert(fit(strict, t.kids[0]));
                } else if i > 1 {
                    assert(r.kids[i] == t.kids[i - 1]);
                }
            }
            fit_node(strict, r);
        }
    }
}

/// The rewriting of returns leaves none.
proof fn rewriting_returns_frees(t: Tree)
    requires
        whole(t),
    ensures
        free(rewrite::rewritten(passes::ret_rule(), t)),
    decreases t,
{
    let p = passes::ret_rule();
    fit_kids(false, t);
    let t2 = Tree { kids: rewrite::rewritten_kids(p, t.head, t.kids), ..t };
    assert forall|i: int| 0 <= i < t2.kids.len() implies #[trigger] inspect::holds(
        pure::no_ret(),
        t2.kids[i],
    ) by {
        assert(rewrite::entered(p, t.head, i));
        assert(fit(false, t.kids[i]));
        assert(decreases_to!(t => t.kids[i]));
        rewriting_returns_frees(t.kids[i]);
    }
    if t.head is Ret {
        assert(inspect::holds(pure::no_ret(), t2.kids[0]));
        free_send(t.span, t2.kids[0]);
    } else {
        free_node(t2);
    }
}

// ── tuple bindings and patterns ────────────────────────────────────────────

proof fn field_lets_are_free(
    name: Text,
    fields: Seq<Spanned<Text>>,
    n: nat,
    span: SimpleSpan,
)
    requires
        n <= fields.len(),
    ensures
        all_free(tuples::field_lets(name, fields, n, span)),
    decreases n,
{
    if n > 0 {
        field_lets_are_free(name, fields, (n - 1) as nat, span);
        let f = fields[n - 1];
        let s = synth::slot_of(name, (n - 1) as usize, span);
        free_slot(name, (n - 1) as usize, span);
        free_let(synth::open_let(f.inner, s, f.span));
    }
}

proof fn expanding_keeps(strict: bool, body: Seq<Tree>, n: nat, next: u32)
    requires
        n <= body.len(),
        all_fit(strict, body),
    ensures
        all_fit(strict, tuples::expanded_body(body, n, next).0),
    decreases n,
{
    if n > 0 {
        expanding_keeps(strict, body, (n - 1) as nat, next);
        let (before, c) = tuples::expanded_body(body, (n - 1) as nat, next);
        let t = body[n - 1];
        assert(fit(strict, t));
        let (these, _) = tuples::expanded(t, c);
        assert forall|i: int| 0 <= i < these.len() implies #[trigger] fit(strict, these[i]) by {
            if t.head is LetTuple {
                let name = synth::numbered("__dst_"@, c);
                let fields = t.head->LetTuple_0;
                fit_kids(strict, t);
                if t.kids.len() > 0 {
                    assert(fit(strict, t.kids[0]));
                } else {
                    free_leaf(synth::operand(t));
                    free_is_fit(strict, synth::operand(t));
                }
                fit_let(strict, synth::open_let(name, synth::operand(t), t.span));
                field_lets_are_free(name, fields, fields.len(), t.span);
                if i > 0 {
                    let ls = tuples::field_lets(name, fields, fields.len(), t.span);
                    assert(these[i] == ls[i - 1]);
                    assert(inspect::holds(pure::no_ret(), ls[i - 1]));
                    free_is_fit(strict, ls[i - 1]);
                }
            }
        }
        join_fit(strict, before, these);
    }
}

proof fn join_fit(strict: bool, a: Seq<Tree>, b: Seq<Tree>)
    requires
        all_fit(strict, a),
        all_fit(strict, b),
    ensures
        all_fit(strict, a + b),
{
    assert forall|i: int| 0 <= i < (a + b).len() implies #[trigger] fit(strict, (a + b)[i]) by {
        if i < a.len() {
            assert(fit(strict, a[i]));
        } else {
            assert(fit(strict, b[i - a.len()]));
        }
    }
}

proof fn slot_lets_are_free(name: Text, slots: Seq<Tree>, n: nat)
    ensures
        all_free(tuples::slot_lets(name, slots, n)),
    decreases n,
{
    if n > 1 {
        slot_lets_are_free(name, slots, (n - 1) as nat);
        let slot = slots[n - 1];
        if slot.head is Var {
            let s = synth::slot_of(name, (n - 1) as usize, slot.span);
            free_slot(name, (n - 1) as usize, slot.span);
            free_let(synth::open_let(slot.head->Var_0, s, slot.span));
        }
    }
}

proof fn all_free_is_fit(strict: bool, ts: Seq<Tree>)
    requires
        all_free(ts),
    ensures
        all_fit(strict, ts),
{
    assert forall|i: int| 0 <= i < ts.len() implies #[trigger] fit(strict, ts[i]) by {
        assert(inspect::holds(pure::no_ret(), ts[i]));
        free_is_fit(strict, ts[i]);
    }
}

proof fn fit_arm(strict: bool, pat: Tree, body: Seq<Tree>)
    requires
        fit(strict, pat),
        all_fit(strict, body),
    ensures
        fit(strict, expr::arm_tree(pat, body)),
{
    let a = expr::arm_tree(pat, body);
    assert(all_fit(strict, seq![pat]));
    join_fit(strict, seq![pat], body);
    fit_node(strict, a);
}

proof fn splitting_an_arm_keeps(strict: bool, arm: Tree, name: Text, arity: nat)
    requires
        fit(strict, arm),
        arity > 0,
    ensures
        fit(strict, tuples::split_arm(arm, name, arity)),
{
    fit_kids(strict, arm);
    if arm.kids.len() > 0 && arm.kids[0].head is Tuple && arm.kids[0].kids.len() == arity {
        let pat = arm.kids[0];
        assert(fit(strict, pat));
        fit_kids(strict, pat);
        let first = pat.kids[0];
        let rest = arm.kids.skip(1);
        assert(fit(strict, first));
        assert forall|i: int| 0 <= i < rest.len() implies #[trigger] fit(strict, rest[i]) by {
            assert(fit(strict, arm.kids[i + 1]));
        }
        let lets = tuples::slot_lets(name, pat.kids, arity);
        slot_lets_are_free(name, pat.kids, arity);
        all_free_is_fit(strict, lets);
        join_fit(strict, lets, rest);
        let all = lets + rest;
        match first.head {
            Head::Atom(_) | Head::Num(_, _) | Head::Str(_, _) | Head::Bool(_) => {
                fit_arm(strict, first, all);
            },
            Head::Var(v, _) => {
                if v == "_"@ {
                    fit_arm(strict, first, all);
                } else {
                    let s = synth::slot_of(name, 0, first.span);
                    let l = synth::open_let(v, s, first.span);
                    let any = synth::open_var("_"@, first.span);
                    free_slot(name, 0, first.span);
                    free_let(l);
                    free_leaf(any);
                    free_is_fit(strict, l);
                    free_is_fit(strict, any);
                    join_fit(strict, seq![l], all);
                    fit_arm(strict, any, seq![l] + all);
                }
            },
            _ => {
                let one = expr::node(Head::Tuple, pat.span, seq![first]);
                fit_node(strict, one);
                fit_arm(strict, one, all);
            },
        }
    }
}

proof fn splitting_a_when_keeps(strict: bool, t: Tree, next: u32)
    requires
        fit(strict, t),
        t.head is When,
        t.kids.len() > 0,
    ensures
        all_fit(strict, tuples::split_when(t, next).0),
{
    let arms = t.kids.skip(1);
    let arity = tuples::split_arity(t.kids[0], arms);
    if arity > 0 {
        let name = synth::numbered("__wtp_"@, next);
        fit_kids(strict, t);
        assert(fit(strict, t.kids[0]));
        fit_let(strict, synth::open_let(name, t.kids[0], t.span));
        let parts = Seq::new(arms.len(), |i: int| tuples::split_arm(arms[i], name, arity));
        assert forall|i: int| 0 <= i < parts.len() implies #[trigger] fit(strict, parts[i]) by {
            assert(fit(strict, t.kids[i + 1]));
            splitting_an_arm_keeps(strict, arms[i], name, arity);
        }
        let s = synth::slot_of(name, 0, t.span);
        free_slot(name, 0, t.span);
        free_is_fit(strict, s);
        join_fit(strict, seq![s], parts);
        fit_node(strict, expr::node(Head::When, t.span, seq![s] + parts));
    }
}

proof fn splitting_inside_keeps(strict: bool, t: Tree, next: u32)
    requires
        fit(strict, t),
    ensures
        fit(strict, tuples::split_in(t, next).0),
        tuples::split_in(t, next).0.head == t.head,
    decreases t, 0nat,
{
    fit_kids(strict, t);
    let r = tuples::split_in(t, next).0;
    match t.head {
        Head::Arm => {
            if t.kids.len() > 0 {
                let rest = t.kids.skip(1);
                assert(decreases_to!(t => rest));
                assert(fit(strict, t.kids[0]));
                splitting_inside_keeps(strict, t.kids[0], next);
                let (pat, c) = tuples::split_in(t.kids[0], next);
                assert forall|i: int| 0 <= i < rest.len() implies #[trigger] fit(
                    strict,
                    rest[i],
                ) by {
                    assert(fit(strict, t.kids[i + 1]));
                }
                splitting_keeps(strict, rest, rest.len(), c);
                join_fit(strict, seq![pat], tuples::split_all(rest, rest.len(), c).0);
                fit_node(strict, r);
            }
        },
        Head::Handler(_) => {
            splitting_keeps(strict, t.kids, t.kids.len(), next);
            fit_node(strict, r);
        },
        _ => {
            if tuples::looks_inside(t.head) {
                splitting_kids_keeps(strict, t.kids, t.kids.len(), next);
                fit_node(strict, r);
            }
        },
    }
}

proof fn splitting_kids_keeps(strict: bool, ts: Seq<Tree>, n: nat, next: u32)
    requires
        n <= ts.len(),
        all_fit(strict, ts),
    ensures
        all_fit(strict, tuples::split_kids(ts, n, next).0),
        tuples::split_kids(ts, n, next).0.len() == n,
    decreases ts, n,
{
    if n > 0 {
        splitting_kids_keeps(strict, ts, (n - 1) as nat, next);
        let (before, c) = tuples::split_kids(ts, (n - 1) as nat, next);
        assert(fit(strict, ts[n - 1]));
        splitting_inside_keeps(strict, ts[n - 1], c);
        let t = tuples::split_in(ts[n - 1], c).0;
        join_fit(strict, before, seq![t]);
        assert(before.push(t) =~= before + seq![t]);
    }
}

proof fn splitting_keeps(strict: bool, body: Seq<Tree>, n: nat, next: u32)
    requires
        n <= body.len(),
        all_fit(strict, body),
    ensures
        all_fit(strict, tuples::split_all(body, n, next).0),
    decreases body, n,
{
    if n > 0 {
        splitting_keeps(strict, body, (n - 1) as nat, next);
        let (before, c) = tuples::split_all(body, (n - 1) as nat, next);
        let t = body[n - 1];
        assert(fit(strict, t));
        splitting_inside_keeps(strict, t, c);
        let (t2, c2) = tuples::split_in(t, c);
        if t2.head is When && t2.kids.len() > 0 {
            splitting_a_when_keeps(strict, t2, c2);
        }
        join_fit(strict, before, tuples::split_stmt(t, c).0);
    }
}

// ── nested calls ───────────────────────────────────────────────────────────

proof fn push_free(ts: Seq<Tree>, t: Tree)
    requires
        all_free(ts),
        free(t),
    ensures
        all_free(ts.push(t)),
{
    assert forall|i: int| 0 <= i < ts.push(t).len() implies #[trigger] inspect::holds(
        pure::no_ret(),
        ts.push(t)[i],
    ) by {
        if i < ts.len() {
            assert(inspect::holds(pure::no_ret(), ts[i]));
        }
    }
}

proof fn join_free(a: Seq<Tree>, b: Seq<Tree>)
    requires
        all_free(a),
        all_free(b),
    ensures
        all_free(a + b),
{
    assert forall|i: int| 0 <= i < (a + b).len() implies #[trigger] inspect::holds(
        pure::no_ret(),
        (a + b)[i],
    ) by {
        if i < a.len() {
            assert(inspect::holds(pure::no_ret(), a[i]));
        } else {
            assert(inspect::holds(pure::no_ret(), b[i - a.len()]));
        }
    }
}

proof fn part_free(ts: Seq<Tree>, from: int, to: int)
    requires
        all_free(ts),
        0 <= from <= to <= ts.len(),
    ensures
        all_free(ts.subrange(from, to)),
{
    assert forall|i: int| 0 <= i < to - from implies #[trigger] inspect::holds(
        pure::no_ret(),
        ts.subrange(from, to)[i],
    ) by {
        assert(inspect::holds(pure::no_ret(), ts[from + i]));
    }
}

proof fn moving_keeps_free(prefix: Text, t: Tree, span: SimpleSpan, st: Lifted)
    requires
        free(t),
        all_free(st.lifts),
    ensures
        free(lift::moved(prefix, t, span, st).0),
        all_free(lift::moved(prefix, t, span, st).1.lifts),
{
    let name = synth::numbered(prefix, st.next);
    free_leaf(synth::open_var(name, span));
    free_let(synth::open_let(name, t, span));
    push_free(st.lifts, synth::open_let(name, t, span));
}

proof fn lifting_keeps_free(t: Tree, st: Lifted)
    requires
        free(t),
        all_free(st.lifts),
    ensures
        free(lift::lifted(t, st).0),
        all_free(lift::lifted(t, st).1.lifts),
    decreases t, 0nat,
{
    free_kids(t);
    lifting_kids_keeps_free(t.head, t.kids, t.kids.len(), st);
    if t.head is Ret {
        inspect::holds_iff(pure::no_ret(), t);
    }
    free_node(lift::lifted(t, st).0);
}

proof fn lifting_kids_keeps_free(head: Head, ts: Seq<Tree>, n: nat, st: Lifted)
    requires
        n <= ts.len(),
        all_free(ts),
        all_free(st.lifts),
    ensures
        all_free(lift::lifted_kids(head, ts, n, st).0),
        all_free(lift::lifted_kids(head, ts, n, st).1.lifts),
    decreases ts, n,
{
    if n > 0 {
        lifting_kids_keeps_free(head, ts, (n - 1) as nat, st);
        let (ks, s1) = lift::lifted_kids(head, ts, (n - 1) as nat, st);
        let t = ts[n - 1];
        assert(inspect::holds(pure::no_ret(), t));
        assert(free(t));
        lifting_keeps_free(t, s1);
        let (r, s) = lift::lifted(t, s1);
        moving_keeps_free("__lift_"@, r, t.span, s);
        moving_keeps_free("__anf_tmp"@, r, t.span, s);
        let (kids, st2) = lift::lifted_kids(head, ts, n, st);
        push_free(ks, kids.last());
        assert(kids =~= ks.push(kids.last()));
    }
}

proof fn lifting_a_body_keeps_free(body: Seq<Tree>, n: nat, next: u32)
    requires
        n <= body.len(),
        all_free(body),
    ensures
        all_free(lift::lifted_body(body, n, next).lifts),
    decreases n,
{
    if n > 0 {
        lifting_a_body_keeps_free(body, (n - 1) as nat, next);
        let st = lift::lifted_body(body, (n - 1) as nat, next);
        assert(inspect::holds(pure::no_ret(), body[n - 1]));
        lifting_keeps_free(body[n - 1], st);
        let (t, s) = lift::lifted(body[n - 1], st);
        push_free(s.lifts, t);
    }
}

// ── calls ──────────────────────────────────────────────────────────────────

proof fn pinning_keeps_free(body: Seq<Tree>, n: nat, next: u32)
    requires
        n <= body.len(),
        all_free(body),
    ensures
        all_free(calls::pinned_all(body, n, next).0),
    decreases n,
{
    if n > 0 {
        pinning_keeps_free(body, (n - 1) as nat, next);
        let (before, c) = calls::pinned_all(body, (n - 1) as nat, next);
        let t = body[n - 1];
        assert(inspect::holds(pure::no_ret(), t));
        free_kids(t);
        let r = calls::pinned(t, c).0;
        if t.head is Pin {
            if t.kids.len() > 0 {
                assert(inspect::holds(pure::no_ret(), t.kids[0]));
            } else {
                free_leaf(synth::operand(t));
            }
            free_let(r);
        }
        push_free(before, r);
    }
}

proof fn discarding_keeps_free(cx: CxV, body: Seq<Tree>, n: nat, next: u32)
    requires
        n <= body.len(),
        all_free(body),
    ensures
        all_free(calls::discarded_all(cx, body, n, next).0),
    decreases n,
{
    if n > 0 {
        discarding_keeps_free(cx, body, (n - 1) as nat, next);
        let (before, c) = calls::discarded_all(cx, body, (n - 1) as nat, next);
        let t = body[n - 1];
        assert(inspect::holds(pure::no_ret(), t));
        let r = calls::discarded(cx, t, c).0;
        if r != t {
            free_let(r);
        }
        push_free(before, r);
    }
}

pub proof fn awaiting_keeps_free(cx: CxV, t: Tree, ret: Text, rest: Seq<Tree>, id: u32)
    requires
        inspect::holds(pure::no_ret(), t),
        calls::binds_ret(cx, t),
        inspect::all_hold(pure::no_ret(), rest),
    ensures
        inspect::all_hold(pure::no_ret(), calls::awaited(t, ret, rest, id)),
{
    free_kids(t);
    let call = t.kids[0];
    assert(inspect::holds(pure::no_ret(), call));
    free_kids(call);
    let s = calls::with_self(call, t.span);
    let me = synth::self_tree(t.span);
    free_leaf(me);
    assert forall|i: int| 0 <= i < s.kids.len() implies #[trigger] inspect::holds(
        pure::no_ret(),
        s.kids[i],
    ) by {
        if i == 0 {
            assert(inspect::holds(pure::no_ret(), call.kids[0]));
        } else if i == 1 {
            assert(free(me));
        } else {
            assert(s.kids[i] == call.kids[i - 1]);
            assert(inspect::holds(pure::no_ret(), call.kids[i - 1]));
        }
    }
    free_node(s);
    let out = calls::awaited(t, ret, rest, id);
    free_let(out[0]);
    let wait = out[1];
    let filter = wait.kids[0];
    let handler = wait.kids[1];
    free_leaf(filter.kids[0]);
    free_node(filter);
    free_node(handler);
    free_node(wait);
}

// ── pure machines ──────────────────────────────────────────────────────────

/// The one `ret` of a template is its last statement.
pub open spec fn template_is_simple(tm: TemplateV) -> bool {
    pure::is_simple(tm.body) && tm.body.last().kids.len() == 1
}

/// [`template_is_simple`] of all templates of a table.
pub open spec fn templates_are_simple(table: Seq<(RetKeyV, TemplateV)>) -> bool {
    forall|i: int| 0 <= i < table.len() ==> template_is_simple((#[trigger] table[i]).1)
}

proof fn renaming_keeps(names: Map<Text, Text>)
    ensures
        keeps(true, passes::rename_rule(names)),
{
    let p = passes::rename_rule(names);
    assert forall|t: Tree| fit(true, t) && !rewrite::is_part(t.head) implies fit(
        true,
        #[trigger] (p.at)(t),
    ) by {
        free_kids(t);
        free_node((p.at)(t));
    }
}

proof fn found_template_is_simple(table: Seq<(RetKeyV, TemplateV)>, key: RetKeyV, from: int)
    requires
        templates_are_simple(table),
        0 <= from,
    ensures
        ({
            let i = pure::key_index(table, key, from);
            0 <= i < table.len() ==> template_is_simple(table[i].1)
        }),
    decreases table.len() - from,
{
    if from < table.len() && table[from].0 != key {
        found_template_is_simple(table, key, from + 1);
    }
}

proof fn arg_lets_are_free(
    params: Seq<Spanned<PatternV>>,
    args: Seq<Tree>,
    n: nat,
    id: u32,
    span: SimpleSpan,
)
    requires
        n <= params.len(),
        n <= args.len(),
        all_free(args),
    ensures
        all_free(expand::arg_lets(params, args, n, id, span)),
    decreases n,
{
    if n > 0 {
        arg_lets_are_free(params, args, (n - 1) as nat, id, span);
        let before = expand::arg_lets(params, args, (n - 1) as nat, id, span);
        let l = expand::arg_lets(params, args, n, id, span).last();
        assert(inspect::holds(pure::no_ret(), args[n - 1]));
        free_let(l);
        push_free(before, l);
    }
}

proof fn inlining_a_call_keeps_free(cx: CxV, tm: TemplateV, t: Tree, scope: ModuleId, id: u32)
    requires
        free(t),
        expand::template_for(cx, t, scope) == Some(tm),
        template_is_simple(tm),
    ensures
        all_free(expand::inlined_let(tm, t, id)),
{
    let names = expand::fresh_names(id, expand::template_names(tm));
    let p = passes::rename_rule(names);
    let b = rewrite::rewritten_all(p, tm.body);
    renaming_keeps(names);
    free_kids(t);
    let call = t.kids[0];
    assert(inspect::holds(pure::no_ret(), call));
    free_kids(call);
    part_free(call.kids, 1, call.kids.len() as int);
    let args = call.kids.skip(1);
    assert(args =~= call.kids.subrange(1, call.kids.len() as int));
    arg_lets_are_free(tm.params, args, tm.params.len(), id, t.span);
    assert forall|i: int| 0 <= i < b.drop_last().len() implies #[trigger] inspect::holds(
        pure::no_ret(),
        b.drop_last()[i],
    ) by {
        assert(!pure::contains_ret(tm.body[i]));
        rewriting_keeps(true, p, tm.body[i]);
    }
    let last = tm.body.last();
    assert(!pure::contains_ret(last.kids[0]));
    rewriting_keeps(true, p, last.kids[0]);
    assert(rewrite::entered(p, last.head, 0));
    assert(b.last() == rewrite::rewritten(p, last));
    assert(b.last().kids[0] == rewrite::rewritten(p, last.kids[0]));
    let l = Tree { kids: seq![b.last().kids[0]], ..t };
    free_let(l);
    join_free(expand::arg_lets(tm.params, args, tm.params.len(), id, t.span), b.drop_last());
    join_free(
        expand::arg_lets(tm.params, args, tm.params.len(), id, t.span) + b.drop_last(),
        seq![l],
    );
}

proof fn inlining_keeps_free(cx: CxV, body: Seq<Tree>, scope: ModuleId, next: u32, fuel: nat)
    requires
        all_free(body),
        templates_are_simple(cx.pure),
    ensures
        all_free(expand::inlined(cx, body, scope, next, fuel).0),
    decreases fuel, 0nat,
{
    if cx.pure.len() != 0 && fuel != 0 {
        lifting_a_body_keeps_free(body, body.len(), next);
        let lifted = lift::lifted_body(body, body.len(), next);
        inlining_stmts_keeps_free(
            cx,
            lifted.lifts,
            lifted.lifts.len(),
            scope,
            lifted.next,
            (fuel - 1) as nat,
        );
    }
}

proof fn inlining_stmts_keeps_free(
    cx: CxV,
    body: Seq<Tree>,
    n: nat,
    scope: ModuleId,
    next: u32,
    fuel: nat,
)
    requires
        n <= body.len(),
        all_free(body),
        templates_are_simple(cx.pure),
    ensures
        all_free(expand::inlined_stmts(cx, body, n, scope, next, fuel).0),
    decreases fuel, n,
{
    if n > 0 {
        inlining_stmts_keeps_free(cx, body, (n - 1) as nat, scope, next, fuel);
        let (before, c) = expand::inlined_stmts(cx, body, (n - 1) as nat, scope, next, fuel);
        let t = body[n - 1];
        assert(inspect::holds(pure::no_ret(), t));
        match expand::template_for(cx, t, scope) {
            Some(tm) => {
                let name = expand::callee_name(t.kids[0].kids[0])->0;
                let m = cx.reg.resolved(scope, name)->0->Machine_0;
                found_template_is_simple(
                    cx.pure,
                    RetKeyV { module: cx.reg.scope(m.module).path, name },
                    0,
                );
                inlining_a_call_keeps_free(cx, tm, t, scope, c);
                let these = expand::inlined_let(tm, t, c);
                inlining_keeps_free(cx, these, tm.origin_module, lift::succ(c), fuel);
                join_free(
                    before,
                    expand::inlined(cx, these, tm.origin_module, lift::succ(c), fuel).0,
                );
            },
            None => {
                push_free(before, t);
            },
        }
    }
}

// ── sends to the caller ────────────────────────────────────────────────────

proof fn wrapping_keeps_free(ts: Seq<Tree>)
    requires
        all_free(ts),
    ensures
        all_free(tail::wrapped_body(ts)),
    decreases ts, 0nat,
{
    if ts.len() > 0 {
        let t = ts[ts.len() - 1];
        assert(inspect::holds(pure::no_ret(), t));
        assert(decreases_to!(ts => t));
        wrapping_a_tail_keeps_free(t);
        part_free(ts, 0, ts.len() - 1);
        assert(ts.drop_last() =~= ts.subrange(0, ts.len() - 1));
        join_free(ts.drop_last(), tail::wrapped_tail(t));
    }
}

proof fn wrapping_a_tail_keeps_free(t: Tree)
    requires
        free(t),
    ensures
        all_free(tail::wrapped_tail(t)),
    decreases t, 0nat,
{
    free_kids(t);
    match t.head {
        Head::When | Head::Wait => {
            let r = Tree { kids: tail::wrapped_parts(t.kids), ..t };
            assert forall|i: int| 0 <= i < r.kids.len() implies #[trigger] inspect::holds(
                pure::no_ret(),
                r.kids[i],
            ) by {
                assert(inspect::holds(pure::no_ret(), t.kids[i]));
                if i >= 1 {
                    assert(decreases_to!(t => t.kids[i]));
                    wrapping_a_part_keeps_free(t.kids[i]);
                }
            }
            free_node(r);
            assert(tail::wrapped_tail(t) =~= seq![r]);
        },
        Head::Pin | Head::Let(_, _) => {
            free_leaf(synth::null_pid(t.span));
            free_send(t.span, synth::null_pid(t.span));
        },
        _ => {
            free_send(t.span, t);
        },
    }
}

proof fn wrapping_a_part_keeps_free(part: Tree)
    requires
        free(part),
    ensures
        free(tail::wrapped_part(part)),
    decreases part, 1nat,
{
    free_kids(part);
    let k = tail::body_start(part) as int;
    if part.kids.len() > k {
        let n = part.kids.len() as int;
        let rest = part.kids.skip(k);
        assert(decreases_to!(part => part.kids));
        assert(k > 0 ==> decreases_to!(part.kids => part.kids.skip(k)));
        assert(part.kids.skip(0) =~= part.kids);
        part_free(part.kids, k, n);
        part_free(part.kids, 0, k);
        assert(rest =~= part.kids.subrange(k, n));
        assert(part.kids.take(k) =~= part.kids.subrange(0, k));
        wrapping_keeps_free(rest);
        join_free(part.kids.take(k), tail::wrapped_body(rest));
        let r = tail::wrapped_part(part);
        if part.head is Ret {
            inspect::holds_iff(pure::no_ret(), part);
        }
        free_node(r);
    }
}

// ── bodies ─────────────────────────────────────────────────────────────────

proof fn preparing_frees(cx: CxV, ts: Seq<Tree>, is_ret: bool, next: u32, fuel: nat)
    requires
        all_fit(false, ts),
        templates_are_simple(cx.pure),
    ensures
        all_free(body::prepared(cx, ts, is_ret, next, fuel).0),
{
    let b1 = rewrite::rewritten_all(passes::paths_rule(cx.reg, cx.id), ts);
    paths_keep(false, cx);
    rewriting_all_keeps(false, passes::paths_rule(cx.reg, cx.id), ts);
    let b2 = rewrite::rewritten_all(passes::inline_rule(cx.reg, cx.id), b1);
    consts_keep(false, cx);
    rewriting_all_keeps(false, passes::inline_rule(cx.reg, cx.id), b1);
    let (b3, c3) = tuples::expanded_body(b2, b2.len(), next);
    expanding_keeps(false, b2, b2.len(), next);
    let (b4, c4) = tuples::split_all(b3, b3.len(), c3);
    splitting_keeps(false, b3, b3.len(), c3);
    let b5 = if is_ret {
        rewrite::rewritten_all(passes::thread_rule(), b4)
    } else {
        b4
    };
    threading_keeps(false);
    rewriting_all_keeps(false, passes::thread_rule(), b4);
    let b6 = rewrite::rewritten_all(passes::ret_rule(), b5);
    assert forall|i: int| 0 <= i < b6.len() implies #[trigger] inspect::holds(
        pure::no_ret(),
        b6[i],
    ) by {
        assert(fit(false, b5[i]));
        rewriting_returns_frees(b5[i]);
    }
    lifting_a_body_keeps_free(b6, b6.len(), c4);
    let l7 = lift::lifted_body(b6, b6.len(), c4);
    pinning_keeps_free(l7.lifts, l7.lifts.len(), l7.next);
    let (b8, c8) = calls::pinned_all(l7.lifts, l7.lifts.len(), l7.next);
    discarding_keeps_free(cx, b8, b8.len(), c8);
    let (b9, c9) = calls::discarded_all(cx, b8, b8.len(), c8);
    inlining_keeps_free(cx, b9, cx.id, c9, fuel);
}

/// No `ret` is left in a prepared body.
pub proof fn prepared_bodies_hold_no_ret(
    cx: CxV,
    ts: Seq<Tree>,
    is_ret: bool,
    next: u32,
    fuel: nat,
)
    requires
        inspect::all_hold(rets_whole(), ts),
        templates_are_simple(cx.pure),
    ensures
        inspect::all_hold(pure::no_ret(), body::prepared(cx, ts, is_ret, next, fuel).0),
{
    assert forall|i: int| 0 <= i < ts.len() implies #[trigger] fit(false, ts[i]) by {
        assert(inspect::holds(rets_whole(), ts[i]));
    }
    preparing_frees(cx, ts, is_ret, next, fuel);
}

/// Sending the value of a body, and lifting it, brings in no `ret`.
pub proof fn sending_keeps_free(ts: Seq<Tree>, next: u32)
    requires
        inspect::all_hold(pure::no_ret(), ts),
    ensures
        inspect::all_hold(
            pure::no_ret(),
            lift::lifted_body(body::sent(ts), body::sent(ts).len(), next).lifts,
        ),
{
    wrapping_keeps_free(ts);
    lifting_a_body_keeps_free(body::sent(ts), body::sent(ts).len(), next);
}

proof fn first_ret_let_binds(cx: CxV, ts: Seq<Tree>, from: int)
    requires
        0 <= from,
    ensures
        ({
            let i = body::first_ret_let(cx, ts, from);
            from <= i && (i < ts.len() ==> calls::binds_ret(cx, ts[i]))
        }),
    decreases ts.len() - from,
{
    if from < ts.len() && !calls::binds_ret(cx, ts[from]) {
        first_ret_let_binds(cx, ts, from + 1);
    }
}

proof fn lowering_frees(
    cx: CxV,
    ts: Seq<Tree>,
    is_ret: bool,
    outermost: bool,
    next: u32,
    fuel: nat,
)
    requires
        all_fit(false, ts),
        fuel == 0 ==> all_free(ts),
        templates_are_simple(cx.pure),
    ensures
        all_free(body::lowered(cx, ts, is_ret, outermost, next, fuel).0),
    decreases fuel, 1nat, ts, 0nat,
{
    if fuel > 0 {
        preparing_frees(cx, ts, is_ret, next, fuel);
        let (b, c) = body::prepared(cx, ts, is_ret, next, fuel);
        let i = body::first_ret_let(cx, b, 0);
        first_ret_let_binds(cx, b, 0);
        let (b2, c2) = if 0 <= i < b.len() {
            let rest = b.skip(i + 1);
            part_free(b, i + 1, b.len() as int);
            assert(rest =~= b.subrange(i + 1, b.len() as int));
            all_free_is_fit(false, rest);
            lowering_frees(cx, rest, is_ret, true, lift::succ(c), (fuel - 1) as nat);
            let (low, c2) = body::lowered(
                cx,
                rest,
                is_ret,
                true,
                lift::succ(c),
                (fuel - 1) as nat,
            );
            assert(inspect::holds(pure::no_ret(), b[i]));
            let ret = calls::ret_of(cx, b[i].kids[0])->0;
            awaiting_keeps_free(cx, b[i], ret, low, c);
            part_free(b, 0, i);
            assert(b.take(i) =~= b.subrange(0, i));
            join_free(b.take(i), calls::awaited(b[i], ret, low, c));
            (b.take(i) + calls::awaited(b[i], ret, low, c), c2)
        } else {
            (b, c)
        };
        wrapping_keeps_free(b2);
        let sent = body::sent(b2);
        assert(all_free(sent));
        lifting_a_body_keeps_free(sent, sent.len(), c2);
        let (b3, c3) = if is_ret && outermost {
            let l = lift::lifted_body(sent, sent.len(), c2);
            (l.lifts, l.next)
        } else {
            (b2, c2)
        };
        assert(all_free(b3));
        lowering_arms_of_all_frees(cx, b3, b3.len(), is_ret, c3, fuel);
    }
}

proof fn lowering_arms_frees(cx: CxV, t: Tree, is_ret: bool, next: u32, fuel: nat)
    requires
        free(t),
        templates_are_simple(cx.pure),
    ensures
        free(body::arms_lowered(cx, t, is_ret, next, fuel).0),
    decreases fuel, 0nat, t, 0nat,
{
    free_kids(t);
    let r = body::arms_lowered(cx, t, is_ret, next, fuel).0;
    match t.head {
        Head::Arm => {
            if t.kids.len() > 0 && fuel > 0 {
                assert(inspect::holds(pure::no_ret(), t.kids[0]));
                assert(decreases_to!(t => t.kids[0]));
                lowering_arms_frees(cx, t.kids[0], is_ret, next, fuel);
                let (pat, c) = body::arms_lowered(cx, t.kids[0], is_ret, next, fuel);
                let rest = t.kids.skip(1);
                part_free(t.kids, 1, t.kids.len() as int);
                assert(rest =~= t.kids.subrange(1, t.kids.len() as int));
                all_free_is_fit(false, rest);
                lowering_frees(cx, rest, is_ret, false, c, (fuel - 1) as nat);
                let low = body::lowered(cx, rest, is_ret, false, c, (fuel - 1) as nat).0;
                join_free(seq![pat], low);
                free_node(r);
            }
        },
        Head::Handler(_) => {
            if fuel > 0 {
                all_free_is_fit(false, t.kids);
                lowering_frees(cx, t.kids, is_ret, false, next, (fuel - 1) as nat);
                free_node(r);
            }
        },
        _ => {
            if tuples::looks_inside(t.head) {
                assert(decreases_to!(t => t.kids));
                lowering_arms_of_all_frees(cx, t.kids, t.kids.len(), is_ret, next, fuel);
                free_node(r);
            }
        },
    }
}

proof fn lowering_arms_of_all_frees(
    cx: CxV,
    ts: Seq<Tree>,
    n: nat,
    is_ret: bool,
    next: u32,
    fuel: nat,
)
    requires
        n <= ts.len(),
        all_free(ts),
        templates_are_simple(cx.pure),
    ensures
        all_free(body::arms_lowered_all(cx, ts, n, is_ret, next, fuel).0),
    decreases fuel, 0nat, ts, n,
{
    if n > 0 {
        lowering_arms_of_all_frees(cx, ts, (n - 1) as nat, is_ret, next, fuel);
        let (before, c) = body::arms_lowered_all(cx, ts, (n - 1) as nat, is_ret, next, fuel);
        assert(inspect::holds(pure::no_ret(), ts[n - 1]));
        lowering_arms_frees(cx, ts[n - 1], is_ret, c, fuel);
        push_free(before, body::arms_lowered(cx, ts[n - 1], is_ret, c, fuel).0);
    }
}

/// No `ret` is left in a lowered body.
pub proof fn lowered_bodies_hold_no_ret(
    cx: CxV,
    ts: Seq<Tree>,
    is_ret: bool,
    outermost: bool,
    next: u32,
    fuel: nat,
)
    requires
        inspect::all_hold(rets_whole(), ts),
        templates_are_simple(cx.pure),
        fuel > 0,
    ensures
        inspect::all_hold(pure::no_ret(), body::lowered(cx, ts, is_ret, outermost, next, fuel).0),
{
    assert forall|i: int| 0 <= i < ts.len() implies #[trigger] fit(false, ts[i]) by {
        assert(inspect::holds(rets_whole(), ts[i]));
    }
    lowering_frees(cx, ts, is_ret, outermost, next, fuel);
}

// ── programs ───────────────────────────────────────────────────────────────

/// In every program every `ret` has its operand.
pub proof fn programs_are_whole(p: ParsedProgram)
    ensures
        program::each_branch(
            p.deep_view(),
            |b: BranchV| inspect::all_hold(rets_whole(), b.body),
        ),
{
    let ms = p.deep_view();
    let good = |b: BranchV| inspect::all_hold(rets_whole(), b.body);
    assert forall|i: int| 0 <= i < ms.len() implies program::each_ast_branch(
        (#[trigger] ms[i]).ast,
        good,
    ) by {
        let ast = p.modules@[i].ast@;
        assert forall|j: int| 0 <= j < ms[i].ast.len() implies match (
        #[trigger] ms[i].ast[j]).inner {
            ItemV::Machine(m) => program::each_item_branch(m.inner.items, good),
            _ => true,
        } by {
            if let Item::Machine(m) = ast[j].inner {
                machines_are_whole(m.inner);
            }
        }
    }
}

proof fn machines_are_whole(m: Machine)
    ensures
        program::each_item_branch(
            m.deep_view().items,
            |b: BranchV| inspect::all_hold(rets_whole(), b.body),
        ),
{
    let items = m.deep_view().items;
    let good = |b: BranchV| inspect::all_hold(rets_whole(), b.body);
    assert forall|k: int| 0 <= k < items.len() implies match (#[trigger] items[k]).inner {
        MachineItemV::Branch(b) => good(b),
        MachineItemV::Field(_) => true,
    } by {
        if let MachineItem::Branch(b) = m.items@[k].inner {
            let body = b.deep_view().body;
            lists_are_whole(b.body@);
            assert forall|i: int| 0 <= i < body.len() implies #[trigger] inspect::holds(
                rets_whole(),
                body[i],
            ) by {
                assert(fit(false, body[i]));
            }
        }
    }
}

/// Whether every `ret` of a program has its operand, and no constant holds
/// one.
pub open spec fn returns_are_whole(ms: Seq<ModuleV>) -> bool {
    &&& program::each_branch(ms, |b: BranchV| inspect::all_hold(rets_whole(), b.body))
    &&& forall|i: int| 0 <= i < ms.len() ==> consts_hold_no_ret((#[trigger] ms[i]).ast)
}

/// Whether no constant of a module holds a `ret`.
pub open spec fn consts_hold_no_ret(ast: Seq<Spanned<ItemV>>) -> bool {
    forall|j: int|
        0 <= j < ast.len() ==> match (#[trigger] ast[j]).inner {
            ItemV::Const(c) => inspect::holds(pure::no_ret(), c.inner.value),
            _ => true,
        }
}

proof fn module_consts_are_free(ast: Seq<Spanned<ItemV>>, n: nat)
    requires
        n <= ast.len(),
        consts_hold_no_ret(ast),
    ensures
        forall|k: Text|
            pure::module_consts(ast, n).contains_key(k) ==> free(
                #[trigger] pure::module_consts(ast, n)[k],
            ),
    decreases n,
{
    if n > 0 {
        module_consts_are_free(ast, (n - 1) as nat);
        let item = ast[n - 1];
        assert(item.inner is Const ==> free(item.inner->Const_0.inner.value));
        let before = pure::module_consts(ast, (n - 1) as nat);
        let after = pure::module_consts(ast, n);
        assert forall|k: Text| after.contains_key(k) implies free(#[trigger] after[k]) by {
            if before.contains_key(k) && after[k] == before[k] {
                assert(free(before[k]));
            }
        }
    }
}

proof fn substituting_consts_keeps(consts: Map<Text, Tree>)
    requires
        forall|k: Text| consts.contains_key(k) ==> free(#[trigger] consts[k]),
    ensures
        keeps(true, passes::consts_rule(consts)),
{
    let p = passes::consts_rule(consts);
    assert forall|t: Tree| fit(true, t) && !rewrite::is_part(t.head) implies fit(
        true,
        #[trigger] (p.at)(t),
    ) by {
        if let Head::Var(name, _) = t.head {
            if consts.contains_key(name) {
                assert(free(consts[name]));
            }
        }
    }
}

proof fn template_of_is_simple(m: MachineV, consts: Map<Text, Tree>, id: ModuleId)
    requires
        program::each_item_branch(
            m.items,
            |b: BranchV| inspect::all_hold(rets_whole(), b.body),
        ),
        forall|k: Text| consts.contains_key(k) ==> free(#[trigger] consts[k]),
    ensures
        pure::template_of(m, consts, id) matches Some(tm) ==> template_is_simple(tm),
{
    let bs = pure::branches_of(m.items, m.items.len());
    let good = |b: BranchV| inspect::all_hold(rets_whole(), b.body);
    if bs.len() == 1 && pure::is_simple(pure::canonical(bs[0].body)) {
        only_branch_is_good(m.items, m.items.len(), good);
        assert(good(bs[0]));
        let b = pure::canonical(bs[0].body);
        let p = passes::consts_rule(consts);
        let out = rewrite::rewritten_all(p, b);
        substituting_consts_keeps(consts);
        let last = b.last();
        if b == bs[0].body {
            assert(inspect::holds(rets_whole(), b[b.len() - 1]));
            fit_kids(false, last);
        }
        assert(last.kids.len() == 1);
        assert(!pure::contains_ret(last.kids[0]));
        rewriting_keeps(true, p, last.kids[0]);
        assert(out.last() == rewrite::rewritten(p, last));
        assert(out.last().kids =~= seq![rewrite::rewritten(p, last.kids[0])]);
        assert forall|i: int| 0 <= i < out.len() - 1 implies !#[trigger] pure::contains_ret(
            out[i],
        ) by {
            assert(!pure::contains_ret(b[i]));
            rewriting_keeps(true, p, b[i]);
        }
        assert forall|i: int| 0 <= i < out.last().kids.len() implies !#[trigger] pure::contains_ret(
            out.last().kids[i],
        ) by {
            assert(i == 0);
        }
    }
}

proof fn only_branch_is_good(
    items: Seq<Spanned<MachineItemV>>,
    n: nat,
    good: spec_fn(BranchV) -> bool,
)
    requires
        n <= items.len(),
        program::each_item_branch(items, good),
    ensures
        forall|i: int|
            0 <= i < pure::branches_of(items, n).len() ==> good(
                #[trigger] pure::branches_of(items, n)[i],
            ),
    decreases n,
{
    if n > 0 {
        only_branch_is_good(items, (n - 1) as nat, good);
        let item = items[n - 1];
        assert(item.inner is Branch ==> good(item.inner->Branch_0));
        let before = pure::branches_of(items, (n - 1) as nat);
        let after = pure::branches_of(items, n);
        assert forall|i: int| 0 <= i < after.len() implies good(#[trigger] after[i]) by {
            if i < before.len() {
                assert(after[i] == before[i]);
            }
        }
    }
}

proof fn module_templates_are_simple(
    table: Seq<(RetKeyV, TemplateV)>,
    keys: Seq<RetKeyV>,
    m: ModuleV,
    id: ModuleId,
    n: nat,
)
    requires
        n <= m.ast.len(),
        templates_are_simple(table),
        program::each_ast_branch(
            m.ast,
            |b: BranchV| inspect::all_hold(rets_whole(), b.body),
        ),
        consts_hold_no_ret(m.ast),
    ensures
        templates_are_simple(pure::module_templates(table, keys, m, id, n)),
    decreases n,
{
    if n > 0 {
        module_templates_are_simple(table, keys, m, id, (n - 1) as nat);
        let before = pure::module_templates(table, keys, m, id, (n - 1) as nat);
        if let ItemV::Machine(mach) = m.ast[n - 1].inner {
            let consts = pure::module_consts(m.ast, m.ast.len());
            module_consts_are_free(m.ast, m.ast.len());
            template_of_is_simple(mach.inner, consts, id);
            if let Some(tm) = pure::template_of(mach.inner, consts, id) {
                let key = RetKeyV { module: m.path, name: mach.inner.ident.inner };
                let after = pure::key_insert(before, key, tm);
                let i = pure::key_index(before, key, 0);
                assert forall|j: int| 0 <= j < after.len() implies template_is_simple(
                    (#[trigger] after[j]).1,
                ) by {
                    if j < before.len() && !(0 <= i < before.len() && j == i) {
                        assert(after[j] == before[j]);
                    }
                }
            }
        }
    }
}

proof fn collected_templates_are_simple(
    ms: Seq<ModuleV>,
    keys: Seq<RetKeyV>,
    reg: RegistryV,
    n: nat,
)
    requires
        n <= ms.len(),
        returns_are_whole(ms),
    ensures
        templates_are_simple(pure::templates_of(ms, keys, reg, n)),
    decreases n,
{
    if n > 0 {
        collected_templates_are_simple(ms, keys, reg, (n - 1) as nat);
        let m = ms[n - 1];
        assert(consts_hold_no_ret(m.ast));
        module_templates_are_simple(
            pure::templates_of(ms, keys, reg, (n - 1) as nat),
            keys,
            m,
            reg.id_for_path(m.path)->0,
            m.ast.len(),
        );
    }
}

proof fn lowered_ast_keeps_consts(
    cx: CxV,
    path: Seq<Text>,
    ast: Seq<Spanned<ItemV>>,
    n: nat,
    next: u32,
)
    requires
        n <= ast.len(),
        consts_hold_no_ret(ast),
    ensures
        consts_hold_no_ret(program::lowered_ast(cx, path, ast, n, next).0),
    decreases n,
{
    if n > 0 {
        lowered_ast_keeps_consts(cx, path, ast, (n - 1) as nat, next);
        let before = program::lowered_ast(cx, path, ast, (n - 1) as nat, next).0;
        let after = program::lowered_ast(cx, path, ast, n, next).0;
        let item = ast[n - 1];
        assert forall|j: int| 0 <= j < after.len() implies match (#[trigger] after[j]).inner {
            ItemV::Const(c) => inspect::holds(pure::no_ret(), c.inner.value),
            _ => true,
        } by {
            if j < before.len() {
                assert(after[j] == before[j]);
            }
        }
    }
}

proof fn lowered_modules_keep_consts(
    reg: RegistryV,
    ret: Seq<(RetKeyV, Text)>,
    templates: Seq<(RetKeyV, TemplateV)>,
    ms: Seq<ModuleV>,
    n: nat,
    next: u32,
)
    requires
        n <= ms.len(),
        forall|i: int| 0 <= i < ms.len() ==> consts_hold_no_ret((#[trigger] ms[i]).ast),
    ensures
        forall|i: int|
            0 <= i < program::lowered_modules(reg, ret, templates, ms, n, next).0.len()
                ==> consts_hold_no_ret(
                (#[trigger] program::lowered_modules(reg, ret, templates, ms, n, next).0[i]).ast,
            ),
    decreases n,
{
    if n > 0 {
        lowered_modules_keep_consts(reg, ret, templates, ms, (n - 1) as nat, next);
        let (before, c) = program::lowered_modules(reg, ret, templates, ms, (n - 1) as nat, next);
        let after = program::lowered_modules(reg, ret, templates, ms, n, next).0;
        let m = ms[n - 1];
        lowered_ast_keeps_consts(
            program::context_of(reg, ret, templates, m),
            m.path,
            m.ast,
            m.ast.len(),
            c,
        );
        assert forall|i: int| 0 <= i < after.len() implies consts_hold_no_ret(
            (#[trigger] after[i]).ast,
        ) by {
            if i < before.len() {
                assert(after[i] == before[i]);
            }
        }
    }
}

pub proof fn passed_programs_hold_no_ret(
    ms: Seq<ModuleV>,
    reg: RegistryV,
    inline_pure: bool,
    next: u32,
)
    requires
        returns_are_whole(ms),
    ensures
        program::each_branch(
            program::passed(ms, reg, inline_pure, next).0,
            |b: BranchV| inspect::all_hold(pure::no_ret(), b.body),
        ),
        returns_are_whole(program::passed(ms, reg, inline_pure, next).0),
{
    let table = program::templates_for(ms, reg, inline_pure);
    let before = |b: BranchV| inspect::all_hold(rets_whole(), b.body);
    let after = |b: BranchV| inspect::all_hold(pure::no_ret(), b.body);
    if inline_pure {
        collected_templates_are_simple(
            ms,
            pure::pure_machines(ms, pure::ret_machines_of(ms, ms.len())),
            reg,
            ms.len(),
        );
    }
    assert forall|cx: CxV, b: BranchV, next: u32| cx.pure == table && before(b) implies after(
        (#[trigger] program::lowered_branch(cx, b, next)).0,
    ) && before(program::lowered_branch(cx, b, next).0) by {
        lowered_bodies_hold_no_ret(
            cx,
            b.body,
            b.head.ret_ty is Some,
            !program::has_caller(b.head.patterns),
            next,
            program::depth(),
        );
        let body = program::lowered_branch(cx, b, next).0.body;
        assert(inspect::all_hold(pure::no_ret(), body));
        assert forall|i: int| 0 <= i < body.len() implies #[trigger] inspect::holds(
            rets_whole(),
            body[i],
        ) by {
            assert(inspect::holds(pure::no_ret(), body[i]));
            free_is_whole(body[i]);
        }
    }
    program::passed_branches_are_good(ms, reg, inline_pure, next, before, after);
    program::passed_branches_are_good(ms, reg, inline_pure, next, before, before);
    lowered_modules_keep_consts(
        reg,
        pure::ret_machines_of(ms, ms.len()),
        table,
        ms,
        ms.len(),
        next,
    );
}

proof fn repeated_programs_hold_no_ret(
    ms: Seq<ModuleV>,
    reg: RegistryV,
    inline_pure: bool,
    next: u32,
    rounds: nat,
)
    requires
        returns_are_whole(ms),
    ensures
        program::each_branch(
            program::repeated(ms, reg, inline_pure, next, rounds),
            |b: BranchV| inspect::all_hold(pure::no_ret(), b.body),
        ),
    decreases rounds,
{
    passed_programs_hold_no_ret(ms, reg, inline_pure, next);
    let (q, c) = program::passed(ms, reg, inline_pure, next);
    if !settled::settled_program(q, reg) && rounds > 0 {
        repeated_programs_hold_no_ret(q, reg, inline_pure, c, (rounds - 1) as nat);
    }
}

/// No `ret` is left in a lowered program.
pub proof fn lowered_programs_hold_no_ret(ms: Seq<ModuleV>, reg: RegistryV, inline_pure: bool)
    requires
        returns_are_whole(ms),
    ensures
        program::each_branch(
            program::lowered_program(ms, reg, inline_pure),
            |b: BranchV| inspect::all_hold(pure::no_ret(), b.body),
        ),
{
    repeated_programs_hold_no_ret(ms, reg, inline_pure, 0, program::rounds(ms, reg));
}

} // verus!
