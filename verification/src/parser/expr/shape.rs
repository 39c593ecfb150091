//! What every expression that was read looks like.

use vstd::prelude::*;

use crate::api::ast::{ItemV, MachineItemV};
use crate::api::expr;
use crate::api::expr::{Head, Tree};
use crate::api::token::{Bracket, Sign, TokenV};
use crate::parser;
use crate::parser::branch;
use crate::parser::expr::grammar;
use crate::parser::expr::Segment;
use crate::parser::helpers;
use crate::parser::helpers::{Rule, Toks};
use crate::parser::machine;
use crate::parser::machine::ItemRule;
use crate::parser::pattern::{PatternRule, WaitPatternRule};
use crate::parser::TopItem;
use crate::span::Spanned;

verus! {

/// What holds of a node of an expression and the parts right below it: a
/// path has two segments or more (a single name is a variable), a tuple and
/// a record literal are not empty, a tuple binding binds something, a `when`
/// has an arm and a `wait` a handler, a handler has a pattern, and what is
/// called is a variable or a path.
pub open spec fn node_shaped(t: Tree) -> bool {
    match t.head {
        Head::Path(segments) => segments.len() >= 2,
        Head::Tuple => t.kids.len() > 0,
        Head::RecordLiteral(_, names) => 0 < names.len() == t.kids.len(),
        Head::LetTuple(names) => names.len() > 0,
        Head::When => t.kids.len() > 1,
        Head::Wait => t.kids.len() > 1,
        Head::Handler(h) => h.patterns.len() > 0,
        Head::Jump => t.kids.len() > 0 && grammar::callable(t.kids[0]),
        _ => true,
    }
}

/// Whether every node of an expression is shaped so.
pub open spec fn shaped(t: Tree) -> bool
    decreases t,
{
    &&& node_shaped(t)
    &&& forall|k: int| 0 <= k < t.kids.len() ==> shaped(#[trigger] t.kids[k])
}

pub open spec fn all_shaped(ts: Seq<Tree>) -> bool {
    forall|k: int| 0 <= k < ts.len() ==> shaped(#[trigger] ts[k])
}

/// Whether a reading, if there is one, is shaped so.
pub open spec fn read_shaped(r: Option<(Tree, nat)>) -> bool {
    match r {
        Some((t, _)) => shaped(t),
        None => true,
    }
}

proof fn node_is_shaped(t: Tree)
    requires
        node_shaped(t),
        all_shaped(t.kids),
    ensures
        shaped(t),
{
}

/// Every expression that is read is well shaped, in every part of it.
pub proof fn expressions_are_shaped(ts: Toks, i: nat)
    ensures
        read_shaped(grammar::expr_at(ts, i)),
    decreases ts, ts.len() - i, 5int,
{
    operand_is_shaped(ts, i, 0);
}

proof fn operand_is_shaped(ts: Toks, i: nat, power: nat)
    ensures
        read_shaped(grammar::operand_at(ts, i, power)),
    decreases ts, ts.len() - i, 4int,
{
    if helpers::sign_is(ts, i, Sign::Minus) {
        operand_is_shaped(ts, i + 1, grammar::minus_power());
    } else {
        primary_is_shaped(ts, i);
    }
    let first = if helpers::sign_is(ts, i, Sign::Minus) {
        match grammar::operand_at(ts, i + 1, grammar::minus_power()) {
            Some((x, j)) => Some(
                (
                    expr::node(Head::Neg, helpers::span_over(ts, i, j), seq![x]),
                    j,
                ),
            ),
            None => None,
        }
    } else {
        grammar::primary_at(ts, i)
    };
    match first {
        Some((lhs, j)) => {
            assert(shaped(lhs));
            if i < j <= ts.len() {
                operators_are_shaped(ts, i, j, lhs, power);
            }
        },
        None => {},
    }
}

proof fn operators_are_shaped(ts: Toks, start: nat, i: nat, lhs: Tree, power: nat)
    requires
        shaped(lhs),
    ensures
        shaped(grammar::operators_from(ts, start, i, lhs, power).0),
    decreases ts, ts.len() - i, 4int,
{
    match grammar::operator_in(ts, i, power) {
        Some((op, p)) => {
            operand_is_shaped(ts, i + 1, p + 1);
            match grammar::operand_at(ts, i + 1, p + 1) {
                Some((rhs, j)) => if i < j <= ts.len() {
                    let both = expr::bin_tree(
                        op,
                        helpers::span_over(ts, start, j),
                        lhs,
                        rhs,
                    );
                    node_is_shaped(both);
                    operators_are_shaped(ts, start, j, both, power);
                },
                None => {},
            }
        },
        None => {},
    }
}

proof fn primary_is_shaped(ts: Toks, i: nat)
    ensures
        read_shaped(grammar::primary_at(ts, i)),
    decreases ts, ts.len() - i, 3int,
{
    base_is_shaped(ts, i);
    match grammar::base_at(ts, i) {
        Some((b, j)) => if i < j <= ts.len() {
            postfix_is_shaped(ts, j, b);
        },
        None => {},
    }
}

proof fn postfix_is_shaped(ts: Toks, i: nat, acc: Tree)
    requires
        shaped(acc),
    ensures
        shaped(grammar::postfix_from(ts, i, acc).0),
    decreases ts, ts.len() - i, 4int,
{
    post_is_shaped(ts, i, acc);
    match grammar::post_at(ts, i, acc) {
        Some((t, j)) => if i < j <= ts.len() {
            postfix_is_shaped(ts, j, t);
        },
        None => {},
    }
}

proof fn post_is_shaped(ts: Toks, i: nat, acc: Tree)
    requires
        shaped(acc),
    ensures
        read_shaped(grammar::post_at(ts, i, acc)),
    decreases ts, ts.len() - i, 1int,
{
    if i < ts.len() {
        match ts[i as int].inner {
            TokenV::Group(Bracket::TightParens, inside) => {
                all_are_shaped(inside);
                match grammar::exprs_all(inside) {
                    Some(args) => if grammar::callable(acc) {
                        let (t, _) = grammar::post_at(ts, i, acc)->0;
                        assert(shaped(grammar::callee(acc)));
                        assert(t.kids[0] == grammar::callee(acc));
                        node_is_shaped(t);
                    },
                    None => {},
                }
            },
            TokenV::Group(Bracket::TightSquare, inside) => {
                one_is_shaped(inside);
            },
            TokenV::Sign(Sign::At) => {
                if i + 2 < ts.len() {
                    match ts[(i + 2) as int].inner {
                        TokenV::Group(Bracket::TightParens, inside) => {
                            all_are_shaped(inside);
                        },
                        _ => {},
                    }
                }
            },
            TokenV::Sign(Sign::Dot) => {
                if i + 1 < ts.len() {
                    match ts[(i + 1) as int].inner {
                        TokenV::Group(Bracket::Curly, inside) => {
                            all_are_shaped(inside);
                        },
                        _ => {},
                    }
                }
            },
            _ => {},
        }
    }
}

proof fn base_is_shaped(ts: Toks, i: nat)
    ensures
        read_shaped(grammar::base_at(ts, i)),
    decreases ts, ts.len() - i, 2int,
{
    if helpers::sign_is(ts, i, Sign::Ret) || helpers::sign_is(ts, i, Sign::Pin) {
        expressions_are_shaped(ts, i + 1);
    } else if helpers::sign_is(ts, i, Sign::Wait) {
        wait_is_shaped(ts, i);
    } else if helpers::sign_is(ts, i, Sign::Let) {
        let_is_shaped(ts, i);
    } else if helpers::sign_is(ts, i, Sign::When) {
        when_is_shaped(ts, i);
    } else {
        atom_is_shaped(ts, i);
    }
}

proof fn let_is_shaped(ts: Toks, i: nat)
    requires
        i < ts.len(),
    ensures
        read_shaped(grammar::let_tuple_at(ts, i)),
        read_shaped(grammar::let_at(ts, i)),
    decreases ts, ts.len() - i, 1int,
{
    if helpers::sign_is(ts, i + 2, Sign::Eq) {
        expressions_are_shaped(ts, i + 3);
    }
    match helpers::ident_in(ts, i + 1) {
        Some(id) => {
            let k = grammar::annotation(ts, i + 2, id).1;
            if i < k && helpers::sign_is(ts, k, Sign::Eq) {
                expressions_are_shaped(ts, k + 1);
            }
        },
        None => {},
    }
}

proof fn when_is_shaped(ts: Toks, i: nat)
    requires
        i < ts.len(),
    ensures
        read_shaped(grammar::when_at(ts, i)),
    decreases ts, ts.len() - i, 1int,
{
    expressions_are_shaped(ts, i + 1);
    match grammar::expr_at(ts, i + 1) {
        Some((cond, j)) => if j < ts.len() {
            match ts[j as int].inner {
                TokenV::Group(Bracket::Curly, inside) => {
                    arms_are_shaped(inside, 0);
                },
                _ => {},
            }
        },
        None => {},
    }
}

proof fn arms_are_shaped(ts: Toks, i: nat)
    ensures
        all_shaped(grammar::arms_from(ts, i).0),
    decreases ts, ts.len() - i, 7int,
{
    arm_is_shaped(ts, i);
    match grammar::arm_at(ts, i) {
        Some((a, j)) => if i < j <= ts.len() {
            arms_are_shaped(ts, j);
        },
        None => {},
    }
}

proof fn arm_is_shaped(ts: Toks, i: nat)
    ensures
        read_shaped(grammar::arm_at(ts, i)),
    decreases ts, ts.len() - i, 6int,
{
    expressions_are_shaped(ts, i);
    match grammar::expr_at(ts, i) {
        Some((pat, j)) => if helpers::sign_is(ts, j, Sign::Arrow) && j + 1 < ts.len() {
            match ts[(j + 1) as int].inner {
                TokenV::Group(Bracket::Curly, inside) => {
                    all_are_shaped(inside);
                },
                _ => {},
            }
        },
        None => {},
    }
}

proof fn wait_is_shaped(ts: Toks, i: nat)
    requires
        i < ts.len(),
    ensures
        read_shaped(grammar::wait_at(ts, i)),
    decreases ts, ts.len() - i, 1int,
{
    several_are_shaped(ts, i + 1);
    let (filter, j) = grammar::exprs_from(ts, i + 1);
    if j < ts.len() {
        match ts[j as int].inner {
            TokenV::Group(Bracket::Curly, inside) => {
                handlers_are_shaped(inside, 0);
                node_is_shaped(
                    expr::node(Head::Filter, crate::span::zero_span(), filter),
                );
            },
            _ => {},
        }
    }
}

proof fn handlers_are_shaped(ts: Toks, i: nat)
    ensures
        all_shaped(grammar::handlers_from(ts, i).0),
    decreases ts, ts.len() - i, 7int,
{
    handler_is_shaped(ts, i);
    match grammar::handler_at(ts, i) {
        Some((h, j)) => if i < j <= ts.len() {
            handlers_are_shaped(ts, j);
        },
        None => {},
    }
}

proof fn handler_is_shaped(ts: Toks, i: nat)
    ensures
        read_shaped(grammar::handler_at(ts, i)),
    decreases ts, ts.len() - i, 6int,
{
    let (label, a) = grammar::label_at(ts, i);
    let (patterns, j) = helpers::many::<WaitPatternRule>(ts, a);
    if j + 1 < ts.len() {
        match ts[(j + 1) as int].inner {
            TokenV::Group(Bracket::Curly, inside) => {
                all_are_shaped(inside);
            },
            _ => {},
        }
    }
}

proof fn atom_is_shaped(ts: Toks, i: nat)
    ensures
        read_shaped(grammar::atom_at(ts, i)),
    decreases ts, ts.len() - i, 1int,
{
    if i < ts.len() {
        match ts[i as int].inner {
            TokenV::Group(Bracket::Curly, inside) => {
                all_are_shaped(inside);
            },
            TokenV::Group(Bracket::Parens, inside) => {
                one_is_shaped(inside);
            },
            TokenV::Group(Bracket::TightParens, inside) => {
                one_is_shaped(inside);
            },
            TokenV::Ident(_) => {
                record_is_shaped(ts, i);
                let tail = helpers::many::<Segment>(ts, i + 1).0;
                assert(tail.len() > 0 ==> shaped(grammar::path_at(ts, i).0));
            },
            _ => {},
        }
    }
}

proof fn record_is_shaped(ts: Toks, i: nat)
    ensures
        read_shaped(grammar::record_at(ts, i)),
    decreases ts, ts.len() - i, 0int,
{
    if i + 1 < ts.len() {
        match ts[(i + 1) as int].inner {
            TokenV::Group(Bracket::Curly, inside) => {
                fields_are_shaped(inside, 0);
            },
            _ => {},
        }
    }
}

proof fn fields_are_shaped(ts: Toks, i: nat)
    ensures
        all_shaped(grammar::values_of(grammar::fields_from(ts, i).0)),
    decreases ts, ts.len() - i, 7int,
{
    if helpers::sign_is(ts, i + 1, Sign::Eq) {
        expressions_are_shaped(ts, i + 2);
    }
    match grammar::field_at(ts, i) {
        Some((f, j)) => if i < j <= ts.len() {
            fields_are_shaped(ts, j);
            let rest = grammar::values_of(grammar::fields_from(ts, j).0);
            assert(grammar::values_of(grammar::fields_from(ts, i).0) =~= seq![f.1] + rest);
        },
        None => {},
    }
}

proof fn several_are_shaped(ts: Toks, i: nat)
    ensures
        all_shaped(grammar::exprs_from(ts, i).0),
    decreases ts, ts.len() - i, 7int,
{
    expressions_are_shaped(ts, i);
    match grammar::expr_at(ts, i) {
        Some((e, j)) => if i < j <= ts.len() {
            several_are_shaped(ts, j);
        },
        None => {},
    }
}

proof fn all_are_shaped(ts: Toks)
    ensures
        grammar::exprs_all(ts) matches Some(es) ==> all_shaped(es),
    decreases ts, ts.len() as int, 8int,
{
    several_are_shaped(ts, 0);
}

proof fn one_is_shaped(ts: Toks)
    ensures
        grammar::expr_all(ts) matches Some(e) ==> shaped(e),
    decreases ts, ts.len() as int, 8int,
{
    expressions_are_shaped(ts, 0);
}

/// Whether the body of a branch is well shaped.
pub open spec fn item_shaped(item: Spanned<MachineItemV>) -> bool {
    item.inner matches MachineItemV::Branch(b) ==> all_shaped(b.body)
}

proof fn items_are_shaped(ts: Toks, i: nat)
    ensures
        forall|k: int|
            0 <= k < helpers::many::<ItemRule>(ts, i).0.len() ==> item_shaped(
                #[trigger] helpers::many::<ItemRule>(ts, i).0[k],
            ),
    decreases ts.len() - i,
{
    match ItemRule::at(ts, i) {
        Some((x, j)) => {
            branch_is_shaped(ts, i);
            assert(item_shaped(x));
            if i < j <= ts.len() {
                items_are_shaped(ts, j);
                let rest = helpers::many::<ItemRule>(ts, j).0;
                let all = helpers::many::<ItemRule>(ts, i).0;
                assert forall|k: int| 0 <= k < all.len() implies item_shaped(#[trigger] all[k]) by {
                    if k > 0 {
                        assert(all[k] == rest[k - 1]);
                    }
                }
            }
        },
        None => {},
    }
}

proof fn branch_is_shaped(ts: Toks, i: nat)
    ensures
        branch::branch_at(ts, i) matches Some((b, _)) ==> all_shaped(b.inner.body),
{
    let (_, a) = grammar::label_at(ts, i);
    let (_, b) = helpers::many::<PatternRule>(ts, a);
    let (_, c) = branch::ret_at(ts, b + 1);
    match helpers::braces_in(ts, c) {
        Some(inside) => {
            all_are_shaped(inside);
        },
        None => {},
    }
}

/// Whether the bodies and the constants of a top-level item are well shaped.
pub open spec fn top_shaped(item: Spanned<ItemV>) -> bool {
    match item.inner {
        ItemV::Machine(m) => forall|k: int|
            0 <= k < m.inner.items.len() ==> item_shaped(#[trigger] m.inner.items[k]),
        ItemV::Const(c) => shaped(c.inner.value),
        _ => true,
    }
}

proof fn top_item_is_shaped(ts: Toks, i: nat)
    ensures
        TopItem::at(ts, i) matches Some((x, _)) ==> top_shaped(x),
{
    let (_, a) = machine::visibility_at(ts, i);
    let (_, b) = machine::generics_at(ts, a + 1);
    match machine::is_block(ts, b) {
        Some(inside) => {
            items_are_shaped(inside, 0);
        },
        None => {},
    }
}

proof fn top_items_are_shaped(ts: Toks, i: nat)
    ensures
        forall|k: int|
            0 <= k < helpers::many::<TopItem>(ts, i).0.len() ==> top_shaped(
                #[trigger] helpers::many::<TopItem>(ts, i).0[k],
            ),
    decreases ts.len() - i,
{
    match TopItem::at(ts, i) {
        Some((x, j)) => {
            top_item_is_shaped(ts, i);
            if i < j <= ts.len() {
                top_items_are_shaped(ts, j);
                let rest = helpers::many::<TopItem>(ts, j).0;
                let all = helpers::many::<TopItem>(ts, i).0;
                assert forall|k: int| 0 <= k < all.len() implies top_shaped(#[trigger] all[k]) by {
                    if k > 0 {
                        assert(all[k] == rest[k - 1]);
                    }
                }
            }
        },
        None => {},
    }
}

/// In a source file that parses, the bodies of all branches and the values of
/// all constants are well shaped, in every part of them.
pub proof fn parsed_files_are_shaped(ts: Toks)
    ensures
        parser::parsed(ts) matches Some(items) ==> forall|k: int|
            0 <= k < items.len() ==> top_shaped(#[trigger] items[k]),
{
    top_items_are_shaped(ts, 0);
}

} // verus!
