//! The grammar of expressions: what stands at a position of the tokens, and
//! where it ends.  The first alternative that fits is taken, and a repetition
//! goes on as long as it can.

use vstd::prelude::*;

use crate::api::expr;
use crate::api::expr::{BinOp, HandlerV, Head, Tree};
use crate::api::ast::TypeV;
use crate::api::token::{Bracket, Sign, TokenV};
use crate::parser::expr::type_expr;
use crate::parser::helpers;
use crate::parser::helpers::Toks;
use crate::parser::pattern::WaitPatternRule;
use crate::parser::expr::Segment;
use crate::span::{SimpleSpan, Spanned};
use crate::text;
use crate::text::Text;

verus! {

/// A named type at a place.
pub open spec fn named(name: Text, span: SimpleSpan) -> TypeV {
    TypeV::Named(Spanned { inner: name, span })
}

// ── operands ───────────────────────────────────────────────────────────────

/// The operand at `i`: a tuple `{ a b }` or the unit `{}`, an atom `:ok`, an
/// expression in parentheses, a literal, `self`, a record literal, a path
/// `core:io:writer` or a variable.
pub open spec fn atom_at(ts: Toks, i: nat) -> Option<(Tree, nat)>
    decreases ts, ts.len() - i, 1int,
{
    if i >= ts.len() {
        None
    } else {
        let span = ts[i as int].span;
        match ts[i as int].inner {
            TokenV::Group(Bracket::Curly, inside) => match exprs_all(inside) {
                Some(es) => Some(
                    (
                        if es.len() == 0 {
                            expr::leaf(Head::Unit, span)
                        } else {
                            expr::node(Head::Tuple, span, es)
                        },
                        i + 1,
                    ),
                ),
                None => None,
            },
            TokenV::Group(Bracket::Parens, inside) => match expr_all(inside) {
                Some(e) => Some((Tree { span, ..e }, i + 1)),
                None => None,
            },
            TokenV::Group(Bracket::TightParens, inside) => match expr_all(inside) {
                Some(e) => Some((Tree { span, ..e }, i + 1)),
                None => None,
            },
            TokenV::Num(n) => Some((expr::leaf(Head::Num(n, named("i64"@, span)), span), i + 1)),
            TokenV::Str(s) => Some((expr::leaf(Head::Str(s, named("str"@, span)), span), i + 1)),
            TokenV::ByteStr(s) => Some((expr::leaf(Head::Str(s, named("buf"@, span)), span), i + 1)),
            TokenV::Char(b) => Some(
                (expr::leaf(Head::Num(text::decimal(b as nat), named("i64"@, span)), span), i + 1),
            ),
            TokenV::Sign(Sign::True) => Some((expr::leaf(Head::Bool(true), span), i + 1)),
            TokenV::Sign(Sign::False) => Some((expr::leaf(Head::Bool(false), span), i + 1)),
            TokenV::Sign(Sign::SelfKw) => Some(
                (expr::leaf(Head::Var("self"@, named("pid"@, span)), span), i + 1),
            ),
            TokenV::Sign(Sign::Colon) => match helpers::ident_in(ts, i + 1) {
                Some(id) => Some(
                    (expr::leaf(Head::Atom(id.inner), helpers::span_over(ts, i, i + 2)), i + 2),
                ),
                None => None,
            },
            TokenV::Ident(n) => match record_at(ts, i) {
                Some(r) => Some(r),
                None => Some(path_at(ts, i)),
            },
            _ => None,
        }
    }
}

/// The variable or path whose first name is at `i`.
pub open spec fn path_at(ts: Toks, i: nat) -> (Tree, nat) {
    let head = helpers::ident_in(ts, i)->0;
    let (tail, j) = helpers::many::<Segment>(ts, i + 1);
    if tail.len() == 0 {
        (expr::leaf(Head::Var(head.inner, TypeV::Unknown), head.span), i + 1)
    } else {
        (expr::leaf(Head::Path(seq![head] + tail), helpers::span_over(ts, i, j)), j)
    }
}

/// The record literal `Name { field = value ... }` at `i`; it has at least
/// one field.
pub open spec fn record_at(ts: Toks, i: nat) -> Option<(Tree, nat)>
    decreases ts, ts.len() - i, 0int,
{
    match helpers::ident_in(ts, i) {
        Some(name) => if i + 1 < ts.len() {
            match ts[(i + 1) as int].inner {
                TokenV::Group(Bracket::Curly, inside) => {
                    let (fs, end) = fields_from(inside, 0);
                    if end == inside.len() && fs.len() > 0 {
                        Some(
                            (
                                expr::node(
                                    Head::RecordLiteral(name, names_of(fs)),
                                    helpers::span_over(ts, i, i + 2),
                                    values_of(fs),
                                ),
                                i + 2,
                            ),
                        )
                    } else {
                        None
                    }
                },
                _ => None,
            }
        } else {
            None
        },
        None => None,
    }
}

pub open spec fn names_of(fs: Seq<(Spanned<Text>, Tree)>) -> Seq<Spanned<Text>> {
    Seq::new(fs.len(), |k: int| fs[k].0)
}

pub open spec fn values_of(fs: Seq<(Spanned<Text>, Tree)>) -> Seq<Tree> {
    Seq::new(fs.len(), |k: int| fs[k].1)
}

/// The field `name = value` of a record literal at `i`.
pub open spec fn field_at(ts: Toks, i: nat) -> Option<((Spanned<Text>, Tree), nat)>
    decreases ts, ts.len() - i, 6int,
{
    match helpers::ident_in(ts, i) {
        Some(name) => if helpers::sign_is(ts, i + 1, Sign::Eq) {
            match expr_at(ts, i + 2) {
                Some((v, j)) => Some(((name, v), j)),
                None => None,
            }
        } else {
            None
        },
        None => None,
    }
}

pub open spec fn fields_from(ts: Toks, i: nat) -> (Seq<(Spanned<Text>, Tree)>, nat)
    decreases ts, ts.len() - i, 7int,
{
    match field_at(ts, i) {
        Some((f, j)) => if i < j <= ts.len() {
            let rest = fields_from(ts, j);
            (seq![f] + rest.0, rest.1)
        } else {
            (Seq::empty(), i)
        },
        None => (Seq::empty(), i),
    }
}

// ── statements ─────────────────────────────────────────────────────────────

/// `ret <expr>` or `pin <expr>` at `i`.
pub open spec fn prefixed_at(ts: Toks, i: nat, head: Head) -> Option<(Tree, nat)>
    decreases ts, ts.len() - i, 1int,
{
    if i < ts.len() {
        match expr_at(ts, i + 1) {
            Some((e, j)) => Some((expr::node(head, helpers::span_over(ts, i, j), seq![e]), j)),
            None => None,
        }
    } else {
        None
    }
}

/// `let { a b } = <expr>` at `i`.
pub open spec fn let_tuple_at(ts: Toks, i: nat) -> Option<(Tree, nat)>
    decreases ts, ts.len() - i, 1int,
{
    match helpers::braces_in(ts, i + 1) {
        Some(inside) => match helpers::idents_all(inside) {
            Some(ids) => if ids.len() > 0 && helpers::sign_is(ts, i + 2, Sign::Eq) {
                match expr_at(ts, i + 3) {
                    Some((e, j)) => Some(
                        (
                            expr::node(
                                Head::LetTuple(ids),
                                helpers::span_over(ts, i, j),
                                seq![e],
                            ),
                            j,
                        ),
                    ),
                    None => None,
                }
            } else {
                None
            },
            None => None,
        },
        None => None,
    }
}

/// The type annotation at `i`, or the unknown type at the place of `id`, and
/// where it ends.
pub open spec fn annotation(ts: Toks, i: nat, id: Spanned<Text>) -> (Spanned<TypeV>, nat) {
    match type_expr::type_at(ts, i) {
        Some((ty, j)) => (ty, j),
        None => (Spanned { inner: TypeV::Unknown, span: id.span }, i),
    }
}

/// `let name [type] = <expr>` at `i`.
pub open spec fn let_at(ts: Toks, i: nat) -> Option<(Tree, nat)>
    decreases ts, ts.len() - i, 1int,
{
    match helpers::ident_in(ts, i + 1) {
        Some(id) => {
            let (ty, k) = annotation(ts, i + 2, id);
            if i < k && helpers::sign_is(ts, k, Sign::Eq) {
                match expr_at(ts, k + 1) {
                    Some((e, j)) => Some(
                        (
                            expr::node(Head::Let(id, ty), helpers::span_over(ts, i, j), seq![e]),
                            j,
                        ),
                    ),
                    None => None,
                }
            } else {
                None
            }
        },
        None => None,
    }
}

/// `when <expr> { pattern -> { body } ... }` at `i`, with at least one arm.
pub open spec fn when_at(ts: Toks, i: nat) -> Option<(Tree, nat)>
    decreases ts, ts.len() - i, 1int,
{
    if i >= ts.len() {
        None
    } else {
        match expr_at(ts, i + 1) {
            Some((cond, j)) => if j < ts.len() {
                match ts[j as int].inner {
                    TokenV::Group(Bracket::Curly, inside) => {
                        let (arms, end) = arms_from(inside, 0);
                        if end == inside.len() && arms.len() > 0 {
                            Some(
                                (
                                    expr::node(
                                        Head::When,
                                        helpers::span_over(ts, i, j + 1),
                                        seq![cond] + arms,
                                    ),
                                    j + 1,
                                ),
                            )
                        } else {
                            None
                        }
                    },
                    _ => None,
                }
            } else {
                None
            },
            None => None,
        }
    }
}

/// The arm `pattern -> { body }` at `i`.
pub open spec fn arm_at(ts: Toks, i: nat) -> Option<(Tree, nat)>
    decreases ts, ts.len() - i, 6int,
{
    match expr_at(ts, i) {
        Some((pat, j)) => if helpers::sign_is(ts, j, Sign::Arrow) && j + 1 < ts.len() {
            match ts[(j + 1) as int].inner {
                TokenV::Group(Bracket::Curly, inside) => match exprs_all(inside) {
                    Some(body) => Some((expr::arm_tree(pat, body), j + 2)),
                    None => None,
                },
                _ => None,
            }
        } else {
            None
        },
        None => None,
    }
}

pub open spec fn arms_from(ts: Toks, i: nat) -> (Seq<Tree>, nat)
    decreases ts, ts.len() - i, 7int,
{
    match arm_at(ts, i) {
        Some((a, j)) => if i < j <= ts.len() {
            let rest = arms_from(ts, j);
            (seq![a] + rest.0, rest.1)
        } else {
            (Seq::empty(), i)
        },
        None => (Seq::empty(), i),
    }
}

/// `wait <expr>* { handler ... }` at `i`, with at least one handler.
pub open spec fn wait_at(ts: Toks, i: nat) -> Option<(Tree, nat)>
    decreases ts, ts.len() - i, 1int,
{
    if i >= ts.len() {
        None
    } else {
        let (filter, j) = exprs_from(ts, i + 1);
        if j < ts.len() {
            match ts[j as int].inner {
                TokenV::Group(Bracket::Curly, inside) => {
                    let (hs, end) = handlers_from(inside, 0);
                    if end == inside.len() && hs.len() > 0 {
                        Some(
                            (
                                expr::node(
                                    Head::Wait,
                                    helpers::span_over(ts, i, j + 1),
                                    seq![
                                        expr::node(
                                            Head::Filter,
                                            crate::span::zero_span(),
                                            filter,
                                        ),
                                    ] + hs,
                                ),
                                j + 1,
                            ),
                        )
                    } else {
                        None
                    }
                },
                _ => None,
            }
        } else {
            None
        }
    }
}

/// The label `@name` that may stand at `i`, and where it ends.
pub open spec fn label_at(ts: Toks, i: nat) -> (Option<Spanned<Text>>, nat) {
    if helpers::sign_is(ts, i, Sign::At) {
        match helpers::ident_in(ts, i + 1) {
            Some(id) => (Some(id), i + 2),
            None => (None, i),
        }
    } else {
        (None, i)
    }
}

/// The handler `[@label] pattern+ -> { body }` at `i`.
pub open spec fn handler_at(ts: Toks, i: nat) -> Option<(Tree, nat)>
    decreases ts, ts.len() - i, 6int,
{
    let (label, a) = label_at(ts, i);
    let (patterns, j) = helpers::many::<WaitPatternRule>(ts, a);
    if patterns.len() > 0 && helpers::sign_is(ts, j, Sign::Arrow) && j + 1 < ts.len() {
        match ts[(j + 1) as int].inner {
            TokenV::Group(Bracket::Curly, inside) => match exprs_all(inside) {
                Some(body) => Some(
                    (
                        expr::node(
                            Head::Handler(HandlerV { label, patterns, ret_ty: None }),
                            helpers::span_over(ts, i, j + 2),
                            body,
                        ),
                        j + 2,
                    ),
                ),
                None => None,
            },
            _ => None,
        }
    } else {
        None
    }
}

pub open spec fn handlers_from(ts: Toks, i: nat) -> (Seq<Tree>, nat)
    decreases ts, ts.len() - i, 7int,
{
    match handler_at(ts, i) {
        Some((h, j)) => if i < j <= ts.len() {
            let rest = handlers_from(ts, j);
            (seq![h] + rest.0, rest.1)
        } else {
            (Seq::empty(), i)
        },
        None => (Seq::empty(), i),
    }
}

/// A statement or an operand at `i`.
pub open spec fn base_at(ts: Toks, i: nat) -> Option<(Tree, nat)>
    decreases ts, ts.len() - i, 2int,
{
    if helpers::sign_is(ts, i, Sign::Ret) {
        prefixed_at(ts, i, Head::Ret)
    } else if helpers::sign_is(ts, i, Sign::Pin) {
        prefixed_at(ts, i, Head::Pin)
    } else if helpers::sign_is(ts, i, Sign::Wait) {
        wait_at(ts, i)
    } else if helpers::sign_is(ts, i, Sign::Let) {
        match let_tuple_at(ts, i) {
            Some(r) => Some(r),
            None => let_at(ts, i),
        }
    } else if helpers::sign_is(ts, i, Sign::When) {
        when_at(ts, i)
    } else {
        atom_at(ts, i)
    }
}

// ── postfix operations ─────────────────────────────────────────────────────

/// Whether a call may be applied to an expression.
pub open spec fn callable(t: Tree) -> bool {
    t.head is Var || t.head is Path
}

/// The callee of a call: a variable becomes a process, a path stays.
pub open spec fn callee(t: Tree) -> Tree {
    match t.head {
        Head::Var(n, _) => expr::leaf(Head::Var(n, named("pid"@, t.span)), t.span),
        _ => t,
    }
}

/// One postfix operation on `acc` at `i`: a call `(args)` or an index
/// `[i]` that touches what is before it, `@method(args)`, `@field`,
/// `.{ fields }`, `.0` or `.field`.  The result stands where `acc` stands.
pub open spec fn post_at(ts: Toks, i: nat, acc: Tree) -> Option<(Tree, nat)>
    decreases ts, ts.len() - i, 1int,
{
    if i >= ts.len() {
        None
    } else {
        match ts[i as int].inner {
            TokenV::Group(Bracket::TightParens, inside) => if callable(acc) {
                match exprs_all(inside) {
                    Some(args) => Some(
                        (expr::node(Head::Jump, acc.span, seq![callee(acc)] + args), i + 1),
                    ),
                    None => None,
                }
            } else {
                None
            },
            TokenV::Group(Bracket::TightSquare, inside) => match expr_all(inside) {
                Some(index) => Some((expr::node(Head::Index, acc.span, seq![acc, index]), i + 1)),
                None => None,
            },
            TokenV::Sign(Sign::At) => match helpers::ident_in(ts, i + 1) {
                Some(m) => match method_args(ts, i + 2) {
                    Some(args) => Some(
                        (expr::node(Head::MethodCall(m), acc.span, seq![acc] + args), i + 3),
                    ),
                    None => Some((expr::node(Head::AtAccess(m), acc.span, seq![acc]), i + 2)),
                },
                None => None,
            },
            TokenV::Sign(Sign::Dot) => if i + 1 < ts.len() {
                match ts[(i + 1) as int].inner {
                    TokenV::Group(Bracket::Curly, inside) => match exprs_all(inside) {
                        Some(fields) => Some(
                            (expr::node(Head::StructInit, acc.span, seq![acc] + fields), i + 2),
                        ),
                        None => None,
                    },
                    TokenV::Num(n) => match expr::index_literal(n) {
                        Some(k) => Some(
                            (expr::node(Head::TupleIndex(k), acc.span, seq![acc]), i + 2),
                        ),
                        None => None,
                    },
                    TokenV::Ident(f) => Some(
                        (
                            expr::node(
                                Head::DotAccess(Spanned { inner: f, span: ts[(i + 1) as int].span }),
                                acc.span,
                                seq![acc],
                            ),
                            i + 2,
                        ),
                    ),
                    _ => None,
                }
            } else {
                None
            },
            _ => None,
        }
    }
}

/// The arguments in the tight parentheses at `i`.
pub open spec fn method_args(ts: Toks, i: nat) -> Option<Seq<Tree>>
    decreases ts, ts.len() - i, 1int,
{
    if i < ts.len() {
        match ts[i as int].inner {
            TokenV::Group(Bracket::TightParens, inside) => exprs_all(inside),
            _ => None,
        }
    } else {
        None
    }
}

/// `acc` with all the postfix operations from `i` on, the first one applied
/// first.
pub open spec fn postfix_from(ts: Toks, i: nat, acc: Tree) -> (Tree, nat)
    decreases ts, ts.len() - i, 4int,
{
    match post_at(ts, i, acc) {
        Some((t, j)) => if i < j <= ts.len() {
            postfix_from(ts, j, t)
        } else {
            (acc, i)
        },
        None => (acc, i),
    }
}

/// Whether parentheses that touch what is before them follow, at `j`, an
/// expression in parentheses at `i`.  They are a value of their own: what is
/// in parentheses is not called.
pub open spec fn uncalled(ts: Toks, i: nat, j: nat) -> bool {
    helpers::parens_in(ts, i) is Some && helpers::group_in(ts, j, Bracket::TightParens) is Some
}

/// A statement or operand with its postfix operations at `i`.
pub open spec fn primary_at(ts: Toks, i: nat) -> Option<(Tree, nat)>
    decreases ts, ts.len() - i, 3int,
{
    match base_at(ts, i) {
        Some((b, j)) => if i < j <= ts.len() {
            if uncalled(ts, i, j) {
                Some((b, j))
            } else {
                Some(postfix_from(ts, j, b))
            }
        } else {
            None
        },
        None => None,
    }
}

// ── operators ──────────────────────────────────────────────────────────────

/// How tightly a unary minus binds.
pub open spec fn minus_power() -> nat {
    11
}

/// The binary operator that a sign is, and how tightly it binds.
pub open spec fn operator(sign: Sign) -> Option<(BinOp, nat)> {
    match sign {
        Sign::Star => Some((BinOp::Mul, 10)),
        Sign::Slash => Some((BinOp::Div, 10)),
        Sign::Plus => Some((BinOp::Add, 9)),
        Sign::Minus => Some((BinOp::Sub, 9)),
        Sign::Shl => Some((BinOp::Shl, 8)),
        Sign::Shr => Some((BinOp::Shr, 8)),
        Sign::BitAnd => Some((BinOp::BAnd, 7)),
        Sign::BitXor => Some((BinOp::BXor, 6)),
        Sign::BitOr => Some((BinOp::BOr, 5)),
        Sign::LessEq => Some((BinOp::Le, 4)),
        Sign::GreaterEq => Some((BinOp::Ge, 4)),
        Sign::Less => Some((BinOp::Lt, 4)),
        Sign::Greater => Some((BinOp::Gt, 4)),
        Sign::EqEq => Some((BinOp::Eq, 3)),
        _ => None,
    }
}

/// The binary operator at `i`, if there is one that binds at least as
/// tightly as `power`.
pub open spec fn operator_in(ts: Toks, i: nat, power: nat) -> Option<(BinOp, nat)> {
    match helpers::sign_in(ts, i) {
        Some(s) => match operator(s) {
            Some((op, p)) => if p >= power {
                Some((op, p))
            } else {
                None
            },
            None => None,
        },
        None => None,
    }
}

/// The expression at `i` whose outermost operators bind at least as tightly
/// as `power`.
pub open spec fn operand_at(ts: Toks, i: nat, power: nat) -> Option<(Tree, nat)>
    decreases ts, ts.len() - i, 4int,
{
    let first = if helpers::sign_is(ts, i, Sign::Minus) {
        match operand_at(ts, i + 1, minus_power()) {
            Some((x, j)) => Some((expr::node(Head::Neg, helpers::span_over(ts, i, j), seq![x]), j)),
            None => None,
        }
    } else {
        primary_at(ts, i)
    };
    match first {
        Some((lhs, j)) => if i < j <= ts.len() {
            Some(operators_from(ts, i, j, lhs, power))
        } else {
            None
        },
        None => None,
    }
}

/// `lhs`, which begins at `start`, with the binary operators from `i` on
/// that bind at least as tightly as `power`.  Operators group to the left:
/// the right operand of one holds only operators that bind tighter.
pub open spec fn operators_from(ts: Toks, start: nat, i: nat, lhs: Tree, power: nat) -> (Tree, nat)
    decreases ts, ts.len() - i, 4int,
{
    match operator_in(ts, i, power) {
        Some((op, p)) => match operand_at(ts, i + 1, p + 1) {
            Some((rhs, j)) => if i < j <= ts.len() {
                operators_from(
                    ts,
                    start,
                    j,
                    expr::bin_tree(op, helpers::span_over(ts, start, j), lhs, rhs),
                    power,
                )
            } else {
                (lhs, i)
            },
            None => (lhs, i),
        },
        None => (lhs, i),
    }
}

// ── expressions ────────────────────────────────────────────────────────────

/// The expression at `i`, and where it ends.
pub open spec fn expr_at(ts: Toks, i: nat) -> Option<(Tree, nat)>
    decreases ts, ts.len() - i, 5int,
{
    operand_at(ts, i, 0)
}

/// The expressions from `i` on, and where they end.
pub open spec fn exprs_from(ts: Toks, i: nat) -> (Seq<Tree>, nat)
    decreases ts, ts.len() - i, 7int,
{
    match expr_at(ts, i) {
        Some((e, j)) => if i < j <= ts.len() {
            let rest = exprs_from(ts, j);
            (seq![e] + rest.0, rest.1)
        } else {
            (Seq::empty(), i)
        },
        None => (Seq::empty(), i),
    }
}

/// The expressions that the tokens consist of.
pub open spec fn exprs_all(ts: Toks) -> Option<Seq<Tree>>
    decreases ts, ts.len() as int, 8int,
{
    let (es, end) = exprs_from(ts, 0);
    if end == ts.len() {
        Some(es)
    } else {
        None
    }
}

/// The one expression that the tokens consist of.
pub open spec fn expr_all(ts: Toks) -> Option<Tree>
    decreases ts, ts.len() as int, 8int,
{
    match expr_at(ts, 0) {
        Some((e, j)) => if j == ts.len() {
            Some(e)
        } else {
            None
        },
        None => None,
    }
}

} // verus!
