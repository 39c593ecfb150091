//! Expressions.

use vstd::prelude::*;

use crate::api::ast;
use crate::api::ast::{Branch, Ident, Type};
use crate::api::expr;
use crate::api::expr::{bin_expr, parse_index, BinOp, Expr, HandlerV, Head, Tree};
use crate::api::token;
use crate::api::token::{Bracket, Sign, Token};
use crate::lowering::tuples;
use crate::parser::helpers;
use crate::parser::helpers::{
    ident_parser, next_braces, next_group, next_is, next_parens, next_sign, only_idents, repeated,
    span_from, Rule, TokenInput, Toks,
};
use crate::parser::pattern::WaitPatternRule;
use crate::span::{SimpleSpan, SpanWrap, Spanned};
use crate::text::{decimal_text, Text};

pub mod grammar;
pub mod shape;
pub mod spelled;
pub mod type_expr;

verus! {

/// The part `:name` of a path.
pub struct Segment;

impl Rule for Segment {
    type Out = Spanned<Ident>;

    open spec fn at(ts: Toks, i: nat) -> Option<(Spanned<Text>, nat)> {
        if helpers::sign_is(ts, i, Sign::Colon) {
            match helpers::ident_in(ts, i + 1) {
                Some(id) => Some((id, i + 2)),
                None => None,
            }
        } else {
            None
        }
    }

    fn read(toks: &TokenInput, i: usize) -> (r: Option<(Spanned<Ident>, usize)>) {
        if next_is(toks, i, Sign::Colon) {
            match ident_parser(toks, i + 1) {
                Some(id) => Some((id, i + 2)),
                None => None,
            }
        } else {
            None
        }
    }
}

/// An expression at another place has the same tree but for the place.
proof fn tree_moves(e: Expr, a: SimpleSpan, b: SimpleSpan)
    ensures
        expr::tree(e, b) == (Tree { span: b, ..expr::tree(e, a) }),
{
}

fn named_type(name: &str, span: SimpleSpan) -> (r: Type)
    ensures
        ast::type_view(r) == grammar::named(name@, span),
{
    Type::Named(Ident::new(name).with_span(span))
}

// ── operands ───────────────────────────────────────────────────────────────

fn read_operand(toks: &TokenInput, i: usize) -> (r: Option<(Spanned<Expr>, usize)>)
    ensures
        match r {
            Some((e, j)) => {
                &&& grammar::atom_at(token::tokens_view(toks@), i as nat) == Some(
                    (expr::tree_of(e), j as nat),
                )
                &&& i < j <= toks@.len()
            },
            None => grammar::atom_at(token::tokens_view(toks@), i as nat) is None,
        },
    decreases token::tokens_view(toks@), toks@.len() - i, 1int,
{
    let ghost ts = token::tokens_view(toks@);
    if i >= toks.len() {
        return None;
    }
    let span = toks[i].span;
    proof {
        assert(ts[i as int].inner == token::token_view(toks@[i as int].inner));
        assert(ts[i as int].span == span);
    }
    if let Some(inside) = next_braces(toks, i) {
        return match only_exprs(inside) {
            Some(es) => {
                if es.len() == 0 {
                    Some((Expr::Unit.with_span(span), i + 1))
                } else {
                    let ghost kids = expr::trees(es@);
                    let e = Expr::Tuple(es);
                    proof {
                        assert(expr::tree(e, span) == expr::node(Head::Tuple, span, kids));
                    }
                    Some((e.with_span(span), i + 1))
                }
            },
            None => None,
        };
    }
    if let Some(inside) = helpers::next_parens(toks, i) {
        return match only_expr(inside) {
            Some(e) => {
                proof {
                    tree_moves(e.inner, e.span, span);
                }
                Some((e.inner.with_span(span), i + 1))
            },
            None => None,
        };
    }
    if next_is(toks, i, Sign::Colon) {
        return match ident_parser(toks, i + 1) {
            Some(id) => {
                let at = span_from(toks, i, i + 2);
                Some((Expr::Atom(id.inner.0).with_span(at), i + 2))
            },
            None => None,
        };
    }
    match &toks[i].inner {
        Token::Num(n) => {
            let e = Expr::Num(n.clone(), named_type("i64", span));
            Some((e.with_span(span), i + 1))
        },
        Token::String(s) => {
            let e = Expr::String(s.clone(), named_type("str", span));
            Some((e.with_span(span), i + 1))
        },
        Token::ByteStr(s) => {
            let e = Expr::String(s.clone(), named_type("buf", span));
            Some((e.with_span(span), i + 1))
        },
        Token::Char(b) => {
            let e = Expr::Num(decimal_text(*b as u64), named_type("i64", span));
            Some((e.with_span(span), i + 1))
        },
        Token::True => Some((Expr::Bool(true).with_span(span), i + 1)),
        Token::False => Some((Expr::Bool(false).with_span(span), i + 1)),
        Token::SelfKw => {
            let e = Expr::Var("self".to_owned(), named_type("pid", span));
            Some((e.with_span(span), i + 1))
        },
        Token::Ident(_) => match read_record(toks, i) {
            Some(r) => Some(r),
            None => Some(read_path(toks, i)),
        },
        _ => None,
    }
}

fn read_path(toks: &TokenInput, i: usize) -> (r: (Spanned<Expr>, usize))
    requires
        helpers::ident_in(token::tokens_view(toks@), i as nat) is Some,
    ensures
        grammar::path_at(token::tokens_view(toks@), i as nat) == (expr::tree_of(r.0), r.1 as nat),
        i < r.1 <= toks@.len(),
{
    match ident_parser(toks, i) {
        Some(head) => {
            let (tail, j) = repeated::<Segment>(toks, i + 1);
            if tail.len() == 0 {
                let span = head.span;
                (Expr::Var(head.inner.0, Type::Unknown).with_span(span), i + 1)
            } else {
                let mut segments: Vec<Spanned<Ident>> = Vec::new();
                let ghost hv = head.deep_view();
                let ghost tv = tail.deep_view();
                segments.push(head);
                let mut tail = tail;
                let ghost t = tail@;
                segments.append(&mut tail);
                proof {
                    assert(segments.deep_view() =~= seq![hv] + tv);
                }
                (Expr::Path(segments).with_span(span_from(toks, i, j)), j)
            }
        },
        None => {
            proof {
                assert(false);
            }
            (Expr::Unit.with_span(SimpleSpan { start: 0, end: 0 }), i)
        },
    }
}

/// The names and values of record fields.
pub open spec fn fields_view(fs: Seq<(Spanned<Ident>, Spanned<Expr>)>) -> Seq<
    (Spanned<Text>, Tree),
> {
    Seq::new(fs.len(), |k: int| (fs[k].0.deep_view(), expr::tree_of(fs[k].1)))
}

fn read_record(toks: &TokenInput, i: usize) -> (r: Option<(Spanned<Expr>, usize)>)
    ensures
        match r {
            Some((e, j)) => {
                &&& grammar::record_at(token::tokens_view(toks@), i as nat) == Some(
                    (expr::tree_of(e), j as nat),
                )
                &&& i < j <= toks@.len()
            },
            None => grammar::record_at(token::tokens_view(toks@), i as nat) is None,
        },
    decreases token::tokens_view(toks@), toks@.len() - i, 0int,
{
    let ghost ts = token::tokens_view(toks@);
    let name = match ident_parser(toks, i) {
        Some(n) => n,
        None => {
            return None;
        },
    };
    match next_braces(toks, i + 1) {
        Some(inside) => {
            let (fields, end) = read_fields(inside, 0);
            if end == inside.len() && fields.len() > 0 {
                let span = span_from(toks, i, i + 2);
                proof {
                    let fs = fields_view(fields@);
                    assert(expr::field_names(fields@) =~= grammar::names_of(fs));
                    assert(expr::field_trees(fields@) =~= grammar::values_of(fs));
                }
                let ghost head = Head::RecordLiteral(
                    name.deep_view(),
                    expr::field_names(fields@),
                );
                let ghost kids = expr::field_trees(fields@);
                let e = Expr::RecordLiteral { name, fields };
                proof {
                    assert(expr::tree(e, span) == expr::node(head, span, kids));
                }
                Some((e.with_span(span), i + 2))
            } else {
                None
            }
        },
        None => None,
    }
}

fn read_fields(toks: &TokenInput, i: usize) -> (r: (Vec<(Spanned<Ident>, Spanned<Expr>)>, usize))
    requires
        i <= toks@.len(),
    ensures
        grammar::fields_from(token::tokens_view(toks@), i as nat) == (
            fields_view(r.0@),
            r.1 as nat,
        ),
        i <= r.1 <= toks@.len(),
    decreases token::tokens_view(toks@), toks@.len() - i, 7int,
{
    let ghost ts = token::tokens_view(toks@);
    let mut out: Vec<(Spanned<Ident>, Spanned<Expr>)> = Vec::new();
    let mut k: usize = i;
    proof {
        let rest = grammar::fields_from(ts, i as nat).0;
        assert(fields_view(out@) + rest =~= rest);
    }
    loop
        invariant
            i <= k <= toks@.len(),
            ts == token::tokens_view(toks@),
            grammar::fields_from(ts, i as nat).0 == fields_view(out@) + grammar::fields_from(
                ts,
                k as nat,
            ).0,
            grammar::fields_from(ts, i as nat).1 == grammar::fields_from(ts, k as nat).1,
        decreases toks@.len() - k,
    {
        proof {
            assert(fields_view(out@) + Seq::<(Spanned<Text>, Tree)>::empty() =~= fields_view(out@));
        }
        match read_field(toks, k) {
            Some((f, j)) => {
                let ghost before = fields_view(out@);
                let ghost one = (f.0.deep_view(), expr::tree_of(f.1));
                let ghost rest = grammar::fields_from(ts, j as nat).0;
                out.push(f);
                proof {
                    assert(fields_view(out@) =~= before.push(one));
                    assert(before + (seq![one] + rest) =~= fields_view(out@) + rest);
                }
                k = j;
            },
            None => {
                return (out, k);
            },
        }
    }
}

fn read_field(toks: &TokenInput, i: usize) -> (r: Option<((Spanned<Ident>, Spanned<Expr>), usize)>)
    ensures
        match r {
            Some((f, j)) => {
                &&& grammar::field_at(token::tokens_view(toks@), i as nat) == Some(
                    ((f.0.deep_view(), expr::tree_of(f.1)), j as nat),
                )
                &&& i < j <= toks@.len()
            },
            None => grammar::field_at(token::tokens_view(toks@), i as nat) is None,
        },
    decreases token::tokens_view(toks@), toks@.len() - i, 6int,
{
    let name = match ident_parser(toks, i) {
        Some(n) => n,
        None => {
            return None;
        },
    };
    if next_is(toks, i + 1, Sign::Eq) {
        match self::expr(toks, i + 2) {
            Some((v, j)) => Some(((name, v), j)),
            None => None,
        }
    } else {
        None
    }
}

// ── statements ─────────────────────────────────────────────────────────────

fn read_ret(toks: &TokenInput, i: usize) -> (r: Option<(Spanned<Expr>, usize)>)
    ensures
        match r {
            Some((e, j)) => {
                &&& grammar::prefixed_at(token::tokens_view(toks@), i as nat, Head::Ret) == Some(
                    (expr::tree_of(e), j as nat),
                )
                &&& i < j <= toks@.len()
            },
            None => grammar::prefixed_at(token::tokens_view(toks@), i as nat, Head::Ret) is None,
        },
    decreases token::tokens_view(toks@), toks@.len() - i, 1int,
{
    if i >= toks.len() {
        return None;
    }
    match self::expr(toks, i + 1) {
        Some((x, j)) => {
            let span = span_from(toks, i, j);
            let ghost kids = seq![expr::tree_of(x)];
            let e = Expr::Ret(Box::new(x));
            proof {
                assert(expr::tree(e, span) == expr::node(Head::Ret, span, kids));
            }
            Some((e.with_span(span), j))
        },
        None => None,
    }
}

fn read_pin(toks: &TokenInput, i: usize) -> (r: Option<(Spanned<Expr>, usize)>)
    ensures
        match r {
            Some((e, j)) => {
                &&& grammar::prefixed_at(token::tokens_view(toks@), i as nat, Head::Pin) == Some(
                    (expr::tree_of(e), j as nat),
                )
                &&& i < j <= toks@.len()
            },
            None => grammar::prefixed_at(token::tokens_view(toks@), i as nat, Head::Pin) is None,
        },
    decreases token::tokens_view(toks@), toks@.len() - i, 1int,
{
    if i >= toks.len() {
        return None;
    }
    match self::expr(toks, i + 1) {
        Some((x, j)) => {
            let span = span_from(toks, i, j);
            let ghost kids = seq![expr::tree_of(x)];
            let e = Expr::Pin(Box::new(x));
            proof {
                assert(expr::tree(e, span) == expr::node(Head::Pin, span, kids));
            }
            Some((e.with_span(span), j))
        },
        None => None,
    }
}

fn read_let_tuple(toks: &TokenInput, i: usize) -> (r: Option<(Spanned<Expr>, usize)>)
    requires
        i < toks@.len() <= usize::MAX,
    ensures
        match r {
            Some((e, j)) => {
                &&& grammar::let_tuple_at(token::tokens_view(toks@), i as nat) == Some(
                    (expr::tree_of(e), j as nat),
                )
                &&& i < j <= toks@.len()
            },
            None => grammar::let_tuple_at(token::tokens_view(toks@), i as nat) is None,
        },
    decreases token::tokens_view(toks@), toks@.len() - i, 1int,
{
    let inside = match next_braces(toks, i + 1) {
        Some(v) => v,
        None => {
            return None;
        },
    };
    let fields = match only_idents(inside) {
        Some(ids) => ids,
        None => {
            return None;
        },
    };
    if fields.len() > 0 && next_is(toks, i + 2, Sign::Eq) {
        match self::expr(toks, i + 3) {
            Some((x, j)) => {
                let span = span_from(toks, i, j);
                let ghost kids = seq![expr::tree_of(x)];
                let ghost head = Head::LetTuple(fields.deep_view());
                let e = Expr::LetTuple { fields, default: Box::new(x) };
                proof {
                    assert(expr::tree(e, span) == expr::node(head, span, kids));
                }
                Some((e.with_span(span), j))
            },
            None => None,
        }
    } else {
        None
    }
}

fn read_let(toks: &TokenInput, i: usize) -> (r: Option<(Spanned<Expr>, usize)>)
    requires
        i < toks@.len() <= usize::MAX,
    ensures
        match r {
            Some((e, j)) => {
                &&& grammar::let_at(token::tokens_view(toks@), i as nat) == Some(
                    (expr::tree_of(e), j as nat),
                )
                &&& i < j <= toks@.len()
            },
            None => grammar::let_at(token::tokens_view(toks@), i as nat) is None,
        },
    decreases token::tokens_view(toks@), toks@.len() - i, 1int,
{
    let ident = match ident_parser(toks, i + 1) {
        Some(id) => id,
        None => {
            return None;
        },
    };
    let (ty, k) = match type_expr::type_expr(toks, i + 2) {
        Some((ty, k)) => (ty, k),
        None => {
            let span = ident.span;
            (Type::Unknown.with_span(span), i + 2)
        },
    };
    if next_is(toks, k, Sign::Eq) {
        match self::expr(toks, k + 1) {
            Some((x, j)) => {
                let span = span_from(toks, i, j);
                let ghost kids = seq![expr::tree_of(x)];
                let ghost head = Head::Let(ident.deep_view(), ty.deep_view());
                let e = Expr::Let { ident, ty, default: Some(Box::new(x)) };
                proof {
                    assert(expr::tree(e, span) == expr::node(head, span, kids));
                }
                Some((e.with_span(span), j))
            },
            None => None,
        }
    } else {
        None
    }
}

fn read_when(toks: &TokenInput, i: usize) -> (r: Option<(Spanned<Expr>, usize)>)
    ensures
        match r {
            Some((e, j)) => {
                &&& grammar::when_at(token::tokens_view(toks@), i as nat) == Some(
                    (expr::tree_of(e), j as nat),
                )
                &&& i < j <= toks@.len()
            },
            None => grammar::when_at(token::tokens_view(toks@), i as nat) is None,
        },
    decreases token::tokens_view(toks@), toks@.len() - i, 1int,
{
    if i >= toks.len() {
        return None;
    }
    let (cond, j) = match self::expr(toks, i + 1) {
        Some((c, j)) => (c, j),
        None => {
            return None;
        },
    };
    match next_braces(toks, j) {
        Some(inside) => {
            let (branches, end) = read_arms(inside, 0);
            if end == inside.len() && branches.len() > 0 {
                let span = span_from(toks, i, j + 1);
                let ghost kids = seq![expr::tree_of(cond)] + expr::arms_view(branches@);
                proof {
                    assert(expr::arms_view(branches@).len() == branches@.len());
                }
                let e = Expr::When { cond: Box::new(cond), branches };
                proof {
                    assert(expr::tree(e, span) == expr::node(Head::When, span, kids));
                }
                Some((e.with_span(span), j + 1))
            } else {
                None
            }
        },
        None => None,
    }
}

fn read_arm(toks: &TokenInput, i: usize) -> (r: Option<
    ((Spanned<Expr>, Vec<Spanned<Expr>>), usize),
>)
    ensures
        match r {
            Some((a, j)) => {
                &&& grammar::arm_at(token::tokens_view(toks@), i as nat) == Some(
                    (expr::arm_tree(expr::tree_of(a.0), expr::trees(a.1@)), j as nat),
                )
                &&& i < j <= toks@.len()
            },
            None => grammar::arm_at(token::tokens_view(toks@), i as nat) is None,
        },
    decreases token::tokens_view(toks@), toks@.len() - i, 6int,
{
    let (pat, j) = match self::expr(toks, i) {
        Some((p, j)) => (p, j),
        None => {
            return None;
        },
    };
    if !next_is(toks, j, Sign::Arrow) {
        return None;
    }
    match next_braces(toks, j + 1) {
        Some(inside) => match only_exprs(inside) {
            Some(body) => Some(((pat, body), j + 2)),
            None => None,
        },
        None => None,
    }
}

pub fn read_arms(toks: &TokenInput, i: usize) -> (r: (
    Vec<(Spanned<Expr>, Vec<Spanned<Expr>>)>,
    usize,
))
    requires
        i <= toks@.len(),
    ensures
        grammar::arms_from(token::tokens_view(toks@), i as nat) == (
            expr::arms_view(r.0@),
            r.1 as nat,
        ),
        i <= r.1 <= toks@.len(),
    decreases token::tokens_view(toks@), toks@.len() - i, 7int,
{
    let ghost ts = token::tokens_view(toks@);
    let mut out: Vec<(Spanned<Expr>, Vec<Spanned<Expr>>)> = Vec::new();
    let mut k: usize = i;
    proof {
        let rest = grammar::arms_from(ts, i as nat).0;
        assert(expr::arms_view(out@) + rest =~= rest);
    }
    loop
        invariant
            i <= k <= toks@.len(),
            ts == token::tokens_view(toks@),
            grammar::arms_from(ts, i as nat).0 == expr::arms_view(out@) + grammar::arms_from(
                ts,
                k as nat,
            ).0,
            grammar::arms_from(ts, i as nat).1 == grammar::arms_from(ts, k as nat).1,
        decreases toks@.len() - k,
    {
        proof {
            assert(expr::arms_view(out@) + Seq::<Tree>::empty() =~= expr::arms_view(out@));
        }
        match read_arm(toks, k) {
            Some((a, j)) => {
                let ghost before = out@;
                let ghost one = expr::arm_tree(expr::tree_of(a.0), expr::trees(a.1@));
                let ghost rest = grammar::arms_from(ts, j as nat).0;
                out.push(a);
                proof {
                    assert(out@.drop_last() =~= before);
                    tuples::push_arm(before, out@);
                    assert(expr::arms_view(before) + (seq![one] + rest) =~= expr::arms_view(out@)
                        + rest);
                }
                k = j;
            },
            None => {
                return (out, k);
            },
        }
    }
}

fn read_wait(toks: &TokenInput, i: usize) -> (r: Option<(Spanned<Expr>, usize)>)
    ensures
        match r {
            Some((e, j)) => {
                &&& grammar::wait_at(token::tokens_view(toks@), i as nat) == Some(
                    (expr::tree_of(e), j as nat),
                )
                &&& i < j <= toks@.len()
            },
            None => grammar::wait_at(token::tokens_view(toks@), i as nat) is None,
        },
    decreases token::tokens_view(toks@), toks@.len() - i, 1int,
{
    if i >= toks.len() {
        return None;
    }
    let (filter, j) = exprs(toks, i + 1);
    match next_braces(toks, j) {
        Some(inside) => {
            let (handlers, end) = read_handlers(inside, 0);
            if end == inside.len() && handlers.len() > 0 {
                let span = span_from(toks, i, j + 1);
                let ghost kids = seq![
                    expr::node(Head::Filter, crate::span::zero_span(), expr::trees(filter@)),
                ] + expr::handlers_view(handlers@);
                proof {
                    assert(expr::handlers_view(handlers@).len() == handlers@.len());
                }
                let e = Expr::Wait { handlers, filter };
                proof {
                    assert(expr::tree(e, span) == expr::node(Head::Wait, span, kids));
                }
                Some((e.with_span(span), j + 1))
            } else {
                None
            }
        },
        None => None,
    }
}

/// Reads a label `@name`, if there is one.
pub fn label(toks: &TokenInput, i: usize) -> (r: (Option<Spanned<Ident>>, usize))
    requires
        i <= toks@.len(),
    ensures
        grammar::label_at(token::tokens_view(toks@), i as nat) == (r.0.deep_view(), r.1 as nat),
        i <= r.1 <= toks@.len(),
{
    if next_is(toks, i, Sign::At) {
        match ident_parser(toks, i + 1) {
            Some(id) => (Some(id), i + 2),
            None => (None, i),
        }
    } else {
        (None, i)
    }
}

/// The tree of a `wait` handler.
pub open spec fn handler_tree(b: Spanned<Branch>) -> Tree {
    Tree {
        head: Head::Handler(expr::branch_head(b.inner)),
        span: b.span,
        kids: expr::trees(b.inner.body@),
    }
}

fn read_handler(toks: &TokenInput, i: usize) -> (r: Option<(Spanned<Branch>, usize)>)
    requires
        i <= toks@.len(),
    ensures
        match r {
            Some((h, j)) => {
                &&& grammar::handler_at(token::tokens_view(toks@), i as nat) == Some(
                    (handler_tree(h), j as nat),
                )
                &&& i < j <= toks@.len()
            },
            None => grammar::handler_at(token::tokens_view(toks@), i as nat) is None,
        },
    decreases token::tokens_view(toks@), toks@.len() - i, 6int,
{
    let (label, a) = label(toks, i);
    let (patterns, j) = repeated::<WaitPatternRule>(toks, a);
    if patterns.len() == 0 || !next_is(toks, j, Sign::Arrow) {
        return None;
    }
    match next_braces(toks, j + 1) {
        Some(inside) => match only_exprs(inside) {
            Some(body) => {
                let span = span_from(toks, i, j + 2);
                let ghost head = HandlerV {
                    label: label.deep_view(),
                    patterns: patterns.deep_view(),
                    ret_ty: None,
                };
                let b = Branch::new(label, patterns, None, body);
                proof {
                    assert(ast::patterns_view(patterns@) =~= patterns.deep_view());
                    assert(expr::branch_head(b) == head);
                }
                Some((b.with_span(span), j + 2))
            },
            None => None,
        },
        None => None,
    }
}

pub fn read_handlers(toks: &TokenInput, i: usize) -> (r: (Vec<Spanned<Branch>>, usize))
    requires
        i <= toks@.len(),
    ensures
        grammar::handlers_from(token::tokens_view(toks@), i as nat) == (
            expr::handlers_view(r.0@),
            r.1 as nat,
        ),
        i <= r.1 <= toks@.len(),
    decreases token::tokens_view(toks@), toks@.len() - i, 7int,
{
    let ghost ts = token::tokens_view(toks@);
    let mut out: Vec<Spanned<Branch>> = Vec::new();
    let mut k: usize = i;
    proof {
        let rest = grammar::handlers_from(ts, i as nat).0;
        assert(expr::handlers_view(out@) + rest =~= rest);
    }
    loop
        invariant
            i <= k <= toks@.len(),
            ts == token::tokens_view(toks@),
            grammar::handlers_from(ts, i as nat).0 == expr::handlers_view(out@)
                + grammar::handlers_from(ts, k as nat).0,
            grammar::handlers_from(ts, i as nat).1 == grammar::handlers_from(ts, k as nat).1,
        decreases toks@.len() - k,
    {
        proof {
            assert(expr::handlers_view(out@) + Seq::<Tree>::empty() =~= expr::handlers_view(out@));
        }
        match read_handler(toks, k) {
            Some((h, j)) => {
                let ghost before = out@;
                let ghost one = handler_tree(h);
                let ghost rest = grammar::handlers_from(ts, j as nat).0;
                out.push(h);
                proof {
                    assert(out@.drop_last() =~= before);
                    tuples::push_handler(before, out@);
                    assert(expr::handlers_view(before) + (seq![one] + rest)
                        =~= expr::handlers_view(out@) + rest);
                }
                k = j;
            },
            None => {
                return (out, k);
            },
        }
    }
}

fn read_base(toks: &TokenInput, i: usize) -> (r: Option<(Spanned<Expr>, usize)>)
    ensures
        match r {
            Some((e, j)) => {
                &&& grammar::base_at(token::tokens_view(toks@), i as nat) == Some(
                    (expr::tree_of(e), j as nat),
                )
                &&& i < j <= toks@.len()
            },
            None => grammar::base_at(token::tokens_view(toks@), i as nat) is None,
        },
    decreases token::tokens_view(toks@), toks@.len() - i, 2int,
{
    match next_sign(toks, i) {
        Some(Sign::Ret) => read_ret(toks, i),
        Some(Sign::Pin) => read_pin(toks, i),
        Some(Sign::Wait) => read_wait(toks, i),
        Some(Sign::Let) => match read_let_tuple(toks, i) {
            Some(r) => Some(r),
            None => read_let(toks, i),
        },
        Some(Sign::When) => read_when(toks, i),
        _ => read_operand(toks, i),
    }
}

// ── postfix operations ─────────────────────────────────────────────────────

fn call_of(acc: Spanned<Expr>, args: Vec<Spanned<Expr>>) -> (r: Spanned<Expr>)
    requires
        grammar::callable(expr::tree_of(acc)),
    ensures
        expr::tree_of(r) == expr::node(
            Head::Jump,
            acc.span,
            seq![grammar::callee(expr::tree_of(acc))] + expr::trees(args@),
        ),
{
    let span = acc.span;
    let ghost before = expr::tree_of(acc);
    let callee = match acc.inner {
        Expr::Var(name, _) => Expr::Var(name, named_type("pid", span)).with_span(span),
        other => other.with_span(span),
    };
    proof {
        assert(expr::tree_of(callee) == grammar::callee(before));
    }
    let ghost kids = seq![expr::tree_of(callee)] + expr::trees(args@);
    let e = Expr::Jump { ident: Box::new(callee), args };
    proof {
        assert(expr::tree(e, span) == expr::node(Head::Jump, span, kids));
    }
    e.with_span(span)
}

fn is_callable(e: &Expr) -> (r: bool)
    ensures
        forall|span: SimpleSpan| #[trigger] grammar::callable(expr::tree(*e, span)) == r,
{
    matches!(e, Expr::Var(_, _) | Expr::Path(_))
}

fn method_of(acc: Spanned<Expr>, method: Spanned<Ident>, args: Option<Vec<Spanned<Expr>>>) -> (r:
    Spanned<Expr>)
    ensures
        expr::tree_of(r) == (match args {
            Some(args) => expr::node(
                Head::MethodCall(method.deep_view()),
                acc.span,
                seq![expr::tree_of(acc)] + expr::trees(args@),
            ),
            None => expr::node(
                Head::AtAccess(method.deep_view()),
                acc.span,
                seq![expr::tree_of(acc)],
            ),
        }),
{
    let span = acc.span;
    let ghost before = expr::tree_of(acc);
    let ghost m = method.deep_view();
    match args {
        Some(args) => {
            let ghost kids = seq![before] + expr::trees(args@);
            let e = Expr::MethodCall { receiver: Box::new(acc), method, args };
            proof {
                assert(expr::tree(e, span) == expr::node(Head::MethodCall(m), span, kids));
            }
            e.with_span(span)
        },
        None => {
            let e = Expr::AtAccess { receiver: Box::new(acc), field: method };
            proof {
                assert(expr::tree(e, span) == expr::node(Head::AtAccess(m), span, seq![before]));
            }
            e.with_span(span)
        },
    }
}

fn read_method_args(toks: &TokenInput, i: usize) -> (r: Option<Vec<Spanned<Expr>>>)
    ensures
        match r {
            Some(args) => {
                &&& grammar::method_args(token::tokens_view(toks@), i as nat) == Some(
                    expr::trees(args@),
                )
                &&& i < toks@.len() <= usize::MAX
            },
            None => grammar::method_args(token::tokens_view(toks@), i as nat) is None,
        },
    decreases token::tokens_view(toks@), toks@.len() - i, 1int,
{
    match next_group(toks, i, Bracket::TightParens) {
        Some(inside) => only_exprs(inside),
        None => None,
    }
}

/// Applies the postfix operation at `i`, or gives `acc` back.
fn read_post(toks: &TokenInput, i: usize, acc: Spanned<Expr>) -> (r: Result<
    (Spanned<Expr>, usize),
    Spanned<Expr>,
>)
    ensures
        match r {
            Ok((e, j)) => {
                &&& grammar::post_at(token::tokens_view(toks@), i as nat, expr::tree_of(acc))
                    == Some((expr::tree_of(e), j as nat))
                &&& i < j <= toks@.len()
            },
            Err(back) => {
                &&& grammar::post_at(
                    token::tokens_view(toks@),
                    i as nat,
                    expr::tree_of(acc),
                ) is None
                &&& back == acc
            },
        },
    decreases token::tokens_view(toks@), toks@.len() - i, 1int,
{
    let ghost ts = token::tokens_view(toks@);
    let ghost before = expr::tree_of(acc);
    if i >= toks.len() {
        return Err(acc);
    }
    let span = acc.span;
    proof {
        assert(ts[i as int].inner == token::token_view(toks@[i as int].inner));
        assert(before.span == span);
    }
    if let Some(inside) = next_group(toks, i, Bracket::TightParens) {
        if !is_callable(&acc.inner) {
            return Err(acc);
        }
        return match only_exprs(inside) {
            Some(args) => Ok((call_of(acc, args), i + 1)),
            None => Err(acc),
        };
    }
    if let Some(inside) = next_group(toks, i, Bracket::TightSquare) {
        return match only_expr(inside) {
            Some(index) => {
                let ghost kids = seq![before, expr::tree_of(index)];
                let e = Expr::Index { receiver: Box::new(acc), index: Box::new(index) };
                proof {
                    assert(expr::tree(e, span) == expr::node(Head::Index, span, kids));
                }
                Ok((e.with_span(span), i + 1))
            },
            None => Err(acc),
        };
    }
    if next_is(toks, i, Sign::At) {
        return match ident_parser(toks, i + 1) {
            Some(m) => {
                let args = read_method_args(toks, i + 2);
                let j: usize = if args.is_some() {
                    i + 3
                } else {
                    i + 2
                };
                Ok((method_of(acc, m, args), j))
            },
            None => Err(acc),
        };
    }
    if next_is(toks, i, Sign::Dot) {
        return read_dot(toks, i, acc);
    }
    Err(acc)
}

fn read_dot(toks: &TokenInput, i: usize, acc: Spanned<Expr>) -> (r: Result<
    (Spanned<Expr>, usize),
    Spanned<Expr>,
>)
    requires
        helpers::sign_is(token::tokens_view(toks@), i as nat, Sign::Dot),
    ensures
        match r {
            Ok((e, j)) => {
                &&& grammar::post_at(token::tokens_view(toks@), i as nat, expr::tree_of(acc))
                    == Some((expr::tree_of(e), j as nat))
                &&& i < j <= toks@.len()
            },
            Err(back) => {
                &&& grammar::post_at(
                    token::tokens_view(toks@),
                    i as nat,
                    expr::tree_of(acc),
                ) is None
                &&& back == acc
            },
        },
    decreases token::tokens_view(toks@), toks@.len() - i, 0int,
{
    let ghost ts = token::tokens_view(toks@);
    let ghost before = expr::tree_of(acc);
    let span = acc.span;
    if i >= toks.len() || i + 1 >= toks.len() {
        return Err(acc);
    }
    proof {
        assert(ts[(i + 1) as int].inner == token::token_view(toks@[(i + 1) as int].inner));
        assert(before.span == span);
    }
    if let Some(inside) = next_braces(toks, i + 1) {
        return match only_exprs(inside) {
            Some(fields) => {
                let ghost kids = seq![before] + expr::trees(fields@);
                let e = Expr::StructInit { base: Box::new(acc), fields };
                proof {
                    assert(expr::tree(e, span) == expr::node(Head::StructInit, span, kids));
                }
                Ok((e.with_span(span), i + 2))
            },
            None => Err(acc),
        };
    }
    match &toks[i + 1].inner {
        Token::Num(n) => match parse_index(n.as_str()) {
            Some(index) => {
                let e = Expr::TupleIndex { receiver: Box::new(acc), index };
                proof {
                    assert(expr::tree(e, span) == expr::node(
                        Head::TupleIndex(index),
                        span,
                        seq![before],
                    ));
                }
                Ok((e.with_span(span), i + 2))
            },
            None => Err(acc),
        },
        Token::Ident(f) => {
            let field = Ident(f.clone()).with_span(toks[i + 1].span);
            let ghost fv = field.deep_view();
            let e = Expr::DotAccess { receiver: Box::new(acc), field };
            proof {
                assert(expr::tree(e, span) == expr::node(
                    Head::DotAccess(fv),
                    span,
                    seq![before],
                ));
            }
            Ok((e.with_span(span), i + 2))
        },
        _ => Err(acc),
    }
}

fn read_postfix(toks: &TokenInput, i: usize, base: Spanned<Expr>) -> (r: (Spanned<Expr>, usize))
    requires
        i <= toks@.len(),
    ensures
        grammar::postfix_from(token::tokens_view(toks@), i as nat, expr::tree_of(base)) == (
            expr::tree_of(r.0),
            r.1 as nat,
        ),
        i <= r.1 <= toks@.len(),
    decreases token::tokens_view(toks@), toks@.len() - i, 4int,
{
    let ghost ts = token::tokens_view(toks@);
    let ghost whole = grammar::postfix_from(ts, i as nat, expr::tree_of(base));
    let mut acc = base;
    let mut k: usize = i;
    loop
        invariant
            i <= k <= toks@.len(),
            ts == token::tokens_view(toks@),
            whole == grammar::postfix_from(ts, i as nat, expr::tree_of(base)),
            whole == grammar::postfix_from(ts, k as nat, expr::tree_of(acc)),
        decreases toks@.len() - k,
    {
        match read_post(toks, k, acc) {
            Ok((e, j)) => {
                acc = e;
                k = j;
            },
            Err(back) => {
                return (back, k);
            },
        }
    }
}

fn read_primary(toks: &TokenInput, i: usize) -> (r: Option<(Spanned<Expr>, usize)>)
    ensures
        match r {
            Some((e, j)) => {
                &&& grammar::primary_at(token::tokens_view(toks@), i as nat) == Some(
                    (expr::tree_of(e), j as nat),
                )
                &&& i < j <= toks@.len()
            },
            None => grammar::primary_at(token::tokens_view(toks@), i as nat) is None,
        },
    decreases token::tokens_view(toks@), toks@.len() - i, 3int,
{
    match read_base(toks, i) {
        Some((b, j)) => {
            let grouped = next_parens(toks, i).is_some();
            if grouped && next_group(toks, j, Bracket::TightParens).is_some() {
                Some((b, j))
            } else {
                Some(read_postfix(toks, j, b))
            }
        },
        None => None,
    }
}

// ── operators ──────────────────────────────────────────────────────────────

fn read_operator(toks: &TokenInput, i: usize, power: u8) -> (r: Option<(BinOp, u8)>)
    ensures
        match r {
            Some((op, p)) => {
                &&& grammar::operator_in(token::tokens_view(toks@), i as nat, power as nat) == Some(
                    (op, p as nat),
                )
                &&& i < toks@.len() <= usize::MAX
                &&& p < 11
            },
            None => grammar::operator_in(
                token::tokens_view(toks@),
                i as nat,
                power as nat,
            ) is None,
        },
{
    let (op, p): (BinOp, u8) = match next_sign(toks, i) {
        Some(Sign::Star) => (BinOp::Mul, 10),
        Some(Sign::Slash) => (BinOp::Div, 10),
        Some(Sign::Plus) => (BinOp::Add, 9),
        Some(Sign::Minus) => (BinOp::Sub, 9),
        Some(Sign::Shl) => (BinOp::Shl, 8),
        Some(Sign::Shr) => (BinOp::Shr, 8),
        Some(Sign::BitAnd) => (BinOp::BAnd, 7),
        Some(Sign::BitXor) => (BinOp::BXor, 6),
        Some(Sign::BitOr) => (BinOp::BOr, 5),
        Some(Sign::LessEq) => (BinOp::Le, 4),
        Some(Sign::GreaterEq) => (BinOp::Ge, 4),
        Some(Sign::Less) => (BinOp::Lt, 4),
        Some(Sign::Greater) => (BinOp::Gt, 4),
        Some(Sign::EqEq) => (BinOp::Eq, 3),
        _ => {
            return None;
        },
    };
    if p >= power {
        Some((op, p))
    } else {
        None
    }
}

fn read_powered(toks: &TokenInput, i: usize, power: u8) -> (r: Option<(Spanned<Expr>, usize)>)
    ensures
        match r {
            Some((e, j)) => {
                &&& grammar::operand_at(token::tokens_view(toks@), i as nat, power as nat) == Some(
                    (expr::tree_of(e), j as nat),
                )
                &&& i < j <= toks@.len()
            },
            None => grammar::operand_at(token::tokens_view(toks@), i as nat, power as nat) is None,
        },
    decreases token::tokens_view(toks@), toks@.len() - i, 4int,
{
    let (lhs, j) = if next_is(toks, i, Sign::Minus) {
        match read_powered(toks, i + 1, 11) {
            Some((x, j)) => {
                let span = span_from(toks, i, j);
                let ghost kids = seq![expr::tree_of(x)];
                let e = Expr::Neg(Box::new(x));
                proof {
                    assert(expr::tree(e, span) == expr::node(Head::Neg, span, kids));
                }
                (e.with_span(span), j)
            },
            None => {
                return None;
            },
        }
    } else {
        match read_primary(toks, i) {
            Some((e, j)) => (e, j),
            None => {
                return None;
            },
        }
    };
    Some(read_operators(toks, i, j, lhs, power))
}

fn read_operators(
    toks: &TokenInput,
    start: usize,
    i: usize,
    first: Spanned<Expr>,
    power: u8,
) -> (r: (Spanned<Expr>, usize))
    requires
        start < i <= toks@.len(),
    ensures
        grammar::operators_from(
            token::tokens_view(toks@),
            start as nat,
            i as nat,
            expr::tree_of(first),
            power as nat,
        ) == (expr::tree_of(r.0), r.1 as nat),
        i <= r.1 <= toks@.len(),
    decreases token::tokens_view(toks@), toks@.len() - i, 4int,
{
    let ghost ts = token::tokens_view(toks@);
    let ghost whole = grammar::operators_from(
        ts,
        start as nat,
        i as nat,
        expr::tree_of(first),
        power as nat,
    );
    let mut lhs = first;
    let mut k: usize = i;
    loop
        invariant
            start < i <= k <= toks@.len(),
            ts == token::tokens_view(toks@),
            whole == grammar::operators_from(
                ts,
                start as nat,
                i as nat,
                expr::tree_of(first),
                power as nat,
            ),
            whole == grammar::operators_from(
                ts,
                start as nat,
                k as nat,
                expr::tree_of(lhs),
                power as nat,
            ),
        decreases toks@.len() - k,
    {
        let (op, p) = match read_operator(toks, k, power) {
            Some((op, p)) => (op, p),
            None => {
                return (lhs, k);
            },
        };
        match read_powered(toks, k + 1, p + 1) {
            Some((rhs, j)) => {
                let span = span_from(toks, start, j);
                lhs = bin_expr(op, Box::new(lhs), Box::new(rhs)).with_span(span);
                k = j;
            },
            None => {
                return (lhs, k);
            },
        }
    }
}

// ── expressions ────────────────────────────────────────────────────────────

/// Reads an expression.
pub fn expr(toks: &TokenInput, i: usize) -> (r: Option<(Spanned<Expr>, usize)>)
    ensures
        match r {
            Some((e, j)) => {
                &&& grammar::expr_at(token::tokens_view(toks@), i as nat) == Some(
                    (expr::tree_of(e), j as nat),
                )
                &&& i < j <= toks@.len()
            },
            None => grammar::expr_at(token::tokens_view(toks@), i as nat) is None,
        },
    decreases token::tokens_view(toks@), toks@.len() - i, 5int,
{
    read_powered(toks, i, 0)
}

/// Reads expressions as long as there are any.
pub fn exprs(toks: &TokenInput, i: usize) -> (r: (Vec<Spanned<Expr>>, usize))
    requires
        i <= toks@.len(),
    ensures
        grammar::exprs_from(token::tokens_view(toks@), i as nat) == (
            expr::trees(r.0@),
            r.1 as nat,
        ),
        i <= r.1 <= toks@.len(),
    decreases token::tokens_view(toks@), toks@.len() - i, 7int,
{
    let ghost ts = token::tokens_view(toks@);
    let mut out: Vec<Spanned<Expr>> = Vec::new();
    let mut k: usize = i;
    proof {
        let rest = grammar::exprs_from(ts, i as nat).0;
        assert(expr::trees(out@) + rest =~= rest);
    }
    loop
        invariant
            i <= k <= toks@.len(),
            ts == token::tokens_view(toks@),
            grammar::exprs_from(ts, i as nat).0 == expr::trees(out@) + grammar::exprs_from(
                ts,
                k as nat,
            ).0,
            grammar::exprs_from(ts, i as nat).1 == grammar::exprs_from(ts, k as nat).1,
        decreases toks@.len() - k,
    {
        proof {
            assert(expr::trees(out@) + Seq::<Tree>::empty() =~= expr::trees(out@));
        }
        match self::expr(toks, k) {
            Some((e, j)) => {
                let ghost before = expr::trees(out@);
                let ghost one = expr::tree_of(e);
                let ghost rest = grammar::exprs_from(ts, j as nat).0;
                out.push(e);
                proof {
                    assert(expr::trees(out@) =~= before.push(one));
                    assert(before + (seq![one] + rest) =~= expr::trees(out@) + rest);
                }
                k = j;
            },
            None => {
                return (out, k);
            },
        }
    }
}

/// Reads the tokens as expressions only.
pub fn only_exprs(toks: &TokenInput) -> (r: Option<Vec<Spanned<Expr>>>)
    ensures
        match r {
            Some(es) => grammar::exprs_all(token::tokens_view(toks@)) == Some(expr::trees(es@)),
            None => grammar::exprs_all(token::tokens_view(toks@)) is None,
        },
    decreases token::tokens_view(toks@), toks@.len() as int, 8int,
{
    let (es, end) = exprs(toks, 0);
    if end == toks.len() {
        Some(es)
    } else {
        None
    }
}

/// Reads the tokens as one expression.
pub fn only_expr(toks: &TokenInput) -> (r: Option<Spanned<Expr>>)
    ensures
        match r {
            Some(e) => grammar::expr_all(token::tokens_view(toks@)) == Some(expr::tree_of(e)),
            None => grammar::expr_all(token::tokens_view(toks@)) is None,
        },
    decreases token::tokens_view(toks@), toks@.len() as int, 8int,
{
    match self::expr(toks, 0) {
        Some((e, j)) => if j == toks.len() {
            Some(e)
        } else {
            None
        },
        None => None,
    }
}

} // verus!
