//! Constants.

use vstd::prelude::*;

use crate::api::ast::{ConstDecl, ConstDeclV, Ident, Type};
use crate::api::expr;
use crate::api::expr::{Expr, Head, Tree};
use crate::api::token;
use crate::api::token::{Sign, Token, TokenV};
use crate::parser::expr::grammar;
use crate::parser::helpers;
use crate::parser::helpers::{ident_parser, next_is, span_from, TokenInput, Toks};
use crate::parser::machine;
use crate::parser::machine::visibility;
use crate::span::{SpanWrap, Spanned};

verus! {

/// The literal at `i`, and where it ends: a number, a string, a boolean or an
/// atom.
pub open spec fn literal_at(ts: Toks, i: nat) -> Option<(Tree, nat)> {
    if i >= ts.len() {
        None
    } else {
        let span = ts[i as int].span;
        match ts[i as int].inner {
            TokenV::Num(n) => Some(
                (expr::leaf(Head::Num(n, grammar::named("i64"@, span)), span), i + 1),
            ),
            TokenV::Str(s) => Some(
                (expr::leaf(Head::Str(s, grammar::named("str"@, span)), span), i + 1),
            ),
            TokenV::Sign(Sign::True) => Some((expr::leaf(Head::Bool(true), span), i + 1)),
            TokenV::Sign(Sign::False) => Some((expr::leaf(Head::Bool(false), span), i + 1)),
            TokenV::Sign(Sign::Colon) => match helpers::ident_in(ts, i + 1) {
                Some(id) => Some((expr::leaf(Head::Atom(id.inner), id.span), i + 2)),
                None => None,
            },
            _ => None,
        }
    }
}

fn read_literal(toks: &TokenInput, i: usize) -> (r: Option<(Spanned<Expr>, usize)>)
    ensures
        match r {
            Some((e, j)) => {
                &&& literal_at(token::tokens_view(toks@), i as nat) == Some(
                    (expr::tree_of(e), j as nat),
                )
                &&& i < j <= toks@.len()
            },
            None => literal_at(token::tokens_view(toks@), i as nat) is None,
        },
{
    let ghost ts = token::tokens_view(toks@);
    if i >= toks.len() {
        return None;
    }
    let span = toks[i].span;
    proof {
        assert(ts[i as int].inner == token::token_view(toks@[i as int].inner));
        assert(ts[i as int].span == span);
    }
    match &toks[i].inner {
        Token::Num(n) => {
            let ty = Type::Named(Ident::new("i64").with_span(span));
            Some((Expr::Num(n.clone(), ty).with_span(span), i + 1))
        },
        Token::String(s) => {
            let ty = Type::Named(Ident::new("str").with_span(span));
            Some((Expr::String(s.clone(), ty).with_span(span), i + 1))
        },
        Token::True => Some((Expr::Bool(true).with_span(span), i + 1)),
        Token::False => Some((Expr::Bool(false).with_span(span), i + 1)),
        Token::Colon => match ident_parser(toks, i + 1) {
            Some(id) => {
                let at = id.span;
                Some((Expr::Atom(id.inner.0).with_span(at), i + 2))
            },
            None => None,
        },
        _ => None,
    }
}

/// The constant `[pub] const NAME = literal` at `i`, and where it ends.
pub open spec fn const_at(ts: Toks, i: nat) -> Option<(Spanned<ConstDeclV>, nat)> {
    let (vis, a) = machine::visibility_at(ts, i);
    if helpers::sign_is(ts, a, Sign::Const) {
        match helpers::ident_in(ts, a + 1) {
            Some(ident) => if helpers::sign_is(ts, a + 2, Sign::Eq) {
                match literal_at(ts, a + 3) {
                    Some((value, j)) => Some(
                        (
                            Spanned {
                                inner: ConstDeclV { vis, ident, value },
                                span: helpers::span_over(ts, i, j),
                            },
                            j,
                        ),
                    ),
                    None => None,
                }
            } else {
                None
            },
            None => None,
        }
    } else {
        None
    }
}

/// Reads a constant.
pub fn const_item(toks: &TokenInput, i: usize) -> (r: Option<(Spanned<ConstDecl>, usize)>)
    requires
        i <= toks@.len(),
    ensures
        match r {
            Some((d, j)) => {
                &&& const_at(token::tokens_view(toks@), i as nat) == Some((d.deep_view(), j as nat))
                &&& i < j <= toks@.len()
            },
            None => const_at(token::tokens_view(toks@), i as nat) is None,
        },
{
    let (vis, a) = visibility(toks, i);
    if !next_is(toks, a, Sign::Const) {
        return None;
    }
    let ident = match ident_parser(toks, a + 1) {
        Some(id) => id,
        None => {
            return None;
        },
    };
    if !next_is(toks, a + 2, Sign::Eq) {
        return None;
    }
    match read_literal(toks, a + 3) {
        Some((value, j)) => {
            let span = span_from(toks, i, j);
            Some((ConstDecl::new(vis, ident, value).with_span(span), j))
        },
        None => None,
    }
}

} // verus!
