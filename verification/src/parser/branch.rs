//! Branches of machines.

use vstd::prelude::*;

use crate::api::ast;
use crate::api::ast::{Branch, BranchV, TypeV};
use crate::api::expr::HandlerV;
use crate::api::token;
use crate::api::token::Sign;
use crate::parser::expr::{grammar, label, only_exprs, type_expr};
use crate::parser::helpers;
use crate::parser::helpers::{next_braces, next_is, repeated, span_from, TokenInput, Toks};
use crate::parser::pattern::PatternRule;
use crate::span::{SpanWrap, Spanned};

verus! {

/// The annotation `ret <type>` that may stand at `i`, and where it ends.
pub open spec fn ret_at(ts: Toks, i: nat) -> (Option<Spanned<TypeV>>, nat) {
    if helpers::sign_is(ts, i, Sign::Ret) {
        match type_expr::type_at(ts, i + 1) {
            Some((ty, j)) => (Some(ty), j),
            None => (None, i),
        }
    } else {
        (None, i)
    }
}

/// The branch `[@label] pattern+ -> [ret type] { body }` at `i`, and where it
/// ends.
pub open spec fn branch_at(ts: Toks, i: nat) -> Option<(Spanned<BranchV>, nat)> {
    let (label, a) = grammar::label_at(ts, i);
    let (patterns, b) = helpers::many::<PatternRule>(ts, a);
    if patterns.len() > 0 && helpers::sign_is(ts, b, Sign::Arrow) {
        let (ret_ty, c) = ret_at(ts, b + 1);
        match helpers::braces_in(ts, c) {
            Some(inside) => match grammar::exprs_all(inside) {
                Some(body) => Some(
                    (
                        Spanned {
                            inner: BranchV { head: HandlerV { label, patterns, ret_ty }, body },
                            span: helpers::span_over(ts, i, c + 1),
                        },
                        c + 1,
                    ),
                ),
                None => None,
            },
            None => None,
        }
    } else {
        None
    }
}

pub fn read_ret(toks: &TokenInput, i: usize) -> (r: (Option<Spanned<ast::Type>>, usize))
    requires
        i <= toks@.len(),
    ensures
        ret_at(token::tokens_view(toks@), i as nat) == (r.0.deep_view(), r.1 as nat),
        i <= r.1 <= toks@.len(),
{
    if next_is(toks, i, Sign::Ret) {
        match type_expr::type_expr(toks, i + 1) {
            Some((ty, j)) => (Some(ty), j),
            None => (None, i),
        }
    } else {
        (None, i)
    }
}

/// Reads a branch.
pub fn branch(toks: &TokenInput, i: usize) -> (r: Option<(Spanned<Branch>, usize)>)
    requires
        i <= toks@.len(),
    ensures
        match r {
            Some((b, j)) => {
                &&& branch_at(token::tokens_view(toks@), i as nat) == Some(
                    (b.deep_view(), j as nat),
                )
                &&& i < j <= toks@.len()
            },
            None => branch_at(token::tokens_view(toks@), i as nat) is None,
        },
{
    let (label, a) = label(toks, i);
    let (patterns, b) = repeated::<PatternRule>(toks, a);
    if patterns.len() == 0 || !next_is(toks, b, Sign::Arrow) {
        return None;
    }
    let (ret_ty, c) = read_ret(toks, b + 1);
    match next_braces(toks, c) {
        Some(inside) => match only_exprs(inside) {
            Some(body) => {
                let span = span_from(toks, i, c + 1);
                proof {
                    assert(ast::patterns_view(patterns@) =~= patterns.deep_view());
                }
                Some((Branch::new(label, patterns, ret_ty, body).with_span(span), c + 1))
            },
            None => None,
        },
        None => None,
    }
}

} // verus!
