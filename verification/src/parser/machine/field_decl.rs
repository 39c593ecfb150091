//! Data fields of machines.

use vstd::prelude::*;

use crate::api::ast::{Field, FieldV, Ident};
use crate::api::token;
use crate::api::token::Sign;
use crate::parser::expr::type_expr;
use crate::parser::helpers;
use crate::parser::helpers::{ident_parser, next_is, span_from, TokenInput, Toks};
use crate::span::{SpanWrap, Spanned};
use crate::text::Text;

verus! {

/// The name that may stand at `i`, and where it ends.
pub open spec fn name_at(ts: Toks, i: nat) -> (Option<Spanned<Text>>, nat) {
    match helpers::ident_in(ts, i) {
        Some(id) => (Some(id), i + 1),
        None => (None, i),
    }
}

/// The field `@ok.T`, `@.raw_box(T)` or `@.{ str }` at `i`, and where it ends.
pub open spec fn field_decl_at(ts: Toks, i: nat) -> Option<(Spanned<FieldV>, nat)> {
    if helpers::sign_is(ts, i, Sign::At) {
        let (label, a) = name_at(ts, i + 1);
        if helpers::sign_is(ts, a, Sign::Dot) {
            match type_expr::type_at(ts, a + 1) {
                Some((ty, j)) => Some(
                    (
                        Spanned {
                            inner: FieldV { label, ty },
                            span: helpers::span_over(ts, i, j),
                        },
                        j,
                    ),
                ),
                None => None,
            }
        } else {
            None
        }
    } else {
        None
    }
}

/// Reads a field declaration.
pub fn field_decl(toks: &TokenInput, i: usize) -> (r: Option<(Spanned<Field>, usize)>)
    ensures
        match r {
            Some((f, j)) => {
                &&& field_decl_at(token::tokens_view(toks@), i as nat) == Some(
                    (f.deep_view(), j as nat),
                )
                &&& i < j <= toks@.len()
            },
            None => field_decl_at(token::tokens_view(toks@), i as nat) is None,
        },
{
    if !next_is(toks, i, Sign::At) {
        return None;
    }
    let (label, a): (Option<Spanned<Ident>>, usize) = match ident_parser(toks, i + 1) {
        Some(id) => (Some(id), i + 2),
        None => (None, i + 1),
    };
    if !next_is(toks, a, Sign::Dot) {
        return None;
    }
    match type_expr::type_expr(toks, a + 1) {
        Some((ty, j)) => Some((Field::new(label, ty).with_span(span_from(toks, i, j)), j)),
        None => None,
    }
}

} // verus!
