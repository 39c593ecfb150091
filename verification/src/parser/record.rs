//! Record declarations.

use vstd::prelude::*;

use crate::api::ast::{Ident, RecordDecl, RecordDeclV, RecordField, RecordFieldV};
use crate::api::token;
use crate::api::token::Sign;
use crate::parser::expr::type_expr;
use crate::parser::helpers;
use crate::parser::helpers::{
    ident_parser, idents, next_is, next_squares, only, only_idents, span_from, Rule, TokenInput,
    Toks,
};
use crate::parser::machine;
use crate::parser::machine::{block, visibility};
use crate::span::{SpanWrap, Spanned};
use crate::text::Text;

verus! {

/// The fields `name Type` of a record.
pub struct FieldRule;

impl Rule for FieldRule {
    type Out = Spanned<RecordField>;

    open spec fn at(ts: Toks, i: nat) -> Option<(Spanned<RecordFieldV>, nat)> {
        match helpers::ident_in(ts, i) {
            Some(name) => match type_expr::type_at(ts, i + 1) {
                Some((ty, j)) => Some(
                    (
                        Spanned {
                            inner: RecordFieldV { name, ty },
                            span: helpers::span_over(ts, i, j),
                        },
                        j,
                    ),
                ),
                None => None,
            },
            None => None,
        }
    }

    fn read(toks: &TokenInput, i: usize) -> (r: Option<(Spanned<RecordField>, usize)>) {
        match ident_parser(toks, i) {
            Some(name) => match type_expr::type_expr(toks, i + 1) {
                Some((ty, j)) => {
                    let span = span_from(toks, i, j);
                    Some((RecordField { name, ty }.with_span(span), j))
                },
                None => None,
            },
            None => None,
        }
    }
}

/// The names inside the square brackets at `i`, at least one.
pub open spec fn square_params(ts: Toks, i: nat) -> Option<Seq<Spanned<Text>>> {
    match helpers::squares_in(ts, i) {
        Some(inside) => match helpers::idents_all(inside) {
            Some(ids) => if ids.len() > 0 {
                Some(ids)
            } else {
                None
            },
            None => None,
        },
        None => None,
    }
}

/// The names between `<` and `>` at `i`, at least one, and where they end.
pub open spec fn angle_params(ts: Toks, i: nat) -> Option<(Seq<Spanned<Text>>, nat)> {
    if helpers::sign_is(ts, i, Sign::Less) {
        let (ids, j) = helpers::idents_from(ts, i + 1);
        if ids.len() > 0 && helpers::sign_is(ts, j, Sign::Greater) {
            Some((ids, j + 1))
        } else {
            None
        }
    } else {
        None
    }
}

/// The type parameters `[T U]` or `<T U>` that may stand at `i`, and where
/// they end.
pub open spec fn params_at(ts: Toks, i: nat) -> (Seq<Spanned<Text>>, nat) {
    match square_params(ts, i) {
        Some(ids) => (ids, i + 1),
        None => match angle_params(ts, i) {
            Some((ids, j)) => (ids, j),
            None => (Seq::empty(), i),
        },
    }
}

/// The record `[pub] Name[params] is { field+ }` at `i`, and where it ends.
pub open spec fn record_at(ts: Toks, i: nat) -> Option<(Spanned<RecordDeclV>, nat)> {
    let (vis, a) = machine::visibility_at(ts, i);
    match helpers::ident_in(ts, a) {
        Some(ident) => {
            let (type_params, b) = params_at(ts, a + 1);
            match machine::is_block(ts, b) {
                Some(inside) => match helpers::all_of::<FieldRule>(inside) {
                    Some(fields) => if fields.len() > 0 {
                        Some(
                            (
                                Spanned {
                                    inner: RecordDeclV { vis, ident, type_params, fields },
                                    span: helpers::span_over(ts, i, b + 2),
                                },
                                b + 2,
                            ),
                        )
                    } else {
                        None
                    },
                    None => None,
                },
                None => None,
            }
        },
        None => None,
    }
}

/// Reads a bracketed list of type parameters.
pub fn bracket_params(toks: &TokenInput, i: usize) -> (r: Option<Vec<Spanned<Ident>>>)
    ensures
        match r {
            Some(ids) => {
                &&& square_params(token::tokens_view(toks@), i as nat) == Some(ids.deep_view())
                &&& i < toks@.len() <= usize::MAX
            },
            None => square_params(token::tokens_view(toks@), i as nat) is None,
        },
{
    match next_squares(toks, i) {
        Some(inside) => match only_idents(inside) {
            Some(ids) => if ids.len() > 0 {
                Some(ids)
            } else {
                None
            },
            None => None,
        },
        None => None,
    }
}

fn read_params(toks: &TokenInput, i: usize) -> (r: (Vec<Spanned<Ident>>, usize))
    requires
        i <= toks@.len(),
    ensures
        params_at(token::tokens_view(toks@), i as nat) == (r.0.deep_view(), r.1 as nat),
        i <= r.1 <= toks@.len(),
{
    if let Some(ids) = bracket_params(toks, i) {
        return (ids, i + 1);
    }
    if next_is(toks, i, Sign::Less) {
        let (ids, j) = idents(toks, i + 1);
        if ids.len() > 0 && next_is(toks, j, Sign::Greater) {
            return (ids, j + 1);
        }
    }
    let none: Vec<Spanned<Ident>> = Vec::new();
    proof {
        assert(none.deep_view() =~= Seq::empty());
    }
    (none, i)
}

/// Reads a record declaration.
pub fn record(toks: &TokenInput, i: usize) -> (r: Option<(Spanned<RecordDecl>, usize)>)
    requires
        i <= toks@.len(),
    ensures
        match r {
            Some((d, j)) => {
                &&& record_at(token::tokens_view(toks@), i as nat) == Some(
                    (d.deep_view(), j as nat),
                )
                &&& i < j <= toks@.len()
            },
            None => record_at(token::tokens_view(toks@), i as nat) is None,
        },
{
    let (vis, a) = visibility(toks, i);
    let ident = match ident_parser(toks, a) {
        Some(id) => id,
        None => {
            return None;
        },
    };
    let (type_params, b) = read_params(toks, a + 1);
    match block(toks, b) {
        Some(inside) => match only::<FieldRule>(inside) {
            Some(fields) => if fields.len() > 0 {
                let span = span_from(toks, i, b + 2);
                Some((RecordDecl { vis, ident, type_params, fields }.with_span(span), b + 2))
            } else {
                None
            },
            None => None,
        },
        None => None,
    }
}

} // verus!
