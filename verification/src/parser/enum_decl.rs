//! Enum declarations.

use vstd::prelude::*;

use crate::api::ast;
use crate::api::ast::{
    EnumDecl, EnumDeclV, Ident, Type, TypeV, Variant, VariantPayload, VariantPayloadV, VariantV,
};
use crate::api::token;
use crate::api::token::Sign;
use crate::parser::expr::type_expr;
use crate::parser::helpers;
use crate::parser::helpers::{
    ident_parser, next_braces, next_is, next_parens, next_word, only, span_from, Rule, TokenInput,
    Toks,
};
use crate::parser::record;
use crate::parser::record::bracket_params;
use crate::span::{SpanWrap, Spanned};
use crate::text::Text;

verus! {

/// The fields `name Type` of a payload.
pub struct PayloadField;

impl Rule for PayloadField {
    type Out = (Spanned<Ident>, Spanned<Type>);

    open spec fn at(ts: Toks, i: nat) -> Option<((Spanned<Text>, Spanned<TypeV>), nat)> {
        match helpers::ident_in(ts, i) {
            Some(name) => match type_expr::type_at(ts, i + 1) {
                Some((ty, j)) => Some(((name, ty), j)),
                None => None,
            },
            None => None,
        }
    }

    fn read(toks: &TokenInput, i: usize) -> (r: Option<((Spanned<Ident>, Spanned<Type>), usize)>) {
        match ident_parser(toks, i) {
            Some(name) => match type_expr::type_expr(toks, i + 1) {
                Some((ty, j)) => Some(((name, ty), j)),
                None => None,
            },
            None => None,
        }
    }
}

/// The types of a tuple payload `(T U)` at `i`, at least one.
pub open spec fn tuple_payload(ts: Toks, i: nat) -> Option<VariantPayloadV> {
    match helpers::parens_in(ts, i) {
        Some(inside) => match type_expr::types_all(inside) {
            Some(tys) => if tys.len() > 0 {
                Some(VariantPayloadV::Tuple(tys))
            } else {
                None
            },
            None => None,
        },
        None => None,
    }
}

/// The fields of a record payload `{ from i64 }` at `i`, at least one.
pub open spec fn record_payload(ts: Toks, i: nat) -> Option<VariantPayloadV> {
    match helpers::braces_in(ts, i) {
        Some(inside) => match helpers::all_of::<PayloadField>(inside) {
            Some(fs) => if fs.len() > 0 {
                Some(VariantPayloadV::Record(fs))
            } else {
                None
            },
            None => None,
        },
        None => None,
    }
}

/// The payload that may stand at `i`, and where it ends.
pub open spec fn payload_at(ts: Toks, i: nat) -> (VariantPayloadV, nat) {
    match tuple_payload(ts, i) {
        Some(p) => (p, i + 1),
        None => match record_payload(ts, i) {
            Some(p) => (p, i + 1),
            None => (VariantPayloadV::NoPayload, i),
        },
    }
}

fn read_payload(toks: &TokenInput, i: usize) -> (r: (VariantPayload, usize))
    requires
        i <= toks@.len(),
    ensures
        payload_at(token::tokens_view(toks@), i as nat) == (r.0.deep_view(), r.1 as nat),
        i <= r.1 <= toks@.len(),
{
    broadcast use ast::types_view_is_deep_view;

    if let Some(inside) = next_parens(toks, i) {
        if let Some(tys) = type_expr::only_types(inside) {
            if tys.len() > 0 {
                return (VariantPayload::Tuple(tys), i + 1);
            }
        }
    }
    if let Some(inside) = next_braces(toks, i) {
        if let Some(fs) = only::<PayloadField>(inside) {
            if fs.len() > 0 {
                return (VariantPayload::Record(fs), i + 1);
            }
        }
    }
    (VariantPayload::NoPayload, i)
}

/// The variants of an enum: a name and an optional payload.
pub struct VariantRule;

impl Rule for VariantRule {
    type Out = Spanned<Variant>;

    open spec fn at(ts: Toks, i: nat) -> Option<(Spanned<VariantV>, nat)> {
        match helpers::ident_in(ts, i) {
            Some(name) => {
                let (payload, j) = payload_at(ts, i + 1);
                Some(
                    (
                        Spanned {
                            inner: VariantV { name, payload },
                            span: helpers::span_over(ts, i, j),
                        },
                        j,
                    ),
                )
            },
            None => None,
        }
    }

    fn read(toks: &TokenInput, i: usize) -> (r: Option<(Spanned<Variant>, usize)>) {
        match ident_parser(toks, i) {
            Some(name) => {
                let (payload, j) = read_payload(toks, i + 1);
                let span = span_from(toks, i, j);
                Some((Variant { name, payload }.with_span(span), j))
            },
            None => None,
        }
    }
}

/// The type parameters `[T U]` that may stand at `i`, and where they end.
pub open spec fn params_at(ts: Toks, i: nat) -> (Seq<Spanned<Text>>, nat) {
    match record::square_params(ts, i) {
        Some(ids) => (ids, i + 1),
        None => (Seq::empty(), i),
    }
}

/// The enum `Name[params] is enum { variant+ }` at `i`, and where it ends.
pub open spec fn enum_at(ts: Toks, i: nat) -> Option<(Spanned<EnumDeclV>, nat)> {
    match helpers::ident_in(ts, i) {
        Some(name) => {
            let (type_params, b) = params_at(ts, i + 1);
            if helpers::sign_is(ts, b, Sign::Is) && helpers::word_is(ts, b + 1, "enum"@) {
                match helpers::braces_in(ts, b + 2) {
                    Some(inside) => match helpers::all_of::<VariantRule>(inside) {
                        Some(variants) => if variants.len() > 0 {
                            Some(
                                (
                                    Spanned {
                                        inner: EnumDeclV { name, type_params, variants },
                                        span: helpers::span_over(ts, i, b + 3),
                                    },
                                    b + 3,
                                ),
                            )
                        } else {
                            None
                        },
                        None => None,
                    },
                    None => None,
                }
            } else {
                None
            }
        },
        None => None,
    }
}

/// Reads an enum declaration.
pub fn enum_decl(toks: &TokenInput, i: usize) -> (r: Option<(Spanned<EnumDecl>, usize)>)
    ensures
        match r {
            Some((d, j)) => {
                &&& enum_at(token::tokens_view(toks@), i as nat) == Some((d.deep_view(), j as nat))
                &&& i < j <= toks@.len()
            },
            None => enum_at(token::tokens_view(toks@), i as nat) is None,
        },
{
    let name = match ident_parser(toks, i) {
        Some(id) => id,
        None => {
            return None;
        },
    };
    let (type_params, b): (Vec<Spanned<Ident>>, usize) = match bracket_params(toks, i + 1) {
        Some(ids) => (ids, i + 2),
        None => (Vec::new(), i + 1),
    };
    proof {
        assert(params_at(token::tokens_view(toks@), (i + 1) as nat).0 =~= type_params.deep_view());
    }
    if !next_is(toks, b, Sign::Is) || !next_word(toks, b + 1, "enum") {
        return None;
    }
    match next_braces(toks, b + 2) {
        Some(inside) => match only::<VariantRule>(inside) {
            Some(variants) => if variants.len() > 0 {
                let span = span_from(toks, i, b + 3);
                Some((EnumDecl { name, type_params, variants }.with_span(span), b + 3))
            } else {
                None
            },
            None => None,
        },
        None => None,
    }
}

} // verus!
