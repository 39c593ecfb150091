//! Proto declarations, and assertions that a type satisfies protos.

use vstd::prelude::*;

use crate::api::ast;
use crate::api::ast::{
    Ident, ImplDecl, ImplDeclV, MethodSig, MethodSigV, ProtoDecl, ProtoDeclV, Type, TypeV,
};
use crate::api::token;
use crate::api::token::Sign;
use crate::parser::expr::type_expr;
use crate::parser::helpers;
use crate::parser::helpers::{
    ident_parser, idents, next_braces, next_is, next_word, only, repeated, span_from, Rule,
    TokenInput, Toks,
};
use crate::parser::machine;
use crate::parser::machine::block;
use crate::span::{SpanWrap, Spanned};
use crate::text::{same, Text};

verus! {

/// The parameter types and the optional `-> type` that the tokens consist of.
pub open spec fn signature(ts: Toks) -> Option<(Seq<Spanned<TypeV>>, Option<Spanned<TypeV>>)> {
    let (params, k) = type_expr::types_from(ts, 0);
    let (ret, end) = result_at(ts, k);
    if end == ts.len() {
        Some((params, ret))
    } else {
        None
    }
}

/// The `-> type` that may stand at `i`, and where it ends.
pub open spec fn result_at(ts: Toks, i: nat) -> (Option<Spanned<TypeV>>, nat) {
    if helpers::sign_is(ts, i, Sign::Arrow) {
        match type_expr::type_at(ts, i + 1) {
            Some((ty, j)) => (Some(ty), j),
            None => (None, i),
        }
    } else {
        (None, i)
    }
}

fn read_signature(toks: &TokenInput) -> (r: Option<(Vec<Spanned<Type>>, Option<Spanned<Type>>)>)
    ensures
        match r {
            Some((params, ret)) => signature(token::tokens_view(toks@)) == Some(
                (params.deep_view(), ret.deep_view()),
            ),
            None => signature(token::tokens_view(toks@)) is None,
        },
{
    broadcast use ast::types_view_is_deep_view;

    let (params, k) = type_expr::types(toks, 0);
    let (ret, end): (Option<Spanned<Type>>, usize) = if next_is(toks, k, Sign::Arrow) {
        match type_expr::type_expr(toks, k + 1) {
            Some((ty, j)) => (Some(ty), j),
            None => (None, k),
        }
    } else {
        (None, k)
    };
    if end == toks.len() {
        Some((params, ret))
    } else {
        None
    }
}

/// The required methods of a proto: `eq is { Self Self -> bool }`.
pub struct MethodRule;

impl Rule for MethodRule {
    type Out = Spanned<MethodSig>;

    open spec fn at(ts: Toks, i: nat) -> Option<(Spanned<MethodSigV>, nat)> {
        match helpers::ident_in(ts, i) {
            Some(name) => match machine::is_block(ts, i + 1) {
                Some(inside) => match signature(inside) {
                    Some((params, ret)) => Some(
                        (
                            Spanned {
                                inner: MethodSigV { name, params, ret },
                                span: helpers::span_over(ts, i, i + 3),
                            },
                            i + 3,
                        ),
                    ),
                    None => None,
                },
                None => None,
            },
            None => None,
        }
    }

    fn read(toks: &TokenInput, i: usize) -> (r: Option<(Spanned<MethodSig>, usize)>) {
        match ident_parser(toks, i) {
            Some(name) => match block(toks, i + 1) {
                Some(inside) => match read_signature(inside) {
                    Some((params, ret)) => {
                        let span = span_from(toks, i, i + 3);
                        Some((MethodSig { name, params, ret }.with_span(span), i + 3))
                    },
                    None => None,
                },
                None => None,
            },
            None => None,
        }
    }
}

/// The parents `+Name` of a proto.
pub struct ParentRule;

impl Rule for ParentRule {
    type Out = Spanned<Ident>;

    open spec fn at(ts: Toks, i: nat) -> Option<(Spanned<Text>, nat)> {
        if helpers::sign_is(ts, i, Sign::Plus) {
            match helpers::ident_in(ts, i + 1) {
                Some(id) => Some((id, i + 2)),
                None => None,
            }
        } else {
            None
        }
    }

    fn read(toks: &TokenInput, i: usize) -> (r: Option<(Spanned<Ident>, usize)>) {
        if next_is(toks, i, Sign::Plus) {
            match ident_parser(toks, i + 1) {
                Some(id) => Some((id, i + 2)),
                None => None,
            }
        } else {
            None
        }
    }
}

/// The proto `Name is proto (+Parent)* { method* }` at `i`, and where it ends.
pub open spec fn proto_at(ts: Toks, i: nat) -> Option<(Spanned<ProtoDeclV>, nat)> {
    match helpers::ident_in(ts, i) {
        Some(name) => if helpers::sign_is(ts, i + 1, Sign::Is) && helpers::word_is(
            ts,
            i + 2,
            "proto"@,
        ) {
            let (parents, k) = helpers::many::<ParentRule>(ts, i + 3);
            match helpers::braces_in(ts, k) {
                Some(inside) => match helpers::all_of::<MethodRule>(inside) {
                    Some(methods) => Some(
                        (
                            Spanned {
                                inner: ProtoDeclV { name, parents, methods },
                                span: helpers::span_over(ts, i, k + 1),
                            },
                            k + 1,
                        ),
                    ),
                    None => None,
                },
                None => None,
            }
        } else {
            None
        },
        None => None,
    }
}

/// Reads a proto declaration.
pub fn proto_decl(toks: &TokenInput, i: usize) -> (r: Option<(Spanned<ProtoDecl>, usize)>)
    ensures
        match r {
            Some((d, j)) => {
                &&& proto_at(token::tokens_view(toks@), i as nat) == Some((d.deep_view(), j as nat))
                &&& i < j <= toks@.len()
            },
            None => proto_at(token::tokens_view(toks@), i as nat) is None,
        },
{
    let name = match ident_parser(toks, i) {
        Some(id) => id,
        None => {
            return None;
        },
    };
    if !next_is(toks, i + 1, Sign::Is) || !next_word(toks, i + 2, "proto") {
        return None;
    }
    let (parents, k) = repeated::<ParentRule>(toks, i + 3);
    match next_braces(toks, k) {
        Some(inside) => match only::<MethodRule>(inside) {
            Some(methods) => {
                let span = span_from(toks, i, k + 1);
                Some((ProtoDecl { name, parents, methods }.with_span(span), k + 1))
            },
            None => None,
        },
        None => None,
    }
}

/// The assertion `Name is Proto+` at `i`, and where it ends.
pub open spec fn impl_at(ts: Toks, i: nat) -> Option<(Spanned<ImplDeclV>, nat)> {
    match helpers::ident_in(ts, i) {
        Some(ty) => if helpers::sign_is(ts, i + 1, Sign::Is) {
            let (protos, j) = helpers::idents_from(ts, i + 2);
            if protos.len() > 0 {
                Some(
                    (
                        Spanned {
                            inner: ImplDeclV { ty, protos },
                            span: helpers::span_over(ts, i, j),
                        },
                        j,
                    ),
                )
            } else {
                None
            }
        } else {
            None
        },
        None => None,
    }
}

/// Reads an assertion that a type satisfies protos.
pub fn impl_decl(toks: &TokenInput, i: usize) -> (r: Option<(Spanned<ImplDecl>, usize)>)
    ensures
        match r {
            Some((d, j)) => {
                &&& impl_at(token::tokens_view(toks@), i as nat) == Some((d.deep_view(), j as nat))
                &&& i < j <= toks@.len()
            },
            None => impl_at(token::tokens_view(toks@), i as nat) is None,
        },
{
    let ty = match ident_parser(toks, i) {
        Some(id) => id,
        None => {
            return None;
        },
    };
    if !next_is(toks, i + 1, Sign::Is) {
        return None;
    }
    let (protos, j) = idents(toks, i + 2);
    if protos.len() > 0 {
        let span = span_from(toks, i, j);
        Some((ImplDecl { ty, protos }.with_span(span), j))
    } else {
        None
    }
}

/// Whether a name begins a declaration of its own kind behind `is`.
pub fn is_reserved_decl_kw(name: &str) -> (r: bool)
    ensures
        r == (name@ == "enum"@ || name@ == "proto"@),
{
    same(name, "enum") || same(name, "proto")
}

} // verus!
