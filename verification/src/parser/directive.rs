//! Directives.

use vstd::prelude::*;

use crate::api::ast;
use crate::api::ast::{Directive, DirectiveV, Ident};
use crate::api::token;
use crate::api::token::Sign;
use crate::parser::expr::type_expr;
use crate::parser::helpers;
use crate::parser::helpers::{
    ident_parser, next_is, next_parens, next_str, only, span_from, Rule, TokenInput, Toks,
};
use crate::span::{SpanWrap, Spanned};
use crate::text::Text;

verus! {

/// The arguments `key="value"` of a directive.
pub struct KvRule;

impl Rule for KvRule {
    type Out = (Spanned<Ident>, Spanned<String>);

    open spec fn at(ts: Toks, i: nat) -> Option<((Spanned<Text>, Spanned<Text>), nat)> {
        match helpers::ident_in(ts, i) {
            Some(key) => if helpers::sign_is(ts, i + 1, Sign::Eq) {
                match helpers::str_in(ts, i + 2) {
                    Some(value) => Some(((key, value), i + 3)),
                    None => None,
                }
            } else {
                None
            },
            None => None,
        }
    }

    fn read(toks: &TokenInput, i: usize) -> (r: Option<
        ((Spanned<Ident>, Spanned<String>), usize),
    >) {
        match ident_parser(toks, i) {
            Some(key) => if next_is(toks, i + 1, Sign::Eq) {
                match next_str(toks, i + 2) {
                    Some(value) => {
                        let text: String = value.inner.0;
                        Some(((key, Spanned { inner: text, span: value.span }), i + 3))
                    },
                    None => None,
                }
            } else {
                None
            },
            None => None,
        }
    }
}

/// The directive with the arguments in the parentheses that may stand at
/// `i`: `key="value"` pairs if they are such, types otherwise.
pub open spec fn arguments(ts: Toks, i: nat, name: Spanned<Text>) -> (DirectiveV, nat) {
    match pairs(ts, i) {
        Some(kv_args) => (DirectiveV { name, args: Seq::empty(), kv_args }, i + 1),
        None => match helpers::parens_in(ts, i) {
            Some(inside) => match type_expr::types_all(inside) {
                Some(args) => (DirectiveV { name, args, kv_args: Seq::empty() }, i + 1),
                None => (DirectiveV { name, args: Seq::empty(), kv_args: Seq::empty() }, i),
            },
            None => (DirectiveV { name, args: Seq::empty(), kv_args: Seq::empty() }, i),
        },
    }
}

/// The pairs in the parentheses at `i`, at least one.
pub open spec fn pairs(ts: Toks, i: nat) -> Option<Seq<(Spanned<Text>, Spanned<Text>)>> {
    match helpers::parens_in(ts, i) {
        Some(inside) => match helpers::all_of::<KvRule>(inside) {
            Some(kv) => if kv.len() > 0 {
                Some(kv)
            } else {
                None
            },
            None => None,
        },
        None => None,
    }
}

/// The directive `@name`, `@name(types)` or `@name(key="value")` at `i`, and
/// where it ends.
pub open spec fn directive_at(ts: Toks, i: nat) -> Option<(Spanned<DirectiveV>, nat)> {
    if helpers::sign_is(ts, i, Sign::At) {
        match helpers::ident_in(ts, i + 1) {
            Some(name) => {
                let (d, j) = arguments(ts, i + 2, name);
                Some((Spanned { inner: d, span: helpers::span_over(ts, i, j) }, j))
            },
            None => None,
        }
    } else {
        None
    }
}

fn read_arguments(toks: &TokenInput, i: usize, name: Spanned<Ident>) -> (r: (Directive, usize))
    requires
        i <= toks@.len(),
    ensures
        arguments(token::tokens_view(toks@), i as nat, name.deep_view()) == (
            r.0.deep_view(),
            r.1 as nat,
        ),
        i <= r.1 <= toks@.len(),
{
    broadcast use ast::types_view_is_deep_view;

    if let Some(inside) = next_parens(toks, i) {
        if let Some(kv) = only::<KvRule>(inside) {
            if kv.len() > 0 {
                let ghost kvs = kv.deep_view();
                let d = Directive::with_kv(name, kv);
                proof {
                    assert(d.deep_view().kv_args =~= kvs);
                    assert(d.deep_view().args =~= Seq::empty());
                }
                return (d, i + 1);
            }
        }
        if let Some(args) = type_expr::only_types(inside) {
            let d = Directive::new(name, args);
            proof {
                assert(d.deep_view().kv_args =~= Seq::empty());
            }
            return (d, i + 1);
        }
    }
    let d = Directive::new(name, Vec::new());
    proof {
        assert(d.deep_view().kv_args =~= Seq::empty());
        assert(d.deep_view().args =~= Seq::empty());
    }
    (d, i)
}

/// Reads a directive.
pub fn directive(toks: &TokenInput, i: usize) -> (r: Option<(Spanned<Directive>, usize)>)
    ensures
        match r {
            Some((d, j)) => {
                &&& directive_at(token::tokens_view(toks@), i as nat) == Some(
                    (d.deep_view(), j as nat),
                )
                &&& i < j <= toks@.len()
            },
            None => directive_at(token::tokens_view(toks@), i as nat) is None,
        },
{
    if !next_is(toks, i, Sign::At) {
        return None;
    }
    match ident_parser(toks, i + 1) {
        Some(name) => {
            let (d, j) = read_arguments(toks, i + 2, name);
            let span = span_from(toks, i, j);
            Some((d.with_span(span), j))
        },
        None => None,
    }
}

} // verus!
