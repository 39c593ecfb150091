//! The parser: from tokens to a syntax tree.

use vstd::prelude::*;

use crate::api::ast::{Item, ItemV};
use crate::api::token;
use crate::error_handle::{SyntaxError, SyntaxErrorV};
use crate::parser::const_item::const_item;
use crate::parser::directive::directive;
use crate::parser::enum_decl::enum_decl;
use crate::parser::helpers::{repeated, Rule, TokenInput, Toks};
use crate::parser::import::import;
use crate::parser::machine::machine;
use crate::parser::proto::{impl_decl, proto_decl};
use crate::parser::record::record;
use crate::parser::stuck::find_in_item;
use crate::span::{SpanWrap, Spanned};
use crate::text::cat3;

pub mod branch;
pub mod const_item;
pub mod directive;
pub mod enum_decl;
pub mod expr;
pub mod helpers;
pub mod import;
pub mod machine;
pub mod pattern;
pub mod proto;
pub mod record;
pub mod scan;
pub mod spelled;
pub mod stuck;

verus! {

/// The items of a source file.
///
/// Directives are items of their own because imports may stand between them
/// and the machine they are about.
pub struct TopItem;

impl Rule for TopItem {
    type Out = Spanned<Item>;

    /// The first of these that fits: an import, a directive, a constant, a
    /// proto, an enum, a record, a machine, or an assertion that a type
    /// satisfies protos.
    open spec fn at(ts: Toks, i: nat) -> Option<(Spanned<ItemV>, nat)> {
        match import::import_at(ts, i) {
            Some((x, j)) => Some((Spanned { inner: ItemV::Import(x), span: x.span }, j)),
            None => match directive::directive_at(ts, i) {
                Some((x, j)) => Some((Spanned { inner: ItemV::Directive(x), span: x.span }, j)),
                None => match const_item::const_at(ts, i) {
                    Some((x, j)) => Some((Spanned { inner: ItemV::Const(x), span: x.span }, j)),
                    None => match proto::proto_at(ts, i) {
                        Some((x, j)) => Some((Spanned { inner: ItemV::Proto(x), span: x.span }, j)),
                        None => declaration_at(ts, i),
                    },
                },
            },
        }
    }

    fn read(toks: &TokenInput, i: usize) -> (r: Option<(Spanned<Item>, usize)>) {
        if let Some((x, j)) = import(toks, i) {
            let span = x.span;
            return Some((Item::Import(x).with_span(span), j));
        }
        if let Some((x, j)) = directive(toks, i) {
            let span = x.span;
            return Some((Item::Directive(x).with_span(span), j));
        }
        if i > toks.len() {
            return None;
        }
        if let Some((x, j)) = const_item(toks, i) {
            let span = x.span;
            return Some((Item::Const(x).with_span(span), j));
        }
        if let Some((x, j)) = proto_decl(toks, i) {
            let span = x.span;
            return Some((Item::Proto(x).with_span(span), j));
        }
        declaration(toks, i)
    }
}

/// The enum, record, machine or assertion at `i`.  An enum is tried before a
/// record, and a record before a machine: each also fits the beginning of
/// the next.
pub open spec fn declaration_at(ts: Toks, i: nat) -> Option<(Spanned<ItemV>, nat)> {
    match enum_decl::enum_at(ts, i) {
        Some((x, j)) => Some((Spanned { inner: ItemV::Enum(x), span: x.span }, j)),
        None => match record::record_at(ts, i) {
            Some((x, j)) => Some((Spanned { inner: ItemV::Record(x), span: x.span }, j)),
            None => match machine::machine_at(ts, i) {
                Some((x, j)) => Some((Spanned { inner: ItemV::Machine(x), span: x.span }, j)),
                None => match proto::impl_at(ts, i) {
                    Some((x, j)) => Some((Spanned { inner: ItemV::Impl(x), span: x.span }, j)),
                    None => None,
                },
            },
        },
    }
}

fn declaration(toks: &TokenInput, i: usize) -> (r: Option<(Spanned<Item>, usize)>)
    requires
        i <= toks@.len(),
    ensures
        match r {
            Some((d, j)) => {
                &&& declaration_at(token::tokens_view(toks@), i as nat) == Some(
                    (d.deep_view(), j as nat),
                )
                &&& i < j <= toks@.len()
            },
            None => declaration_at(token::tokens_view(toks@), i as nat) is None,
        },
{
    if let Some((x, j)) = enum_decl(toks, i) {
        let span = x.span;
        return Some((Item::Enum(x).with_span(span), j));
    }
    if let Some((x, j)) = record(toks, i) {
        let span = x.span;
        return Some((Item::Record(x).with_span(span), j));
    }
    if let Some((x, j)) = machine(toks, i) {
        let span = x.span;
        return Some((Item::Machine(x).with_span(span), j));
    }
    if let Some((x, j)) = impl_decl(toks, i) {
        let span = x.span;
        return Some((Item::Impl(x).with_span(span), j));
    }
    None
}

/// The items that the tokens of a source file consist of.
pub open spec fn parsed(ts: Toks) -> Option<Seq<Spanned<ItemV>>> {
    helpers::all_of::<TopItem>(ts)
}

/// The complaint about the token at which reading got stuck, in the first
/// item that cannot be read.
pub open spec fn parse_error(ts: Toks) -> SyntaxErrorV {
    let t = stuck::in_item(ts, helpers::many::<TopItem>(ts, 0).1);
    SyntaxErrorV {
        reason: "found '"@ + token::token_text(t.inner) + "' expected something else"@,
        span: t.span,
        contexts: Seq::empty(),
    }
}

/// Reads the tokens of a source file.
pub fn program(toks: &TokenInput) -> (r: Result<Vec<Spanned<Item>>, Vec<SyntaxError>>)
    ensures
        match r {
            Ok(items) => parsed(toks.deep_view()) == Some(items.deep_view()),
            Err(es) => parsed(toks.deep_view()) is None && es.deep_view() == seq![
                parse_error(toks.deep_view()),
            ],
        },
{
    broadcast use token::tokens_view_is_deep_view;

    let (items, end) = repeated::<TopItem>(toks, 0);
    if end == toks.len() {
        return Ok(items);
    }
    let found = find_in_item(toks, end);
    let shown = found.inner.to_string();
    let e = SyntaxError {
        reason: cat3("found '", shown.as_str(), "' expected something else"),
        span: found.span,
        contexts: Vec::new(),
    };
    let mut es: Vec<SyntaxError> = Vec::new();
    proof {
        assert(e.deep_view() =~= parse_error(toks.deep_view()));
    }
    es.push(e);
    proof {
        assert(es.deep_view() =~= seq![parse_error(toks.deep_view())]);
    }
    Err(es)
}

} // verus!
