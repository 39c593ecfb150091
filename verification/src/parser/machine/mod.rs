//! Machines.

use vstd::prelude::*;

use crate::api::ast;
use crate::api::ast::{Machine, MachineItem, MachineItemV, MachineV};
use crate::api::token;
use crate::api::token::Sign;
use crate::parser::branch::branch;
use crate::parser::branch;
use crate::parser::helpers;
use crate::parser::helpers::{
    ident_parser, next_braces, next_is, next_parens, next_squares, only, only_idents, span_from,
    type_param_bounds_body, Generics, GenericsV, Rule, TokenInput, Toks,
};
use crate::parser::machine::field_decl::field_decl;
use crate::span::{SpanWrap, Spanned};

pub mod field_decl;

verus! {

/// The fields and branches of a machine.
pub struct ItemRule;

impl Rule for ItemRule {
    type Out = Spanned<MachineItem>;

    /// A field if there is one (`.` behind the label), otherwise a branch.
    open spec fn at(ts: Toks, i: nat) -> Option<(Spanned<MachineItemV>, nat)> {
        match field_decl::field_decl_at(ts, i) {
            Some((f, j)) => Some(
                (Spanned { inner: MachineItemV::Field(f.inner), span: f.span }, j),
            ),
            None => match branch::branch_at(ts, i) {
                Some((b, j)) => Some(
                    (Spanned { inner: MachineItemV::Branch(b.inner), span: b.span }, j),
                ),
                None => None,
            },
        }
    }

    fn read(toks: &TokenInput, i: usize) -> (r: Option<(Spanned<MachineItem>, usize)>) {
        if i > toks.len() {
            return None;
        }
        match field_decl(toks, i) {
            Some((f, j)) => Some((MachineItem::Field(f.inner).with_span(f.span), j)),
            None => match branch(toks, i) {
                Some((b, j)) => Some((MachineItem::Branch(b.inner).with_span(b.span), j)),
                None => None,
            },
        }
    }
}

/// Whether `pub` stands at `i`, and where it ends.
pub open spec fn visibility_at(ts: Toks, i: nat) -> (bool, nat) {
    if helpers::sign_is(ts, i, Sign::Pub) {
        (true, i + 1)
    } else {
        (false, i)
    }
}

/// The type parameters that may stand at `i`, `[T: Eq U]` or `(T U)`, and
/// where they end.
pub open spec fn generics_at(ts: Toks, i: nat) -> (GenericsV, nat) {
    match bracketed(ts, i) {
        Some(g) => (g, i + 1),
        None => match called(ts, i) {
            Some(ids) => ((ids, Seq::empty()), i + 1),
            None => ((Seq::empty(), Seq::empty()), i),
        },
    }
}

pub open spec fn bracketed(ts: Toks, i: nat) -> Option<GenericsV> {
    match helpers::squares_in(ts, i) {
        Some(inside) => helpers::generics_all(inside),
        None => None,
    }
}

pub open spec fn called(ts: Toks, i: nat) -> Option<Seq<Spanned<crate::text::Text>>> {
    match helpers::parens_in(ts, i) {
        Some(inside) => helpers::idents_all(inside),
        None => None,
    }
}

/// The machine `[pub] name[generics] is { item* }` at `i`, and where it ends.
pub open spec fn machine_at(ts: Toks, i: nat) -> Option<(Spanned<MachineV>, nat)> {
    let (vis, a) = visibility_at(ts, i);
    match helpers::ident_in(ts, a) {
        Some(ident) => {
            let ((generics, bounds), b) = generics_at(ts, a + 1);
            match is_block(ts, b) {
                Some(inside) => match helpers::all_of::<ItemRule>(inside) {
                    Some(items) => Some(
                        (
                            Spanned {
                                inner: MachineV {
                                    attrs: Seq::empty(),
                                    vis,
                                    ident,
                                    generics,
                                    bounds,
                                    items,
                                },
                                span: helpers::span_over(ts, i, b + 2),
                            },
                            b + 2,
                        ),
                    ),
                    None => None,
                },
                None => None,
            }
        },
        None => None,
    }
}

/// What is inside the braces of `is { ... }` at `i`.
pub open spec fn is_block(ts: Toks, i: nat) -> Option<Toks> {
    if helpers::sign_is(ts, i, Sign::Is) {
        helpers::braces_in(ts, i + 1)
    } else {
        None
    }
}

/// Reads `pub`, if it is there.
pub fn visibility(toks: &TokenInput, i: usize) -> (r: (bool, usize))
    requires
        i <= toks@.len(),
    ensures
        visibility_at(token::tokens_view(toks@), i as nat) == (r.0, r.1 as nat),
        i <= r.1 <= toks@.len(),
{
    if next_is(toks, i, Sign::Pub) {
        (true, i + 1)
    } else {
        (false, i)
    }
}

/// Reads `is {` and gives what is inside the braces.
pub fn block<'t>(toks: &'t TokenInput, i: usize) -> (r: Option<&'t TokenInput>)
    ensures
        match r {
            Some(v) => {
                &&& is_block(token::tokens_view(toks@), i as nat) == Some(token::tokens_view(v@))
                &&& i + 1 < toks@.len() <= usize::MAX
            },
            None => is_block(token::tokens_view(toks@), i as nat) is None,
        },
{
    if next_is(toks, i, Sign::Is) {
        next_braces(toks, i + 1)
    } else {
        None
    }
}

pub fn read_generics(toks: &TokenInput, i: usize) -> (r: (Generics, usize))
    requires
        i <= toks@.len(),
    ensures
        generics_at(token::tokens_view(toks@), i as nat) == (
            ((r.0).0.deep_view(), (r.0).1.deep_view()),
            r.1 as nat,
        ),
        i <= r.1 <= toks@.len(),
{
    let none: Vec<(Spanned<ast::Ident>, Vec<Spanned<ast::Ident>>)> = Vec::new();
    proof {
        assert(none.deep_view() =~= Seq::empty());
    }
    if let Some(inside) = next_squares(toks, i) {
        if let Some(g) = type_param_bounds_body(inside) {
            return (g, i + 1);
        }
    }
    if let Some(inside) = next_parens(toks, i) {
        if let Some(ids) = only_idents(inside) {
            return ((ids, none), i + 1);
        }
    }
    let ids: Vec<Spanned<ast::Ident>> = Vec::new();
    proof {
        assert(ids.deep_view() =~= Seq::empty());
    }
    ((ids, none), i)
}

/// Reads a machine.
pub fn machine(toks: &TokenInput, i: usize) -> (r: Option<(Spanned<Machine>, usize)>)
    requires
        i <= toks@.len(),
    ensures
        match r {
            Some((m, j)) => {
                &&& machine_at(token::tokens_view(toks@), i as nat) == Some(
                    (m.deep_view(), j as nat),
                )
                &&& i < j <= toks@.len()
            },
            None => machine_at(token::tokens_view(toks@), i as nat) is None,
        },
{
    let (vis, a) = visibility(toks, i);
    let ident = match ident_parser(toks, a) {
        Some(id) => id,
        None => {
            return None;
        },
    };
    let ((generics, bounds), b) = read_generics(toks, a + 1);
    match block(toks, b) {
        Some(inside) => match only::<ItemRule>(inside) {
            Some(items) => {
                let span = span_from(toks, i, b + 2);
                let m = Machine::with_bounds(Vec::new(), vis, ident, generics, bounds, items);
                proof {
                    assert(m.deep_view().attrs =~= Seq::empty());
                }
                Some((m.with_span(span), b + 2))
            },
            None => None,
        },
        None => None,
    }
}

} // verus!
