//! Imports.

use vstd::prelude::*;

use crate::api::ast;
use crate::api::ast::{Ident, Import, ImportV};
use crate::api::token;
use crate::api::token::Sign;
use crate::parser::helpers;
use crate::parser::helpers::{
    ident_parser, next_braces, next_is, only, repeated, span_from, Rule, TokenInput, Toks,
};
use crate::span::{SimpleSpan, SpanWrap, Spanned};
use crate::text::Text;

verus! {

/// The part `.name` of an import path.
pub struct DotName;

impl Rule for DotName {
    type Out = Spanned<Ident>;

    open spec fn at(ts: Toks, i: nat) -> Option<(Spanned<Text>, nat)> {
        if helpers::sign_is(ts, i, Sign::Dot) {
            match helpers::ident_in(ts, i + 1) {
                Some(id) => Some((id, i + 2)),
                None => None,
            }
        } else {
            None
        }
    }

    fn read(toks: &TokenInput, i: usize) -> (r: Option<(Spanned<Ident>, usize)>) {
        if next_is(toks, i, Sign::Dot) {
            match ident_parser(toks, i + 1) {
                Some(id) => Some((id, i + 2)),
                None => None,
            }
        } else {
            None
        }
    }
}

/// The alias `as name` that may stand at `i`, and where it ends.
pub open spec fn alias_at(ts: Toks, i: nat) -> (Option<Spanned<Text>>, nat) {
    if helpers::sign_is(ts, i, Sign::As) {
        match helpers::ident_in(ts, i + 1) {
            Some(id) => (Some(id), i + 2),
            None => (None, i),
        }
    } else {
        (None, i)
    }
}

fn read_alias(toks: &TokenInput, i: usize) -> (r: (Option<Spanned<Ident>>, usize))
    requires
        i <= toks@.len(),
    ensures
        alias_at(token::tokens_view(toks@), i as nat) == (r.0.deep_view(), r.1 as nat),
        i <= r.1 <= toks@.len(),
{
    if next_is(toks, i, Sign::As) {
        match ident_parser(toks, i + 1) {
            Some(id) => (Some(id), i + 2),
            None => (None, i),
        }
    } else {
        (None, i)
    }
}

/// The tree of an import path from its `k`-th name on.  The last name leads
/// to `last`, if there is such a thing, and is a leaf otherwise; a leaf
/// carries the alias.
pub open spec fn chain(
    names: Seq<Spanned<Text>>,
    k: nat,
    last: Option<Spanned<ImportV>>,
    alias: Option<Spanned<Text>>,
) -> Spanned<ImportV>
    decreases names.len() - k,
{
    let id = names[k as int];
    Spanned {
        inner: if k + 1 < names.len() {
            ImportV::Import(id, Some(Box::new(chain(names, k + 1, last, alias))), None)
        } else {
            match last {
                Some(l) => ImportV::Import(id, Some(Box::new(l)), None),
                None => ImportV::Import(id, None, alias),
            }
        },
        span: id.span,
    }
}

/// Puts an import path together, from its last name to its first.
fn chained(
    names: Vec<Spanned<Ident>>,
    last: Option<Spanned<Import>>,
    alias: Option<Spanned<Ident>>,
) -> (r: Spanned<Import>)
    requires
        names@.len() > 0,
    ensures
        r.deep_view() == chain(names.deep_view(), 0, last.deep_view(), alias.deep_view()),
{
    let ghost all = names.deep_view();
    let ghost lv = last.deep_view();
    let ghost av = alias.deep_view();
    let mut names = names;
    let ghost n0 = names@;
    let mut node: Spanned<Import> = match names.pop() {
        Some(id) => {
            let span = id.span;
            proof {
                assert(all[all.len() - 1] == id.deep_view());
            }
            match last {
                Some(l) => Import::Import(id, Some(Box::new(l)), None).with_span(span),
                None => Import::Import(id, None, alias).with_span(span),
            }
        },
        None => {
            proof {
                assert(false);
            }
            Import::MultiImport(Vec::new()).with_span(SimpleSpan { start: 0, end: 0 })
        },
    };
    proof {
        assert(names@ =~= n0.take(n0.len() - 1));
        assert(node.deep_view() == chain(all, names@.len(), lv, av));
    }
    while names.len() > 0
        invariant
            n0.len() == all.len(),
            forall|j: int| 0 <= j < n0.len() ==> all[j] == (#[trigger] n0[j]).deep_view(),
            names@.len() < n0.len(),
            names@ == n0.take(names@.len() as int),
            node.deep_view() == chain(all, names@.len(), lv, av),
        decreases names@.len(),
    {
        let ghost k = (names@.len() - 1) as nat;
        let ghost below = node.deep_view();
        match names.pop() {
            Some(id) => {
                let span = id.span;
                proof {
                    assert(id == n0[k as int]);
                    assert(all[k as int] == id.deep_view());
                    assert(names@ =~= n0.take(k as int));
                }
                node = Import::Import(id, Some(Box::new(node)), None).with_span(span);
                proof {
                    assert(node.deep_view() == chain(all, k, lv, av));
                }
            },
            None => {},
        }
    }
    node
}

/// The names of an import path from `i` on: one name, then `.name` as long as
/// there are such; and where they end.
pub open spec fn names_at(ts: Toks, i: nat) -> Option<(Seq<Spanned<Text>>, nat)> {
    match helpers::ident_in(ts, i) {
        Some(head) => {
            let (tail, j) = helpers::many::<DotName>(ts, i + 1);
            Some((seq![head] + tail, j))
        },
        None => None,
    }
}

fn read_names(toks: &TokenInput, i: usize) -> (r: Option<(Vec<Spanned<Ident>>, usize)>)
    ensures
        match r {
            Some((ids, j)) => {
                &&& names_at(token::tokens_view(toks@), i as nat) == Some(
                    (ids.deep_view(), j as nat),
                )
                &&& i < j <= toks@.len()
                &&& ids@.len() > 0
            },
            None => names_at(token::tokens_view(toks@), i as nat) is None,
        },
{
    match ident_parser(toks, i) {
        Some(head) => {
            let (tail, j) = repeated::<DotName>(toks, i + 1);
            let mut ids: Vec<Spanned<Ident>> = Vec::new();
            let ghost hv = head.deep_view();
            let ghost tv = tail.deep_view();
            ids.push(head);
            let mut tail = tail;
            ids.append(&mut tail);
            proof {
                assert(ids.deep_view() =~= seq![hv] + tv);
            }
            Some((ids, j))
        },
        None => None,
    }
}

/// The entries `path [as alias]` of a block of imports.
pub struct EntryRule;

impl Rule for EntryRule {
    type Out = Spanned<Import>;

    open spec fn at(ts: Toks, i: nat) -> Option<(Spanned<ImportV>, nat)> {
        match names_at(ts, i) {
            Some((names, a)) => {
                let (alias, j) = alias_at(ts, a);
                Some((chain(names, 0, None, alias), j))
            },
            None => None,
        }
    }

    fn read(toks: &TokenInput, i: usize) -> (r: Option<(Spanned<Import>, usize)>) {
        match read_names(toks, i) {
            Some((names, a)) => {
                let (alias, j) = read_alias(toks, a);
                Some((chained(names, None, alias), j))
            },
            None => None,
        }
    }
}

/// The block `.{ entry* }` that may stand at `i`, and where it ends.
pub open spec fn block_at(ts: Toks, i: nat) -> (Option<Spanned<ImportV>>, nat) {
    if helpers::sign_is(ts, i, Sign::Dot) {
        match helpers::braces_in(ts, i + 1) {
            Some(inside) => match helpers::all_of::<EntryRule>(inside) {
                Some(entries) => (
                    Some(
                        Spanned {
                            inner: ImportV::MultiImport(entries),
                            span: if inside.len() > 0 {
                                helpers::span_over(inside, 0, inside.len())
                            } else {
                                SimpleSpan {
                                    start: ts[(i + 1) as int].span.end,
                                    end: ts[(i + 1) as int].span.end,
                                }
                            },
                        },
                    ),
                    i + 2,
                ),
                None => (None, i),
            },
            None => (None, i),
        }
    } else {
        (None, i)
    }
}

fn read_block(toks: &TokenInput, i: usize) -> (r: (Option<Spanned<Import>>, usize))
    requires
        i <= toks@.len(),
    ensures
        block_at(token::tokens_view(toks@), i as nat) == (r.0.deep_view(), r.1 as nat),
        i <= r.1 <= toks@.len(),
{
    if !next_is(toks, i, Sign::Dot) {
        return (None, i);
    }
    match next_braces(toks, i + 1) {
        Some(inside) => match only::<EntryRule>(inside) {
            Some(entries) => {
                let span = if inside.len() > 0 {
                    span_from(inside, 0, inside.len())
                } else {
                    SimpleSpan { start: toks[i + 1].span.end, end: toks[i + 1].span.end }
                };
                proof {
                    assert(ast::imports_view(entries@) =~= entries.deep_view());
                }
                (Some(Import::MultiImport(entries).with_span(span)), i + 2)
            },
            None => (None, i),
        },
        None => (None, i),
    }
}

/// The import `+path`, `+path.{ entry* }`, with an optional `as alias`, at
/// `i`, and where it ends.
pub open spec fn import_at(ts: Toks, i: nat) -> Option<(Spanned<ImportV>, nat)> {
    if helpers::sign_is(ts, i, Sign::Plus) {
        match names_at(ts, i + 1) {
            Some((names, a)) => {
                let (block, b) = block_at(ts, a);
                let (alias, j) = alias_at(ts, b);
                Some((chain(names, 0, block, alias), j))
            },
            None => None,
        }
    } else {
        None
    }
}

/// Reads an import.
pub fn import(toks: &TokenInput, i: usize) -> (r: Option<(Spanned<Import>, usize)>)
    ensures
        match r {
            Some((d, j)) => {
                &&& import_at(token::tokens_view(toks@), i as nat) == Some(
                    (d.deep_view(), j as nat),
                )
                &&& i < j <= toks@.len()
            },
            None => import_at(token::tokens_view(toks@), i as nat) is None,
        },
{
    if !next_is(toks, i, Sign::Plus) {
        return None;
    }
    match read_names(toks, i + 1) {
        Some((names, a)) => {
            let (block, b) = read_block(toks, a);
            let (alias, j) = read_alias(toks, b);
            Some((chained(names, block, alias), j))
        },
        None => None,
    }
}

} // verus!
