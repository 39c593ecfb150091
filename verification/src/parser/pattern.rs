//! Branch parameters.

use vstd::prelude::*;

use crate::api::ast;
use crate::api::ast::{Ident, Pattern, PatternKindV, PatternV, Type, TypeV};
use crate::api::token;
use crate::api::token::Sign;
use crate::parser::expr::type_expr;
use crate::parser::helpers;
use crate::parser::helpers::{
    ident_parser, next_braces, next_is, next_num, next_str, span_from, Rule, TokenInput, Toks,
};
use crate::span::{SpanWrap, Spanned};
use crate::text::Text;

verus! {

/// The name or number at `i`.
pub open spec fn name_in(ts: Toks, i: nat) -> Option<Spanned<Text>> {
    match helpers::ident_in(ts, i) {
        Some(id) => Some(id),
        None => helpers::num_in(ts, i),
    }
}

/// The atom `:name` at `i`: the name and its place.
pub open spec fn atom_in(ts: Toks, i: nat) -> Option<Spanned<Text>> {
    if helpers::sign_is(ts, i, Sign::Colon) {
        helpers::ident_in(ts, i + 1)
    } else {
        None
    }
}

/// The guard that an atom makes.
pub open spec fn atom_pattern(name: Spanned<Text>) -> PatternV {
    PatternV {
        ident: name,
        ty: Spanned { inner: TypeV::Unit, span: name.span },
        kind: PatternKindV::AtomGuard(name.inner),
    }
}

/// The pattern without a type annotation at `i`, as it stands inside braces,
/// and where it ends: an atom, a nested tuple, or a name or number.
pub open spec fn bare_at(ts: Toks, i: nat) -> Option<(Spanned<PatternV>, nat)>
    decreases ts, ts.len() - i, 1int,
{
    match atom_in(ts, i) {
        Some(name) => Some(
            (Spanned { inner: atom_pattern(name), span: helpers::span_over(ts, i, i + 2) }, i + 2),
        ),
        None => match helpers::braces_in(ts, i) {
            Some(inside) => {
                proof {
                    helpers::inside_is_smaller(ts, i);
                }
                match tuple_all(inside) {
                    Some(elems) => Some(
                        (
                            Spanned {
                                inner: ast::tuple_pattern(elems, ts[i as int].span),
                                span: ts[i as int].span,
                            },
                            i + 1,
                        ),
                    ),
                    None => None,
                }
            },
            None => match name_in(ts, i) {
                Some(id) => Some(
                    (
                        Spanned {
                            inner: ast::new_pattern(
                                id,
                                Spanned { inner: TypeV::Unit, span: id.span },
                            ),
                            span: id.span,
                        },
                        i + 1,
                    ),
                ),
                None => None,
            },
        },
    }
}

/// The bare patterns from `i` on, and where they end.
pub open spec fn bares_from(ts: Toks, i: nat) -> (Seq<Spanned<PatternV>>, nat)
    decreases ts, ts.len() - i, 2int,
{
    match bare_at(ts, i) {
        Some((p, j)) => if i < j <= ts.len() {
            let rest = bares_from(ts, j);
            (seq![p] + rest.0, rest.1)
        } else {
            (Seq::empty(), i)
        },
        None => (Seq::empty(), i),
    }
}

/// The bare patterns that the tokens consist of, at least one.
pub open spec fn tuple_all(ts: Toks) -> Option<Seq<Spanned<PatternV>>>
    decreases ts, ts.len() as int, 3int,
{
    let (ps, end) = bares_from(ts, 0);
    if end == ts.len() && ps.len() > 0 {
        Some(ps)
    } else {
        None
    }
}

/// A string guard `"hello" str` at `i`, and where it ends.
pub open spec fn string_guard_at(ts: Toks, i: nat) -> Option<(Spanned<PatternV>, nat)> {
    match helpers::str_in(ts, i) {
        Some(id) => match type_expr::type_at(ts, i + 1) {
            Some((ty, j)) => Some(
                (
                    Spanned {
                        inner: PatternV {
                            ident: id,
                            ty,
                            kind: PatternKindV::StrGuard(id.inner),
                        },
                        span: helpers::span_over(ts, i, j),
                    },
                    j,
                ),
            ),
            None => None,
        },
        None => None,
    }
}

/// A name or number with an optional type at `i`, and where it ends.
pub open spec fn typed_name_at(ts: Toks, i: nat) -> Option<(Spanned<PatternV>, nat)> {
    match name_in(ts, i) {
        Some(id) => {
            let (ty, j) = match type_expr::type_at(ts, i + 1) {
                Some((ty, j)) => (ty, j),
                None => (Spanned { inner: TypeV::Unit, span: id.span }, i + 1),
            };
            Some(
                (
                    Spanned {
                        inner: ast::new_pattern(id, ty),
                        span: helpers::span_over(ts, i, j),
                    },
                    j,
                ),
            )
        },
        None => None,
    }
}

/// The parameter of a `wait` handler at `i`, and where it ends: a string
/// guard, or a name or number with an optional type.
pub open spec fn wait_pattern_at(ts: Toks, i: nat) -> Option<(Spanned<PatternV>, nat)> {
    match string_guard_at(ts, i) {
        Some(p) => Some(p),
        None => typed_name_at(ts, i),
    }
}

/// The branch parameter at `i`, and where it ends: `"hello" str` (string
/// guard), `:ok` (atom guard), `{ a b _ }` (tuple), or `n i32`, `_`, `0 i64`.
pub open spec fn pattern_at(ts: Toks, i: nat) -> Option<(Spanned<PatternV>, nat)> {
    match string_guard_at(ts, i) {
        Some(p) => Some(p),
        None => match atom_in(ts, i) {
            Some(_) => bare_at(ts, i),
            None => match helpers::braces_in(ts, i) {
                Some(_) => bare_at(ts, i),
                None => typed_name_at(ts, i),
            },
        },
    }
}

fn read_name(toks: &TokenInput, i: usize) -> (r: Option<Spanned<Ident>>)
    ensures
        r.deep_view() == name_in(token::tokens_view(toks@), i as nat),
        r is Some ==> i < toks@.len() <= usize::MAX,
{
    match ident_parser(toks, i) {
        Some(id) => Some(id),
        None => next_num(toks, i),
    }
}

fn read_atom(toks: &TokenInput, i: usize) -> (r: Option<Spanned<Ident>>)
    ensures
        r.deep_view() == atom_in(token::tokens_view(toks@), i as nat),
        r is Some ==> i + 1 < toks@.len() <= usize::MAX,
{
    if next_is(toks, i, Sign::Colon) {
        ident_parser(toks, i + 1)
    } else {
        None
    }
}

/// Reads a pattern without a type annotation.
pub fn bare_pattern(toks: &TokenInput, i: usize) -> (r: Option<(Spanned<Pattern>, usize)>)
    ensures
        match r {
            Some((p, j)) => {
                &&& bare_at(token::tokens_view(toks@), i as nat) == Some((p.deep_view(), j as nat))
                &&& i < j <= toks@.len()
            },
            None => bare_at(token::tokens_view(toks@), i as nat) is None,
        },
    decreases token::tokens_view(toks@), toks@.len() - i, 1int,
{
    let ghost ts = token::tokens_view(toks@);
    if let Some(name) = read_atom(toks, i) {
        let p = Pattern::new_atom_guard(name.inner.as_str(), name.span);
        return Some((p.with_span(span_from(toks, i, i + 2)), i + 2));
    }
    if let Some(inside) = next_braces(toks, i) {
        return match read_tuple(inside) {
            Some(elems) => {
                let span = toks[i].span;
                Some((Pattern::new_tuple(elems, span).with_span(span), i + 1))
            },
            None => None,
        };
    }
    match read_name(toks, i) {
        Some(id) => {
            let span = id.span;
            let p = Pattern::new(id, Type::Unit.with_span(span));
            Some((p.with_span(span), i + 1))
        },
        None => None,
    }
}

fn read_bares(toks: &TokenInput, i: usize) -> (r: (Vec<Spanned<Pattern>>, usize))
    requires
        i <= toks@.len(),
    ensures
        bares_from(token::tokens_view(toks@), i as nat) == (ast::patterns_view(r.0@), r.1 as nat),
        i <= r.1 <= toks@.len(),
    decreases token::tokens_view(toks@), toks@.len() - i, 2int,
{
    let ghost ts = token::tokens_view(toks@);
    let mut out: Vec<Spanned<Pattern>> = Vec::new();
    let mut k: usize = i;
    proof {
        let rest = bares_from(ts, i as nat).0;
        assert(ast::patterns_view(out@) + rest =~= rest);
    }
    loop
        invariant
            i <= k <= toks@.len(),
            ts == token::tokens_view(toks@),
            bares_from(ts, i as nat).0 == ast::patterns_view(out@) + bares_from(ts, k as nat).0,
            bares_from(ts, i as nat).1 == bares_from(ts, k as nat).1,
        decreases toks@.len() - k,
    {
        match bare_pattern(toks, k) {
            Some((p, j)) => {
                let ghost before = ast::patterns_view(out@);
                let ghost one = p.deep_view();
                let ghost rest = bares_from(ts, j as nat).0;
                out.push(p);
                proof {
                    assert(ast::patterns_view(out@) =~= before.push(one));
                    assert(before + (seq![one] + rest) =~= ast::patterns_view(out@) + rest);
                }
                k = j;
            },
            None => {
                proof {
                    assert(ast::patterns_view(out@) + Seq::<Spanned<PatternV>>::empty()
                        =~= ast::patterns_view(out@));
                }
                return (out, k);
            },
        }
    }
}

fn read_tuple(toks: &TokenInput) -> (r: Option<Vec<Spanned<Pattern>>>)
    ensures
        match r {
            Some(ps) => tuple_all(token::tokens_view(toks@)) == Some(ast::patterns_view(ps@)),
            None => tuple_all(token::tokens_view(toks@)) is None,
        },
    decreases token::tokens_view(toks@), toks@.len() as int, 3int,
{
    let (ps, end) = read_bares(toks, 0);
    if end == toks.len() && ps.len() > 0 {
        Some(ps)
    } else {
        None
    }
}

fn read_string_guard(toks: &TokenInput, i: usize) -> (r: Option<(Spanned<Pattern>, usize)>)
    ensures
        match r {
            Some((p, j)) => {
                &&& string_guard_at(token::tokens_view(toks@), i as nat) == Some(
                    (p.deep_view(), j as nat),
                )
                &&& i < j <= toks@.len()
            },
            None => string_guard_at(token::tokens_view(toks@), i as nat) is None,
        },
{
    match next_str(toks, i) {
        Some(id) => match type_expr::type_expr(toks, i + 1) {
            Some((ty, j)) => {
                let p = Pattern::new_string_guard(id, ty);
                Some((p.with_span(span_from(toks, i, j)), j))
            },
            None => None,
        },
        None => None,
    }
}

fn read_typed_name(toks: &TokenInput, i: usize) -> (r: Option<(Spanned<Pattern>, usize)>)
    ensures
        match r {
            Some((p, j)) => {
                &&& typed_name_at(token::tokens_view(toks@), i as nat) == Some(
                    (p.deep_view(), j as nat),
                )
                &&& i < j <= toks@.len()
            },
            None => typed_name_at(token::tokens_view(toks@), i as nat) is None,
        },
{
    match read_name(toks, i) {
        Some(id) => {
            let (ty, j) = match type_expr::type_expr(toks, i + 1) {
                Some((ty, j)) => (ty, j),
                None => {
                    let span = id.span;
                    (Type::Unit.with_span(span), i + 1)
                },
            };
            let p = Pattern::new(id, ty);
            Some((p.with_span(span_from(toks, i, j)), j))
        },
        None => None,
    }
}

/// Reads the parameter of a `wait` handler.
pub fn wait_pattern(toks: &TokenInput, i: usize) -> (r: Option<(Spanned<Pattern>, usize)>)
    ensures
        match r {
            Some((p, j)) => {
                &&& wait_pattern_at(token::tokens_view(toks@), i as nat) == Some(
                    (p.deep_view(), j as nat),
                )
                &&& i < j <= toks@.len()
            },
            None => wait_pattern_at(token::tokens_view(toks@), i as nat) is None,
        },
{
    match read_string_guard(toks, i) {
        Some(p) => Some(p),
        None => read_typed_name(toks, i),
    }
}

/// Reads a branch parameter.
pub fn pattern(toks: &TokenInput, i: usize) -> (r: Option<(Spanned<Pattern>, usize)>)
    ensures
        match r {
            Some((p, j)) => {
                &&& pattern_at(token::tokens_view(toks@), i as nat) == Some(
                    (p.deep_view(), j as nat),
                )
                &&& i < j <= toks@.len()
            },
            None => pattern_at(token::tokens_view(toks@), i as nat) is None,
        },
{
    if let Some(p) = read_string_guard(toks, i) {
        return Some(p);
    }
    if read_atom(toks, i).is_some() || next_braces(toks, i).is_some() {
        return bare_pattern(toks, i);
    }
    read_typed_name(toks, i)
}

/// Branch parameters, to be repeated.
pub struct PatternRule;

impl Rule for PatternRule {
    type Out = Spanned<Pattern>;

    open spec fn at(ts: Toks, i: nat) -> Option<(Spanned<PatternV>, nat)> {
        pattern_at(ts, i)
    }

    fn read(toks: &TokenInput, i: usize) -> (r: Option<(Spanned<Pattern>, usize)>) {
        pattern(toks, i)
    }
}

/// Handler parameters, to be repeated.
pub struct WaitPatternRule;

impl Rule for WaitPatternRule {
    type Out = Spanned<Pattern>;

    open spec fn at(ts: Toks, i: nat) -> Option<(Spanned<PatternV>, nat)> {
        wait_pattern_at(ts, i)
    }

    fn read(toks: &TokenInput, i: usize) -> (r: Option<(Spanned<Pattern>, usize)>) {
        wait_pattern(toks, i)
    }
}

} // verus!
