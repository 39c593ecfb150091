//! What all parsers share: looking at the next token, and lists of
//! identifiers.
//!
//! A parser takes the tokens and a position, and gives back what it read
//! and the position behind it, or nothing.  Its contract names a spec
//! function with the same arguments on the model of the tokens.

use vstd::prelude::*;

use crate::api::ast::{dup_ident, Ident};
use crate::api::token;
use crate::api::token::{Bracket, Sign, Token, TokenV};
use crate::span::{SimpleSpan, Spanned};
use crate::text::{same, Text};

verus! {

/// The tokens that a parser reads.
pub type TokenInput = Vec<Spanned<Token>>;

/// The model of the tokens that a parser reads.
pub type Toks = Seq<Spanned<TokenV>>;

/// Whether the token at `i` is a sign.
pub open spec fn sign_is(ts: Toks, i: nat, sign: Sign) -> bool {
    i < ts.len() && ts[i as int].inner == TokenV::Sign(sign)
}

/// The identifier at `i`.
pub open spec fn ident_in(ts: Toks, i: nat) -> Option<Spanned<Text>> {
    if i < ts.len() {
        match ts[i as int].inner {
            TokenV::Ident(n) => Some(Spanned { inner: n, span: ts[i as int].span }),
            _ => None,
        }
    } else {
        None
    }
}

/// Whether the identifier at `i` is `w`.
pub open spec fn word_is(ts: Toks, i: nat, w: Text) -> bool {
    ident_in(ts, i) is Some && ident_in(ts, i)->0.inner == w
}

/// The text of the number at `i`.
pub open spec fn num_in(ts: Toks, i: nat) -> Option<Spanned<Text>> {
    if i < ts.len() {
        match ts[i as int].inner {
            TokenV::Num(n) => Some(Spanned { inner: n, span: ts[i as int].span }),
            _ => None,
        }
    } else {
        None
    }
}

/// The text of the string at `i`.
pub open spec fn str_in(ts: Toks, i: nat) -> Option<Spanned<Text>> {
    if i < ts.len() {
        match ts[i as int].inner {
            TokenV::Str(n) => Some(Spanned { inner: n, span: ts[i as int].span }),
            _ => None,
        }
    } else {
        None
    }
}

/// The tokens inside the group of the given kind at `i`.
pub open spec fn group_in(ts: Toks, i: nat, kind: Bracket) -> Option<Toks> {
    if i < ts.len() {
        match ts[i as int].inner {
            TokenV::Group(k, inside) => if k == kind {
                Some(inside)
            } else {
                None
            },
            _ => None,
        }
    } else {
        None
    }
}

/// The tokens inside the braces at `i`.
pub open spec fn braces_in(ts: Toks, i: nat) -> Option<Toks> {
    group_in(ts, i, Bracket::Curly)
}

/// The tokens inside the parentheses at `i`, tight or not.
pub open spec fn parens_in(ts: Toks, i: nat) -> Option<Toks> {
    if group_in(ts, i, Bracket::Parens) is Some {
        group_in(ts, i, Bracket::Parens)
    } else {
        group_in(ts, i, Bracket::TightParens)
    }
}

/// The tokens inside the square brackets at `i`, tight or not.
pub open spec fn squares_in(ts: Toks, i: nat) -> Option<Toks> {
    if group_in(ts, i, Bracket::Square) is Some {
        group_in(ts, i, Bracket::Square)
    } else {
        group_in(ts, i, Bracket::TightSquare)
    }
}

/// From the beginning of the token at `i` to the end of the last one before
/// `j`.
pub open spec fn span_over(ts: Toks, i: nat, j: nat) -> SimpleSpan {
    SimpleSpan { start: ts[i as int].span.start, end: ts[j - 1].span.end }
}

/// What is inside a group is smaller than what holds the group.
pub proof fn inside_is_smaller(ts: Toks, i: nat)
    requires
        i < ts.len(),
        ts[i as int].inner is Group,
    ensures
        decreases_to!(ts => ts[i as int].inner->Group_1),
{
    assert(decreases_to!(ts => ts[i as int]));
    assert(decreases_to!(ts[i as int] => ts[i as int].inner));
    assert(decreases_to!(ts[i as int].inner => ts[i as int].inner->Group_1));
}

/// Whether the token at `i` is `sign`.
pub fn next_is(toks: &TokenInput, i: usize, sign: Sign) -> (r: bool)
    ensures
        r == sign_is(token::tokens_view(toks@), i as nat, sign),
        r ==> i < toks@.len() <= usize::MAX,
{
    if i < toks.len() {
        proof {
            assert(token::tokens_view(toks@)[i as int].inner == token::token_view(
                toks@[i as int].inner,
            ));
        }
        match toks[i].inner.sign() {
            Some(s) => s == sign,
            None => false,
        }
    } else {
        false
    }
}

/// The sign at `i`.
pub open spec fn sign_in(ts: Toks, i: nat) -> Option<Sign> {
    if i < ts.len() {
        match ts[i as int].inner {
            TokenV::Sign(s) => Some(s),
            _ => None,
        }
    } else {
        None
    }
}

pub fn next_sign(toks: &TokenInput, i: usize) -> (r: Option<Sign>)
    ensures
        r == sign_in(token::tokens_view(toks@), i as nat),
        r is Some ==> i < toks@.len() <= usize::MAX,
{
    if i < toks.len() {
        proof {
            assert(token::tokens_view(toks@)[i as int].inner == token::token_view(
                toks@[i as int].inner,
            ));
        }
        toks[i].inner.sign()
    } else {
        None
    }
}

/// Reads an identifier.
pub fn ident_parser(toks: &TokenInput, i: usize) -> (r: Option<Spanned<Ident>>)
    ensures
        r.deep_view() == ident_in(token::tokens_view(toks@), i as nat),
        r is Some ==> i < toks@.len() <= usize::MAX,
{
    if i < toks.len() {
        proof {
            assert(token::tokens_view(toks@)[i as int].inner == token::token_view(
                toks@[i as int].inner,
            ));
        }
        match &toks[i].inner {
            Token::Ident(n) => Some(Spanned { inner: Ident(n.clone()), span: toks[i].span }),
            _ => None,
        }
    } else {
        None
    }
}

/// Whether the identifier `w` is at `i`.
pub fn next_word(toks: &TokenInput, i: usize, w: &str) -> (r: bool)
    ensures
        r == word_is(token::tokens_view(toks@), i as nat, w@),
        r ==> i < toks@.len() <= usize::MAX,
{
    match ident_parser(toks, i) {
        Some(id) => same(id.inner.as_str(), w),
        None => false,
    }
}

pub fn next_num(toks: &TokenInput, i: usize) -> (r: Option<Spanned<Ident>>)
    ensures
        r.deep_view() == num_in(token::tokens_view(toks@), i as nat),
        r is Some ==> i < toks@.len() <= usize::MAX,
{
    if i < toks.len() {
        proof {
            assert(token::tokens_view(toks@)[i as int].inner == token::token_view(
                toks@[i as int].inner,
            ));
        }
        match &toks[i].inner {
            Token::Num(n) => Some(Spanned { inner: Ident(n.clone()), span: toks[i].span }),
            _ => None,
        }
    } else {
        None
    }
}

pub fn next_str(toks: &TokenInput, i: usize) -> (r: Option<Spanned<Ident>>)
    ensures
        r.deep_view() == str_in(token::tokens_view(toks@), i as nat),
        r is Some ==> i < toks@.len() <= usize::MAX,
{
    if i < toks.len() {
        proof {
            assert(token::tokens_view(toks@)[i as int].inner == token::token_view(
                toks@[i as int].inner,
            ));
        }
        match &toks[i].inner {
            Token::String(n) => Some(Spanned { inner: Ident(n.clone()), span: toks[i].span }),
            _ => None,
        }
    } else {
        None
    }
}

/// The tokens inside the group of the given kind at `i`.
pub fn next_group<'t>(toks: &'t TokenInput, i: usize, kind: Bracket) -> (r: Option<&'t TokenInput>)
    ensures
        match r {
            Some(v) => {
                &&& group_in(token::tokens_view(toks@), i as nat, kind) == Some(
                    token::tokens_view(v@),
                )
                &&& i < toks@.len() <= usize::MAX
                &&& decreases_to!(token::tokens_view(toks@) => token::tokens_view(v@))
            },
            None => group_in(token::tokens_view(toks@), i as nat, kind) is None,
        },
{
    if i >= toks.len() {
        return None;
    }
    let ghost ts = token::tokens_view(toks@);
    proof {
        assert(ts[i as int].inner == token::token_view(toks@[i as int].inner));
        if ts[i as int].inner is Group {
            inside_is_smaller(ts, i as nat);
        }
    }
    match &toks[i].inner {
        Token::Parens(v) => if matches!(kind, Bracket::Parens) {
            proof {
                assert(ts[i as int].inner == TokenV::Group(kind, token::tokens_view(v@)));
            }
            Some(v)
        } else {
            None
        },
        Token::TightParens(v) => if matches!(kind, Bracket::TightParens) {
            proof {
                assert(ts[i as int].inner == TokenV::Group(kind, token::tokens_view(v@)));
            }
            Some(v)
        } else {
            None
        },
        Token::SquareBrackets(v) => if matches!(kind, Bracket::Square) {
            proof {
                assert(ts[i as int].inner == TokenV::Group(kind, token::tokens_view(v@)));
            }
            Some(v)
        } else {
            None
        },
        Token::TightSquareBrackets(v) => if matches!(kind, Bracket::TightSquare) {
            proof {
                assert(ts[i as int].inner == TokenV::Group(kind, token::tokens_view(v@)));
            }
            Some(v)
        } else {
            None
        },
        Token::CurlyBrackets(v) => if matches!(kind, Bracket::Curly) {
            proof {
                assert(ts[i as int].inner == TokenV::Group(kind, token::tokens_view(v@)));
            }
            Some(v)
        } else {
            None
        },
        _ => None,
    }
}

/// The tokens inside the braces at `i`.
pub fn next_braces<'t>(toks: &'t TokenInput, i: usize) -> (r: Option<&'t TokenInput>)
    ensures
        match r {
            Some(v) => {
                &&& braces_in(token::tokens_view(toks@), i as nat) == Some(token::tokens_view(v@))
                &&& i < toks@.len() <= usize::MAX
                &&& decreases_to!(token::tokens_view(toks@) => token::tokens_view(v@))
            },
            None => braces_in(token::tokens_view(toks@), i as nat) is None,
        },
{
    next_group(toks, i, Bracket::Curly)
}

/// The tokens inside the parentheses at `i`, tight or not.
pub fn next_parens<'t>(toks: &'t TokenInput, i: usize) -> (r: Option<&'t TokenInput>)
    ensures
        match r {
            Some(v) => {
                &&& parens_in(token::tokens_view(toks@), i as nat) == Some(token::tokens_view(v@))
                &&& i < toks@.len() <= usize::MAX
                &&& decreases_to!(token::tokens_view(toks@) => token::tokens_view(v@))
            },
            None => parens_in(token::tokens_view(toks@), i as nat) is None,
        },
{
    match next_group(toks, i, Bracket::Parens) {
        Some(v) => Some(v),
        None => next_group(toks, i, Bracket::TightParens),
    }
}

/// The tokens inside the square brackets at `i`, tight or not.
pub fn next_squares<'t>(toks: &'t TokenInput, i: usize) -> (r: Option<&'t TokenInput>)
    ensures
        match r {
            Some(v) => {
                &&& squares_in(token::tokens_view(toks@), i as nat) == Some(token::tokens_view(v@))
                &&& i < toks@.len() <= usize::MAX
                &&& decreases_to!(token::tokens_view(toks@) => token::tokens_view(v@))
            },
            None => squares_in(token::tokens_view(toks@), i as nat) is None,
        },
{
    match next_group(toks, i, Bracket::Square) {
        Some(v) => Some(v),
        None => next_group(toks, i, Bracket::TightSquare),
    }
}

/// The span from the token at `i` to the end of the last one before `j`.
pub fn span_from(toks: &TokenInput, i: usize, j: usize) -> (r: SimpleSpan)
    requires
        i < j <= toks@.len(),
    ensures
        r == span_over(token::tokens_view(toks@), i as nat, j as nat),
{
    SimpleSpan { start: toks[i].span.start, end: toks[j - 1].span.end }
}

// ── lists of identifiers ───────────────────────────────────────────────────

/// The identifiers from `i` on, and where they end.
pub open spec fn idents_from(ts: Toks, i: nat) -> (Seq<Spanned<Text>>, nat)
    decreases ts.len() - i,
{
    match ident_in(ts, i) {
        Some(id) => {
            let rest = idents_from(ts, i + 1);
            (seq![id] + rest.0, rest.1)
        },
        None => (Seq::empty(), i),
    }
}

/// The tokens, if all of them are identifiers.
pub open spec fn idents_all(ts: Toks) -> Option<Seq<Spanned<Text>>> {
    let (ids, end) = idents_from(ts, 0);
    if end == ts.len() {
        Some(ids)
    } else {
        None
    }
}

/// Reads identifiers as long as there are any.
pub fn idents(toks: &TokenInput, i: usize) -> (r: (Vec<Spanned<Ident>>, usize))
    requires
        i <= toks@.len(),
    ensures
        idents_from(token::tokens_view(toks@), i as nat) == (r.0.deep_view(), r.1 as nat),
        i <= r.1 <= toks@.len(),
{
    let ghost ts = token::tokens_view(toks@);
    let mut out: Vec<Spanned<Ident>> = Vec::new();
    let mut k: usize = i;
    proof {
        let rest = idents_from(ts, i as nat).0;
        assert(out.deep_view() + rest =~= rest);
    }
    loop
        invariant
            i <= k <= toks@.len(),
            ts == token::tokens_view(toks@),
            idents_from(ts, i as nat).0 == out.deep_view() + idents_from(ts, k as nat).0,
            idents_from(ts, i as nat).1 == idents_from(ts, k as nat).1,
        decreases toks@.len() - k,
    {
        match ident_parser(toks, k) {
            Some(id) => {
                let ghost before = out.deep_view();
                let ghost one = id.deep_view();
                let ghost rest = idents_from(ts, (k + 1) as nat).0;
                out.push(id);
                proof {
                    assert(out.deep_view() =~= before.push(one));
                    assert(before + (seq![one] + rest) =~= out.deep_view() + rest);
                }
                k = k + 1;
            },
            None => {
                proof {
                    assert(out.deep_view() + Seq::<Spanned<Text>>::empty() =~= out.deep_view());
                }
                return (out, k);
            },
        }
    }
}

/// Reads the tokens as identifiers only.
pub fn only_idents(toks: &TokenInput) -> (r: Option<Vec<Spanned<Ident>>>)
    ensures
        match r {
            Some(ids) => idents_all(token::tokens_view(toks@)) == Some(ids.deep_view()),
            None => idents_all(token::tokens_view(toks@)) is None,
        },
{
    let (ids, end) = idents(toks, 0);
    if end == toks.len() {
        Some(ids)
    } else {
        None
    }
}

// ── repetition ─────────────────────────────────────────────────────────────

/// A parser of one kind of thing, to be repeated.
pub trait Rule: Sized {
    type Out: DeepView;

    /// What is at `i`, and where it ends.
    spec fn at(ts: Toks, i: nat) -> Option<(<Self::Out as DeepView>::V, nat)>;

    fn read(toks: &TokenInput, i: usize) -> (r: Option<(Self::Out, usize)>)
        ensures
            match r {
                Some((x, j)) => {
                    &&& Self::at(token::tokens_view(toks@), i as nat) == Some(
                        (x.deep_view(), j as nat),
                    )
                    &&& i < j <= toks@.len()
                },
                None => Self::at(token::tokens_view(toks@), i as nat) is None,
            },
    ;
}

/// The things of one kind from `i` on, and where they end.
pub open spec fn many<R: Rule>(ts: Toks, i: nat) -> (Seq<<R::Out as DeepView>::V>, nat)
    decreases ts.len() - i,
{
    match R::at(ts, i) {
        Some((x, j)) => if i < j <= ts.len() {
            let rest = many::<R>(ts, j);
            (seq![x] + rest.0, rest.1)
        } else {
            (Seq::empty(), i)
        },
        None => (Seq::empty(), i),
    }
}

/// The things of one kind that the tokens consist of.
pub open spec fn all_of<R: Rule>(ts: Toks) -> Option<Seq<<R::Out as DeepView>::V>> {
    let (xs, end) = many::<R>(ts, 0);
    if end == ts.len() {
        Some(xs)
    } else {
        None
    }
}

/// Repeats a parser as long as it reads something.
pub fn repeated<R: Rule>(toks: &TokenInput, i: usize) -> (r: (Vec<R::Out>, usize))
    requires
        i <= toks@.len(),
    ensures
        many::<R>(token::tokens_view(toks@), i as nat) == (r.0.deep_view(), r.1 as nat),
        i <= r.1 <= toks@.len(),
{
    let ghost ts = token::tokens_view(toks@);
    let mut out: Vec<R::Out> = Vec::new();
    let mut k: usize = i;
    proof {
        let rest = many::<R>(ts, i as nat).0;
        assert(out.deep_view() + rest =~= rest);
    }
    loop
        invariant
            i <= k <= toks@.len(),
            ts == token::tokens_view(toks@),
            many::<R>(ts, i as nat).0 == out.deep_view() + many::<R>(ts, k as nat).0,
            many::<R>(ts, i as nat).1 == many::<R>(ts, k as nat).1,
        decreases toks@.len() - k,
    {
        match R::read(toks, k) {
            Some((x, j)) => {
                let ghost before = out.deep_view();
                let ghost one = x.deep_view();
                let ghost rest = many::<R>(ts, j as nat).0;
                out.push(x);
                proof {
                    assert(out.deep_view() =~= before.push(one));
                    assert(before + (seq![one] + rest) =~= out.deep_view() + rest);
                }
                k = j;
            },
            None => {
                proof {
                    assert(out.deep_view() + Seq::<<R::Out as DeepView>::V>::empty()
                        =~= out.deep_view());
                }
                return (out, k);
            },
        }
    }
}

/// Reads the tokens as things of one kind only.
pub fn only<R: Rule>(toks: &TokenInput) -> (r: Option<Vec<R::Out>>)
    ensures
        match r {
            Some(xs) => all_of::<R>(token::tokens_view(toks@)) == Some(xs.deep_view()),
            None => all_of::<R>(token::tokens_view(toks@)) is None,
        },
{
    let (xs, end) = repeated::<R>(toks, 0);
    if end == toks.len() {
        Some(xs)
    } else {
        None
    }
}

// ── type parameters and their bounds ───────────────────────────────────────

/// A flat element of a bound type-parameter list.
#[derive(Debug, PartialEq, PartialOrd)]
pub enum BoundTok {
    Ident(Spanned<Ident>),
    Colon,
}

pub enum BoundTokV {
    Ident(Spanned<Text>),
    Colon,
}

impl DeepView for BoundTok {
    type V = BoundTokV;

    open spec fn deep_view(&self) -> BoundTokV {
        match *self {
            BoundTok::Ident(id) => BoundTokV::Ident(id.deep_view()),
            BoundTok::Colon => BoundTokV::Colon,
        }
    }
}

/// The element of a bound type-parameter list at `i`.
pub struct BoundElem;

impl Rule for BoundElem {
    type Out = BoundTok;

    open spec fn at(ts: Toks, i: nat) -> Option<(BoundTokV, nat)> {
        match ident_in(ts, i) {
            Some(id) => Some((BoundTokV::Ident(id), i + 1)),
            None => if sign_is(ts, i, Sign::Colon) {
                Some((BoundTokV::Colon, i + 1))
            } else {
                None
            },
        }
    }

    fn read(toks: &TokenInput, i: usize) -> (r: Option<(BoundTok, usize)>) {
        match ident_parser(toks, i) {
            Some(id) => Some((BoundTok::Ident(id), i + 1)),
            None => if next_is(toks, i, Sign::Colon) {
                Some((BoundTok::Colon, i + 1))
            } else {
                None
            },
        }
    }
}

/// Type parameters in order, and the protos that bind some of them.
pub type GenericsV = (Seq<Spanned<Text>>, Seq<(Spanned<Text>, Seq<Spanned<Text>>)>);

pub type Generics = (Vec<Spanned<Ident>>, Vec<(Spanned<Ident>, Vec<Spanned<Ident>>)>);

pub open spec fn colon_at(bs: Seq<BoundTokV>, i: nat) -> bool {
    i < bs.len() && bs[i as int] is Colon
}

/// The bounds from `i` on, and where they end: identifiers up to a colon, or
/// up to one that a colon follows and that is therefore the next parameter.
pub open spec fn bounds_from(bs: Seq<BoundTokV>, i: nat) -> (Seq<Spanned<Text>>, nat)
    decreases bs.len() - i,
{
    if i < bs.len() && bs[i as int] is Ident && !colon_at(bs, i + 1) {
        let rest = bounds_from(bs, i + 1);
        (seq![bs[i as int]->Ident_0] + rest.0, rest.1)
    } else {
        (Seq::empty(), i)
    }
}

/// Bounds end inside the list.
pub proof fn bounds_stay_inside(bs: Seq<BoundTokV>, i: nat)
    requires
        i <= bs.len(),
    ensures
        i <= bounds_from(bs, i).1 <= bs.len(),
    decreases bs.len() - i,
{
    if i < bs.len() && bs[i as int] is Ident && !colon_at(bs, i + 1) {
        bounds_stay_inside(bs, i + 1);
    }
}

/// The type parameters that the elements from `i` on declare.  An identifier
/// with a colon behind it is a parameter and its bounds follow; one without
/// is a parameter without bounds; a stray colon is skipped.
pub open spec fn folded_bounds(bs: Seq<BoundTokV>, i: nat) -> GenericsV
    decreases bs.len() - i,
{
    if i >= bs.len() {
        (Seq::empty(), Seq::empty())
    } else {
        match bs[i as int] {
            BoundTokV::Colon => folded_bounds(bs, i + 1),
            BoundTokV::Ident(name) => if colon_at(bs, i + 1) {
                let (b, j) = bounds_from(bs, i + 2);
                proof {
                    bounds_stay_inside(bs, i + 2);
                }
                let rest = folded_bounds(bs, j);
                (seq![name] + rest.0, seq![(name, b)] + rest.1)
            } else {
                let rest = folded_bounds(bs, i + 1);
                (seq![name] + rest.0, rest.1)
            },
        }
    }
}

fn is_colon(toks: &Vec<BoundTok>, i: usize) -> (r: bool)
    ensures
        r == colon_at(toks.deep_view(), i as nat),
{
    i < toks.len() && matches!(toks[i], BoundTok::Colon)
}

fn fold_bounds(toks: &Vec<BoundTok>, i: usize) -> (r: (Vec<Spanned<Ident>>, usize))
    requires
        i <= toks@.len(),
    ensures
        bounds_from(toks.deep_view(), i as nat) == (r.0.deep_view(), r.1 as nat),
        i <= r.1 <= toks@.len(),
{
    let ghost bs = toks.deep_view();
    let mut out: Vec<Spanned<Ident>> = Vec::new();
    let mut k: usize = i;
    proof {
        let rest = bounds_from(bs, i as nat).0;
        assert(out.deep_view() + rest =~= rest);
    }
    while k < toks.len()
        invariant
            i <= k <= toks@.len(),
            bs == toks.deep_view(),
            bounds_from(bs, i as nat).0 == out.deep_view() + bounds_from(bs, k as nat).0,
            bounds_from(bs, i as nat).1 == bounds_from(bs, k as nat).1,
        decreases toks@.len() - k,
    {
        let stop: bool = is_colon(toks, k + 1);
        proof {
            assert(bs[k as int] == toks@[k as int].deep_view());
            assert(out.deep_view() + Seq::<Spanned<Text>>::empty() =~= out.deep_view());
        }
        match &toks[k] {
            BoundTok::Ident(name) => {
                if stop {
                    return (out, k);
                }
                let ghost before = out.deep_view();
                let ghost rest = bounds_from(bs, (k + 1) as nat).0;
                let one = dup_ident(name);
                let ghost v = one.deep_view();
                out.push(one);
                proof {
                    assert(out.deep_view() =~= before.push(v));
                    assert(before + (seq![v] + rest) =~= out.deep_view() + rest);
                }
            },
            BoundTok::Colon => {
                return (out, k);
            },
        }
        k = k + 1;
    }
    proof {
        assert(out.deep_view() + Seq::<Spanned<Text>>::empty() =~= out.deep_view());
    }
    (out, k)
}

/// Sorts the elements of a bound type-parameter list into parameters and
/// bounds.
pub fn fold_bound_toks(toks: &Vec<BoundTok>) -> (r: Generics)
    ensures
        folded_bounds(toks.deep_view(), 0) == (r.0.deep_view(), r.1.deep_view()),
{
    let ghost bs = toks.deep_view();
    let mut params: Vec<Spanned<Ident>> = Vec::new();
    let mut bounds: Vec<(Spanned<Ident>, Vec<Spanned<Ident>>)> = Vec::new();
    let mut i: usize = 0;
    proof {
        let rest = folded_bounds(bs, 0);
        assert(params.deep_view() + rest.0 =~= rest.0);
        assert(bounds.deep_view() + rest.1 =~= rest.1);
    }
    while i < toks.len()
        invariant
            i <= toks@.len(),
            bs == toks.deep_view(),
            folded_bounds(bs, 0).0 == params.deep_view() + folded_bounds(bs, i as nat).0,
            folded_bounds(bs, 0).1 == bounds.deep_view() + folded_bounds(bs, i as nat).1,
        decreases toks@.len() - i,
    {
        proof {
            assert(bs[i as int] == toks@[i as int].deep_view());
        }
        match &toks[i] {
            BoundTok::Ident(name) => {
                let ghost before = params.deep_view();
                let ghost bounds_before = bounds.deep_view();
                let one = dup_ident(name);
                let ghost v = one.deep_view();
                params.push(one);
                proof {
                    assert(params.deep_view() =~= before.push(v));
                }
                if is_colon(toks, i + 1) {
                    let (b, j) = fold_bounds(toks, i + 2);
                    let ghost rest = folded_bounds(bs, j as nat);
                    let ghost pair = (v, b.deep_view());
                    bounds.push((dup_ident(name), b));
                    proof {
                        assert(bounds.deep_view() =~= bounds_before.push(pair));
                        assert(before + (seq![v] + rest.0) =~= params.deep_view() + rest.0);
                        assert(bounds_before + (seq![pair] + rest.1) =~= bounds.deep_view()
                            + rest.1);
                    }
                    i = j;
                } else {
                    let ghost rest = folded_bounds(bs, (i + 1) as nat);
                    proof {
                        assert(before + (seq![v] + rest.0) =~= params.deep_view() + rest.0);
                    }
                    i = i + 1;
                }
            },
            BoundTok::Colon => {
                i = i + 1;
            },
        }
    }
    proof {
        assert(params.deep_view() + Seq::<Spanned<Text>>::empty() =~= params.deep_view());
        assert(bounds.deep_view() + Seq::<(Spanned<Text>, Seq<Spanned<Text>>)>::empty()
            =~= bounds.deep_view());
    }
    (params, bounds)
}

/// The type parameters that a bracketed list declares.  The list is not
/// empty.
pub open spec fn generics_all(ts: Toks) -> Option<GenericsV> {
    match all_of::<BoundElem>(ts) {
        Some(bs) => if bs.len() > 0 {
            Some(folded_bounds(bs, 0))
        } else {
            None
        },
        None => None,
    }
}

/// Reads the contents of a bracketed list of type parameters, bare
/// (`[T U]`) or with bounds (`[T: Eq Ord]`).
pub fn type_param_bounds_body(toks: &TokenInput) -> (r: Option<Generics>)
    ensures
        match r {
            Some(g) => generics_all(token::tokens_view(toks@)) == Some(
                (g.0.deep_view(), g.1.deep_view()),
            ),
            None => generics_all(token::tokens_view(toks@)) is None,
        },
{
    match only::<BoundElem>(toks) {
        Some(bs) => if bs.len() > 0 {
            Some(fold_bound_toks(&bs))
        } else {
            None
        },
        None => None,
    }
}

/// Every bound belongs to a declared parameter.
pub proof fn bounded_names_are_parameters(bs: Seq<BoundTokV>, i: nat)
    ensures
        folded_bounds(bs, i).1.len() <= folded_bounds(bs, i).0.len(),
        forall|k: int|
            0 <= k < folded_bounds(bs, i).1.len() ==> folded_bounds(bs, i).0.contains(
                (#[trigger] folded_bounds(bs, i).1[k]).0,
            ),
    decreases bs.len() - i,
{
    if i < bs.len() {
        match bs[i as int] {
            BoundTokV::Colon => {
                bounded_names_are_parameters(bs, i + 1);
            },
            BoundTokV::Ident(name) => {
                let next = if colon_at(bs, i + 1) {
                    bounds_from(bs, i + 2).1
                } else {
                    i + 1
                };
                if colon_at(bs, i + 1) {
                    bounds_stay_inside(bs, i + 2);
                }
                bounded_names_are_parameters(bs, next);
                let all = folded_bounds(bs, i);
                let rest = folded_bounds(bs, next);
                assert(all.0[0] == name);
                assert forall|k: int| 0 <= k < all.1.len() implies all.0.contains(
                    (#[trigger] all.1[k]).0,
                ) by {
                    if colon_at(bs, i + 1) && k == 0 {
                        assert(all.0[0] == all.1[0].0);
                    } else {
                        let m = if colon_at(bs, i + 1) {
                            k - 1
                        } else {
                            k
                        };
                        assert(rest.0.contains(rest.1[m].0));
                        let w = rest.0.index_of(rest.1[m].0);
                        assert(all.0[w + 1] == all.1[k].0);
                    }
                }
            },
        }
    }
}

} // verus!
