//! Where the tokens of a text stand.

use vstd::prelude::*;

use crate::api::token::{Bracket, TokenV};
use crate::lexer;
use crate::lexer::chars;
use crate::lexer::chars::Class;
use crate::span::Spanned;
use crate::text::Text;

verus! {

/// Whether tokens stand one behind the other between two byte offsets, none
/// of them empty, and the tokens of a group inside the group.
pub open spec fn in_order(ts: Seq<Spanned<TokenV>>, lo: int, hi: int) -> bool
    decreases ts,
{
    &&& forall|i: int|
        0 <= i < ts.len() ==> lo <= (#[trigger] ts[i]).span.start < ts[i].span.end <= hi
    &&& forall|i: int, j: int|
        0 <= i < j < ts.len() ==> (#[trigger] ts[i]).span.end <= (#[trigger] ts[j]).span.start
    &&& forall|i: int|
        0 <= i < ts.len() ==> match (#[trigger] ts[i]).inner {
            TokenV::Group(_, inside) => in_order(
                inside,
                ts[i].span.start as int,
                ts[i].span.end as int,
            ),
            _ => true,
        }
}

/// Whether the groups among tokens, at any depth, are marked as tight where
/// they touch the token before them, and only there.
pub open spec fn tight_where_touching(ts: Seq<Spanned<TokenV>>) -> bool
    decreases ts,
{
    forall|i: int|
        0 <= i < ts.len() ==> match (#[trigger] ts[i]).inner {
            TokenV::Group(kind, inside) => {
                &&& tight_where_touching(inside)
                &&& match kind {
                    Bracket::Parens | Bracket::Square => !lexer::touches(ts, i),
                    Bracket::TightParens | Bracket::TightSquare => lexer::touches(ts, i),
                    Bracket::Curly => true,
                }
            },
            _ => true,
        }
}

/// Whether no group among tokens is marked, at any depth.
spec fn unmarked(ts: Seq<Spanned<TokenV>>) -> bool
    decreases ts,
{
    forall|i: int|
        0 <= i < ts.len() ==> match (#[trigger] ts[i]).inner {
            TokenV::Group(kind, inside) => unmarked(inside) && !(kind is TightParens) && !(
            kind is TightSquare),
            _ => true,
        }
}

proof fn in_order_widens(ts: Seq<Spanned<TokenV>>, lo: int, hi: int, lo2: int, hi2: int)
    requires
        in_order(ts, lo, hi),
        lo2 <= lo,
        hi <= hi2,
    ensures
        in_order(ts, lo2, hi2),
{
}

/// A token, with what stands inside it, read from `i` up to `j`.
proof fn token_is_in_order(cs: Text, i: nat)
    requires
        i <= cs.len(),
        chars::byte_len(cs) <= usize::MAX,
    ensures
        match lexer::tok_at(cs, i) {
            Some((TokenV::Group(kind, inside), j)) => {
                &&& i < j <= cs.len()
                &&& in_order(inside, chars::offset(cs, i) as int, chars::offset(cs, j) as int)
                &&& unmarked(inside)
                &&& !(kind is TightParens)
                &&& !(kind is TightSquare)
            },
            _ => true,
        },
    decreases cs.len() - i, 0int,
{
    if let Some((TokenV::Group(kind, inside), j)) = lexer::tok_at(cs, i) {
        assert(lexer::opened(cs[i as int]) is Some);
        tokens_are_in_order(cs, i + 1);
        let e = lexer::toks_from(cs, i + 1).1;
        chars::run_is_maximal(cs, e, Class::Blank);
        chars::offset_grows(cs, i, i + 1);
        chars::offset_grows(cs, e, j);
        in_order_widens(
            inside,
            chars::offset(cs, i + 1) as int,
            chars::offset(cs, e) as int,
            chars::offset(cs, i) as int,
            chars::offset(cs, j) as int,
        );
    }
}

proof fn tokens_are_in_order(cs: Text, i: nat)
    requires
        i <= cs.len(),
        chars::byte_len(cs) <= usize::MAX,
    ensures
        ({
            let (ts, e) = lexer::toks_from(cs, i);
            &&& i <= e <= cs.len()
            &&& in_order(ts, chars::offset(cs, i) as int, chars::offset(cs, e) as int)
            &&& unmarked(ts)
        }),
    decreases cs.len() - i, 1int,
{
    let a = chars::run(cs, i, Class::Blank);
    chars::run_is_maximal(cs, i, Class::Blank);
    if let Some((t, j)) = lexer::tok_at(cs, a) {
        if a < j <= cs.len() {
            let k = chars::run(cs, j, Class::Blank);
            chars::run_is_maximal(cs, j, Class::Blank);
            tokens_are_in_order(cs, k);
            token_is_in_order(cs, a);
            let (rest, e) = lexer::toks_from(cs, k);
            let (ts, e2) = lexer::toks_from(cs, i);
            chars::offset_grows(cs, i, a);
            chars::offset_grows(cs, a, j);
            chars::offset_grows(cs, j, k);
            chars::offset_grows(cs, k, e);
            if t == TokenV::Sign(crate::api::token::Sign::Comment) {
                in_order_widens(
                    rest,
                    chars::offset(cs, k) as int,
                    chars::offset(cs, e) as int,
                    chars::offset(cs, i) as int,
                    chars::offset(cs, e) as int,
                );
            } else {
                assert forall|n: int| 0 <= n < ts.len() implies ts[n] == (if n == 0 {
                    Spanned { inner: t, span: lexer::char_span(cs, a, j) }
                } else {
                    rest[n - 1]
                }) by {}
            }
        }
    }
}

proof fn tagging_keeps_order(ts: Seq<Spanned<TokenV>>, lo: int, hi: int)
    requires
        in_order(ts, lo, hi),
    ensures
        in_order(lexer::tagged(ts), lo, hi),
    decreases ts,
{
    let out = lexer::tagged(ts);
    assert forall|i: int| 0 <= i < out.len() implies match (#[trigger] out[i]).inner {
        TokenV::Group(_, inside) => in_order(
            inside,
            out[i].span.start as int,
            out[i].span.end as int,
        ),
        _ => true,
    } by {
        assert(out[i].span == ts[i].span);
        if let TokenV::Group(_, inside) = ts[i].inner {
            tagging_keeps_order(inside, ts[i].span.start as int, ts[i].span.end as int);
        }
    }
    assert forall|i: int| 0 <= i < out.len() implies lo <= (#[trigger] out[i]).span.start
        < out[i].span.end <= hi by {
        assert(out[i].span == ts[i].span);
    }
    assert forall|i: int, j: int| 0 <= i < j < out.len() implies (#[trigger] out[i]).span.end <= (
    #[trigger] out[j]).span.start by {
        assert(out[i].span == ts[i].span && out[j].span == ts[j].span);
    }
}

proof fn tagging_marks(ts: Seq<Spanned<TokenV>>)
    requires
        unmarked(ts),
    ensures
        tight_where_touching(lexer::tagged(ts)),
    decreases ts,
{
    let out = lexer::tagged(ts);
    assert forall|i: int| 0 <= i < out.len() implies match (#[trigger] out[i]).inner {
        TokenV::Group(kind, inside) => {
            &&& tight_where_touching(inside)
            &&& match kind {
                Bracket::Parens | Bracket::Square => !lexer::touches(out, i),
                Bracket::TightParens | Bracket::TightSquare => lexer::touches(out, i),
                Bracket::Curly => true,
            }
        },
        _ => true,
    } by {
        assert(lexer::touches(out, i) == lexer::touches(ts, i));
        if let TokenV::Group(_, inside) = ts[i].inner {
            tagging_marks(inside);
        }
    }
}

/// The tokens of a text stand one behind the other inside the text, and the
/// tokens of a group inside the group.
pub proof fn lexed_tokens_are_in_order(cs: Text)
    requires
        chars::byte_len(cs) <= usize::MAX,
    ensures
        lexer::lexed(cs) matches Some(ts) ==> in_order(ts, 0, chars::byte_len(cs) as int),
{
    tokens_are_in_order(cs, 0);
    let (ts, e) = lexer::toks_from(cs, 0);
    chars::offset_grows(cs, 0, e);
    assert(cs.take(0) =~= Seq::<char>::empty());
    in_order_widens(
        ts,
        chars::offset(cs, 0) as int,
        chars::offset(cs, e) as int,
        0,
        chars::byte_len(cs) as int,
    );
    tagging_keeps_order(ts, 0, chars::byte_len(cs) as int);
}

/// A group is tight, and so a call or an index, exactly where it touches the
/// token before it.
pub proof fn lexed_groups_are_tight_where_touching(cs: Text)
    requires
        chars::byte_len(cs) <= usize::MAX,
    ensures
        lexer::lexed(cs) matches Some(ts) ==> tight_where_touching(ts),
{
    tokens_are_in_order(cs, 0);
    tagging_marks(lexer::toks_from(cs, 0).0);
}

} // verus!
