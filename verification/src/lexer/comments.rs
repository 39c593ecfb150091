//! Comments leave no trace among the tokens.

use vstd::prelude::*;

use crate::lexer;
use crate::lexer::chars;
use crate::lexer::chars::Class;
use crate::api::token::{Sign, TokenV};
use crate::span::Spanned;
use crate::text::Text;

verus! {

/// A text with a comment on a line of its own behind it.
pub open spec fn commented(cs: Text, c: Text) -> Text {
    cs + seq!['\n', '/', '/'] + c
}

/// Whether a text has no line break.
pub open spec fn one_line(c: Text) -> bool {
    forall|i: int| 0 <= i < c.len() ==> #[trigger] c[i] != '\n'
}

spec fn closes(c: char) -> bool {
    c == ')' || c == '}' || c == ']'
}

proof fn commented_chars(cs: Text, c: Text)
    ensures
        commented(cs, c).len() == cs.len() + 3 + c.len(),
        forall|k: int| 0 <= k < cs.len() ==> #[trigger] commented(cs, c)[k] == cs[k],
        commented(cs, c)[cs.len() as int] == '\n',
        commented(cs, c)[(cs.len() + 1) as int] == '/',
        commented(cs, c)[(cs.len() + 2) as int] == '/',
        forall|k: int|
            cs.len() + 3 <= k < commented(cs, c).len() ==> #[trigger] commented(cs, c)[k]
                == c[k - cs.len() - 3],
{
}

proof fn run_stays(cs: Text, c: Text, i: nat, class: Class)
    requires
        i <= cs.len(),
        !(class is Blank),
    ensures
        chars::run(commented(cs, c), i, class) == chars::run(cs, i, class),
    decreases cs.len() - i,
{
    commented_chars(cs, c);
    if i < cs.len() && chars::in_class(class, cs[i as int]) {
        run_stays(cs, c, i + 1, class);
    }
}

proof fn blanks_stay(cs: Text, c: Text, i: nat)
    requires
        i <= cs.len(),
    ensures
        chars::run(cs, i, Class::Blank) < cs.len() ==> chars::run(commented(cs, c), i, Class::Blank)
            == chars::run(cs, i, Class::Blank),
        chars::run(cs, i, Class::Blank) >= cs.len() ==> chars::run(
            commented(cs, c),
            i,
            Class::Blank,
        ) == cs.len() + 1,
    decreases cs.len() - i,
{
    commented_chars(cs, c);
    if i < cs.len() {
        if chars::in_class(Class::Blank, cs[i as int]) {
            blanks_stay(cs, c, i + 1);
        }
    } else {
        reveal_with_fuel(chars::run, 3);
    }
}

proof fn rest_of_line(cs: Text, c: Text, i: nat)
    requires
        one_line(c),
        cs.len() + 3 <= i <= commented(cs, c).len(),
    ensures
        chars::run(commented(cs, c), i, Class::Line) == commented(cs, c).len(),
    decreases commented(cs, c).len() - i,
{
    commented_chars(cs, c);
    if i < commented(cs, c).len() {
        assert(commented(cs, c)[i as int] == c[i - cs.len() - 3]);
        rest_of_line(cs, c, i + 1);
    }
}

proof fn string_stays(cs: Text, c: Text, i: nat)
    requires
        lexer::string_end(cs, i) is Some,
    ensures
        lexer::string_end(commented(cs, c), i) == lexer::string_end(cs, i),
        i <= lexer::string_end(cs, i)->0 < cs.len(),
    decreases cs.len() - i,
{
    commented_chars(cs, c);
    if cs[i as int] == '"' {
    } else if cs[i as int] == '\\' {
        string_stays(cs, c, i + 2);
    } else {
        string_stays(cs, c, i + 1);
    }
}

proof fn sign_stays(cs: Text, c: Text, i: nat)
    requires
        i < cs.len(),
    ensures
        lexer::sign_at(commented(cs, c), i) == lexer::sign_at(cs, i),
{
    commented_chars(cs, c);
}

proof fn number_stays(cs: Text, c: Text, i: nat)
    requires
        i < cs.len(),
    ensures
        lexer::number_end(commented(cs, c), i) == lexer::number_end(cs, i),
{
    commented_chars(cs, c);
    if i + 2 <= cs.len() {
        run_stays(cs, c, i + 2, Class::Hex);
        run_stays(cs, c, i + 2, Class::Bit);
    }
    run_stays(cs, c, i + 1, Class::Digit);
    fraction_stays(cs, c, i + 1);
    chars::run_is_maximal(cs, i + 1, Class::Digit);
    fraction_stays(cs, c, chars::run(cs, i + 1, Class::Digit));
}

proof fn fraction_stays(cs: Text, c: Text, i: nat)
    requires
        i <= cs.len(),
    ensures
        lexer::fraction_end(commented(cs, c), i) == lexer::fraction_end(cs, i),
{
    commented_chars(cs, c);
    if i < cs.len() {
        run_stays(cs, c, i + 1, Class::Digit);
    }
}

proof fn span_stays(cs: Text, c: Text, a: nat, b: nat)
    requires
        a <= cs.len(),
        b <= cs.len(),
    ensures
        lexer::char_span(commented(cs, c), a, b) == lexer::char_span(cs, a, b),
{
    commented_chars(cs, c);
    assert(commented(cs, c).take(a as int) =~= cs.take(a as int));
    assert(commented(cs, c).take(b as int) =~= cs.take(b as int));
}

/// A `b` before a string that is not closed.
spec fn open_bytes(cs: Text, i: nat) -> bool {
    i < cs.len() && cs[i as int] == 'b' && lexer::is_at(cs, i + 1, '"') && lexer::string_end(
        cs,
        i + 2,
    ) is None
}

proof fn token_stays(cs: Text, c: Text, i: nat)
    requires
        one_line(c),
        i < cs.len(),
        lexer::tok_at(cs, i) is Some,
        !open_bytes(cs, i),
    ensures
        lexer::tok_at(commented(cs, c), i) == lexer::tok_at(cs, i),
    decreases cs.len() - i, 0int,
{
    let d = commented(cs, c);
    commented_chars(cs, c);
    sign_stays(cs, c, i);
    number_stays(cs, c, i);
    run_stays(cs, c, i + 1, Class::Word);
    chars::run_is_maximal(cs, i + 1, Class::Word);
    if cs[i as int] == '/' && lexer::is_at(cs, i + 1, '/') {
        run_stays(cs, c, i + 2, Class::Line);
    } else if cs[i as int] == 'b' && lexer::is_at(cs, i + 1, '"') && lexer::string_end(
        cs,
        i + 2,
    ) is Some {
        string_stays(cs, c, i + 2);
        let k = lexer::string_end(cs, i + 2)->0;
        assert(d.subrange((i + 2) as int, k as int) =~= cs.subrange((i + 2) as int, k as int));
    } else if chars::ident_start(cs[i as int]) {
        let j = chars::run(cs, i + 1, Class::Word);
        assert(d.subrange(i as int, j as int) =~= cs.subrange(i as int, j as int));
    } else if lexer::sign_at(cs, i) is Some {
    } else if lexer::number_end(cs, i) is Some {
        number_is_inside(cs, i);
        let j = lexer::number_end(cs, i)->0;
        assert(d.subrange(i as int, j as int) =~= cs.subrange(i as int, j as int));
    } else if cs[i as int] == '"' {
        string_stays(cs, c, i + 1);
        let k = lexer::string_end(cs, i + 1)->0;
        assert(d.subrange((i + 1) as int, k as int) =~= cs.subrange((i + 1) as int, k as int));
    } else if cs[i as int] == '\'' {
        assert(lexer::char_literal(d, i) == lexer::char_literal(cs, i));
    } else if let Some((kind, close)) = lexer::opened(cs[i as int]) {
        tokens_stay(cs, c, i + 1);
        let inside = lexer::toks_from(cs, i + 1);
        blanks_stay(cs, c, inside.1);
        chars::run_is_maximal(cs, inside.1, Class::Blank);
    }
}

proof fn number_is_inside(cs: Text, i: nat)
    requires
        i < cs.len(),
        lexer::number_end(cs, i) is Some,
    ensures
        i <= lexer::number_end(cs, i)->0 <= cs.len(),
{
    if i + 2 <= cs.len() {
        chars::run_is_maximal(cs, i + 2, Class::Hex);
        chars::run_is_maximal(cs, i + 2, Class::Bit);
    }
    chars::run_is_maximal(cs, i + 1, Class::Digit);
    let j = chars::run(cs, i + 1, Class::Digit);
    if j < cs.len() {
        chars::run_is_maximal(cs, j + 1, Class::Digit);
    }
}

proof fn comment_is_skipped(cs: Text, c: Text)
    requires
        one_line(c),
    ensures
        lexer::toks_from(commented(cs, c), cs.len() + 1).0 =~= Seq::<Spanned<TokenV>>::empty(),
        lexer::toks_from(commented(cs, c), cs.len() + 1).1 == commented(cs, c).len(),
{
    let d = commented(cs, c);
    let n = cs.len();
    commented_chars(cs, c);
    assert(chars::run(d, n + 1, Class::Blank) == n + 1);
    rest_of_line(cs, c, n + 3);
    assert(lexer::tok_at(d, n + 1) == Some((TokenV::Sign(Sign::Comment), d.len())));
    assert(chars::run(d, d.len(), Class::Blank) == d.len());
    assert(lexer::tok_at(d, d.len()) is None);
    assert(lexer::toks_from(d, d.len()) == (Seq::<Spanned<TokenV>>::empty(), d.len()));
}

/// What is read up to the end or up to a closing bracket is read from the
/// commented text too.
proof fn tokens_stay(cs: Text, c: Text, i: nat)
    requires
        one_line(c),
        i <= cs.len(),
    ensures
        i <= lexer::toks_from(cs, i).1 <= cs.len(),
        ({
            let k = chars::run(cs, lexer::toks_from(cs, i).1, Class::Blank);
            &&& k == cs.len() ==> lexer::toks_from(commented(cs, c), i) == (
                lexer::toks_from(cs, i).0,
                commented(cs, c).len(),
            )
            &&& k < cs.len() && closes(cs[k as int]) ==> lexer::toks_from(commented(cs, c), i)
                == lexer::toks_from(cs, i)
        }),
    decreases cs.len() - i, 1int,
{
    let d = commented(cs, c);
    let n = cs.len();
    commented_chars(cs, c);
    let a = chars::run(cs, i, Class::Blank);
    chars::run_is_maximal(cs, i, Class::Blank);
    blanks_stay(cs, c, i);
    comment_is_skipped(cs, c);
    let rd = lexer::toks_from(d, n + 1);
    let goes = match lexer::tok_at(cs, a) {
        Some((t, j)) => a < j <= n,
        None => false,
    };
    if goes {
        let (t, j) = lexer::tok_at(cs, a)->0;
        let b = chars::run(cs, j, Class::Blank);
        chars::run_is_maximal(cs, j, Class::Blank);
        blanks_stay(cs, c, j);
        tokens_stay(cs, c, b);
        let rest = lexer::toks_from(cs, b);
        if open_bytes(cs, a) {
            assert(chars::run(cs, a + 1, Class::Word) == a + 1);
            assert(j == a + 1);
            assert(chars::run(cs, a + 1, Class::Blank) == a + 1);
            assert(lexer::tok_at(cs, a + 1) is None);
            assert(rest.1 == a + 1);
        } else {
            token_stays(cs, c, a);
            span_stays(cs, c, a, j);
            if b == n {
                assert(lexer::tok_at(cs, n) is None);
                assert(chars::run(cs, n, Class::Blank) == n);
                assert(rest == (Seq::<Spanned<TokenV>>::empty(), n));
                assert(chars::run(d, j, Class::Blank) == n + 1);
                assert(rd.0 == rest.0);
            }
        }
    } else if a == n {
        chars::run_is_maximal(d, n + 1, Class::Blank);
        assert(chars::run(d, n + 1, Class::Blank) == n + 1);
        assert(lexer::toks_from(d, i) == rd);
    } else if closes(cs[a as int]) {
        assert(lexer::tok_at(d, a) is None);
    }
}

/// A comment on a line of its own behind a text that can be read leaves the
/// tokens as they are.
pub proof fn comments_leave_the_tokens(cs: Text, c: Text)
    requires
        lexer::lexed(cs) is Some,
        one_line(c),
    ensures
        lexer::lexed(commented(cs, c)) == lexer::lexed(cs),
{
    tokens_stay(cs, c, 0);
    chars::run_is_maximal(cs, cs.len(), Class::Blank);
}

// ── no comment is a token ──────────────────────────────────────────────────

/// Whether a token is no comment and holds none.
pub open spec fn no_comment(t: TokenV) -> bool
    decreases t,
{
    match t {
        TokenV::Sign(s) => !(s is Comment),
        TokenV::Group(_, inside) => forall|i: int|
            0 <= i < inside.len() ==> no_comment((#[trigger] inside[i]).inner),
        _ => true,
    }
}

proof fn token_holds_no_comment(cs: Text, i: nat)
    requires
        i < cs.len(),
        lexer::tok_at(cs, i) is Some,
    ensures
        lexer::tok_at(cs, i) matches Some((t, _)) && (t == TokenV::Sign(Sign::Comment)
            || no_comment(t)),
    decreases cs.len() - i, 0int,
{
    if lexer::opened(cs[i as int]) is Some {
        tokens_hold_no_comment(cs, i + 1);
    }
    if let Some((t, j)) = lexer::tok_at(cs, i) {
        match t {
            TokenV::Group(kind, inside) => {
                assert(inside == lexer::toks_from(cs, i + 1).0);
            },
            TokenV::Sign(s) => {
                if s is Comment {
                    assert(t == TokenV::Sign(Sign::Comment));
                }
            },
            _ => {},
        }
    }
}

proof fn tokens_hold_no_comment(cs: Text, i: nat)
    requires
        i <= cs.len(),
    ensures
        forall|k: int|
            0 <= k < lexer::toks_from(cs, i).0.len() ==> no_comment(
                (#[trigger] lexer::toks_from(cs, i).0[k]).inner,
            ),
    decreases cs.len() - i, 1int,
{
    let a = chars::run(cs, i, Class::Blank);
    chars::run_is_maximal(cs, i, Class::Blank);
    if let Some((t, j)) = lexer::tok_at(cs, a) {
        if a < j <= cs.len() {
            let b = chars::run(cs, j, Class::Blank);
            chars::run_is_maximal(cs, j, Class::Blank);
            tokens_hold_no_comment(cs, b);
            token_holds_no_comment(cs, a);
            let rest = lexer::toks_from(cs, b).0;
            let all = lexer::toks_from(cs, i).0;
            assert forall|k: int| 0 <= k < all.len() implies no_comment(
                (#[trigger] all[k]).inner,
            ) by {
                if t != TokenV::Sign(Sign::Comment) && k > 0 {
                    assert(all[k] == rest[k - 1]);
                }
            }
        }
    }
}

proof fn tagging_adds_no_comment(t: TokenV, tight: bool)
    requires
        no_comment(t),
    ensures
        no_comment(lexer::tagged_token(t, tight)),
    decreases t,
{
    if let TokenV::Group(_, inside) = t {
        let after = lexer::tagged(inside);
        assert forall|i: int| 0 <= i < after.len() implies no_comment(
            (#[trigger] after[i]).inner,
        ) by {
            assert(no_comment(inside[i].inner));
            assert(decreases_to!(t => inside[i].inner));
            tagging_adds_no_comment(inside[i].inner, lexer::touches(inside, i));
        }
    }
}

/// No token that is read, at any depth, is a comment.
pub proof fn lexed_tokens_hold_no_comment(cs: Text)
    requires
        lexer::lexed(cs) is Some,
    ensures
        forall|i: int|
            0 <= i < lexer::lexed(cs)->0.len() ==> no_comment(
                (#[trigger] lexer::lexed(cs)->0[i]).inner,
            ),
{
    tokens_hold_no_comment(cs, 0);
    let ts = lexer::toks_from(cs, 0).0;
    let all = lexer::tagged(ts);
    assert forall|i: int| 0 <= i < all.len() implies no_comment((#[trigger] all[i]).inner) by {
        assert(no_comment(ts[i].inner));
        tagging_adds_no_comment(ts[i].inner, lexer::touches(ts, i));
    }
}

} // verus!
