//! What tokens say of the text they were read from.

use vstd::prelude::*;

use crate::api::token;
use crate::api::token::{Bracket, Sign, TokenV};
use crate::lexer;
use crate::lexer::chars;
use crate::lexer::chars::Class;
use crate::span::Spanned;
use crate::text::Text;

verus! {

// ── signs ──────────────────────────────────────────────────────────────────

/// The characters of an operator or a punctuation mark.
pub open spec fn mark(s: Sign) -> Option<Text> {
    match s {
        Sign::At => Some(seq!['@']),
        Sign::Arrow => Some(seq!['-', '>']),
        Sign::Dot => Some(seq!['.']),
        Sign::Colon => Some(seq![':']),
        Sign::Plus => Some(seq!['+']),
        Sign::Minus => Some(seq!['-']),
        Sign::Star => Some(seq!['*']),
        Sign::Slash => Some(seq!['/']),
        Sign::LessEq => Some(seq!['<', '=']),
        Sign::GreaterEq => Some(seq!['>', '=']),
        Sign::EqEq => Some(seq!['=', '=']),
        Sign::Less => Some(seq!['<']),
        Sign::Greater => Some(seq!['>']),
        Sign::Eq => Some(seq!['=']),
        Sign::BitAnd => Some(seq!['&']),
        Sign::BitOr => Some(seq!['|']),
        Sign::BitXor => Some(seq!['^']),
        Sign::Shl => Some(seq!['<', '<']),
        Sign::Shr => Some(seq!['>', '>']),
        _ => None,
    }
}

/// The characters of a keyword.
pub open spec fn keyword(s: Sign) -> Option<Text> {
    match s {
        Sign::Is => Some(seq!['i', 's']),
        Sign::When => Some(seq!['w', 'h', 'e', 'n']),
        Sign::False => Some(seq!['f', 'a', 'l', 's', 'e']),
        Sign::True => Some(seq!['t', 'r', 'u', 'e']),
        Sign::Pub => Some(seq!['p', 'u', 'b']),
        Sign::Ret => Some(seq!['r', 'e', 't']),
        Sign::SelfKw => Some(seq!['s', 'e', 'l', 'f']),
        Sign::Wait => Some(seq!['w', 'a', 'i', 't']),
        Sign::Let => Some(seq!['l', 'e', 't']),
        Sign::As => Some(seq!['a', 's']),
        Sign::Pin => Some(seq!['p', 'i', 'n']),
        Sign::Const => Some(seq!['c', 'o', 'n', 's', 't']),
        _ => None,
    }
}

/// A sign is shown as it is written, and every sign but the comment is a mark
/// or a keyword.
pub proof fn signs_are_shown_as_written(s: Sign)
    ensures
        mark(s) matches Some(w) ==> token::sign_text(s) == w,
        keyword(s) matches Some(w) ==> token::sign_text(s) == w,
        (mark(s) is Some) != (keyword(s) is Some) || s is Comment,
{
    literals();
    match s {
        Sign::Comment => {},
        _ => {
            if mark(s) is Some {
                assert(token::sign_text(s) =~= mark(s)->0);
            } else {
                assert(token::sign_text(s) =~= keyword(s)->0);
            }
        },
    }
}

proof fn literals()
    ensures
        "@"@ =~= seq!['@'],
        "->"@ =~= seq!['-', '>'],
        "."@ =~= seq!['.'],
        ":"@ =~= seq![':'],
        "+"@ =~= seq!['+'],
        "-"@ =~= seq!['-'],
        "*"@ =~= seq!['*'],
        "/"@ =~= seq!['/'],
        "<="@ =~= seq!['<', '='],
        ">="@ =~= seq!['>', '='],
        "=="@ =~= seq!['=', '='],
        "<"@ =~= seq!['<'],
        ">"@ =~= seq!['>'],
        "="@ =~= seq!['='],
        "&"@ =~= seq!['&'],
        "|"@ =~= seq!['|'],
        "^"@ =~= seq!['^'],
        "<<"@ =~= seq!['<', '<'],
        ">>"@ =~= seq!['>', '>'],
        "is"@ =~= seq!['i', 's'],
        "when"@ =~= seq!['w', 'h', 'e', 'n'],
        "false"@ =~= seq!['f', 'a', 'l', 's', 'e'],
        "true"@ =~= seq!['t', 'r', 'u', 'e'],
        "pub"@ =~= seq!['p', 'u', 'b'],
        "ret"@ =~= seq!['r', 'e', 't'],
        "self"@ =~= seq!['s', 'e', 'l', 'f'],
        "wait"@ =~= seq!['w', 'a', 'i', 't'],
        "let"@ =~= seq!['l', 'e', 't'],
        "as"@ =~= seq!['a', 's'],
        "pin"@ =~= seq!['p', 'i', 'n'],
        "const"@ =~= seq!['c', 'o', 'n', 's', 't'],
{
    reveal_strlit("@");
    reveal_strlit("->");
    reveal_strlit(".");
    reveal_strlit(":");
    reveal_strlit("+");
    reveal_strlit("-");
    reveal_strlit("*");
    reveal_strlit("/");
    reveal_strlit("<=");
    reveal_strlit(">=");
    reveal_strlit("==");
    reveal_strlit("<");
    reveal_strlit(">");
    reveal_strlit("=");
    reveal_strlit("&");
    reveal_strlit("|");
    reveal_strlit("^");
    reveal_strlit("<<");
    reveal_strlit(">>");
    reveal_strlit("is");
    reveal_strlit("when");
    reveal_strlit("false");
    reveal_strlit("true");
    reveal_strlit("pub");
    reveal_strlit("ret");
    reveal_strlit("self");
    reveal_strlit("wait");
    reveal_strlit("let");
    reveal_strlit("as");
    reveal_strlit("pin");
    reveal_strlit("const");
}

// ── texts ──────────────────────────────────────────────────────────────────

/// Whether `w` stands in the text at `a`.
pub open spec fn stands_at(cs: Text, a: int, w: Text) -> bool {
    0 <= a && a + w.len() <= cs.len() && forall|k: int|
        0 <= k < w.len() ==> #[trigger] w[k] == cs[a + k]
}

/// Whether `w` is a word: it begins as an identifier does and goes on as one.
pub open spec fn is_word(w: Text) -> bool {
    &&& w.len() > 0
    &&& chars::ident_start(w[0])
    &&& forall|k: int| 1 <= k < w.len() ==> chars::ident_continue(#[trigger] w[k])
}

pub open spec fn all_digits(w: Text, a: int, b: int) -> bool {
    forall|k: int| a <= k < b ==> chars::digit(#[trigger] w[k])
}

/// Whether `w` is a whole number without leading zeros, with or without a
/// fraction.
pub open spec fn is_decimal(w: Text) -> bool {
    exists|n: int|
        {
            &&& 0 < n <= w.len()
            &&& #[trigger] all_digits(w, 0, n)
            &&& w[0] == '0' ==> n == 1
            &&& n < w.len() ==> w[n] == '.' && n + 1 < w.len() && all_digits(
                w,
                n + 1,
                w.len() as int,
            )
        }
}

/// Whether `w` is a number: decimal, or `0x` and hexadecimal digits, or `0b`
/// and binary digits.
pub open spec fn is_number(w: Text) -> bool {
    ||| is_decimal(w)
    ||| {
        &&& w.len() > 2 && w[0] == '0' && w[1] == 'x'
        &&& forall|k: int| 2 <= k < w.len() ==> chars::hex_digit(#[trigger] w[k])
    }
    ||| {
        &&& w.len() > 2 && w[0] == '0' && w[1] == 'b'
        &&& forall|k: int| 2 <= k < w.len() ==> #[trigger] w[k] == '0' || w[k] == '1'
    }
}

/// How many backslashes stand in a row right before `k`, back to `from`.
pub open spec fn backslashes(w: Text, k: int) -> nat
    decreases k,
{
    if 0 < k <= w.len() && w[k - 1] == '\\' {
        backslashes(w, k - 1) + 1
    } else {
        0
    }
}

/// Whether every quote in `w` is escaped, and `w` ends in no open escape: an
/// odd number of backslashes stands before each quote, and an even one before
/// the end.
pub open spec fn is_quoted(w: Text) -> bool {
    &&& forall|k: int| 0 <= k < w.len() && #[trigger] w[k] == '"' ==> backslashes(w, k) % 2 == 1
    &&& backslashes(w, w.len() as int) % 2 == 0
}

/// The value of a hexadecimal digit, by its place among the digits.
pub open spec fn digit_value(c: char) -> int {
    if '0' <= c <= '9' {
        c as int - '0' as int
    } else if 'a' <= c <= 'f' {
        c as int - 'a' as int + 10
    } else {
        c as int - 'A' as int + 10
    }
}

/// Whether the byte `b` is written as the character literal `w`.
pub open spec fn is_char(w: Text, b: u8) -> bool {
    let n = w.len() as int;
    &&& n >= 3 && w[0] == '\'' && w[n - 1] == '\''
    &&& {
        ||| n == 3 && w[1] != '\\' && w[1] != '\'' && w[1] as int == b <= 0x7f
        ||| n == 4 && w[1] == '\\' && {
            ||| w[2] == 'n' && b as int == '\n' as int
            ||| w[2] == 'r' && b as int == '\r' as int
            ||| w[2] == 't' && b as int == '\t' as int
            ||| w[2] == '0' && b == 0
            ||| w[2] == '\\' && b as int == '\\' as int
            ||| w[2] == '\'' && b as int == '\'' as int
            ||| w[2] == '"' && b as int == '"' as int
        }
        ||| n == 6 && w[1] == '\\' && w[2] == 'x' && chars::hex_digit(w[3]) && chars::hex_digit(
            w[4],
        ) && b == 16 * digit_value(w[3]) + digit_value(w[4])
    }
}

/// The brackets around a group.
pub open spec fn brackets(kind: Bracket) -> (char, char) {
    match kind {
        Bracket::Parens => ('(', ')'),
        Bracket::TightParens => ('(', ')'),
        Bracket::Square => ('[', ']'),
        Bracket::TightSquare => ('[', ']'),
        Bracket::Curly => ('{', '}'),
    }
}

/// Whether a word that ends at `b` is not cut short there.
pub open spec fn word_ends(cs: Text, b: int) -> bool {
    b < cs.len() ==> !chars::ident_continue(cs[b])
}

/// Whether no longer mark than the one that stands between `a` and `b` begins
/// at `a`.
pub open spec fn longest_mark(cs: Text, a: int, b: int) -> bool {
    forall|s: Sign|
        (#[trigger] mark(s)) matches Some(w) ==> stands_at(cs, a, w) ==> w.len() <= b - a
}

/// Whether no longer number than the one between `a` and `b` begins at `a`.
pub open spec fn longest_number(cs: Text, a: int, b: int) -> bool {
    forall|n: int| a < n <= cs.len() && #[trigger] is_number(cs.subrange(a, n)) ==> n <= b
}

/// Whether there is nothing but blanks and comments between `a` and `b`: each
/// character is a blank, or two slashes come before it on its line.
pub open spec fn is_gap(cs: Text, a: int, b: int) -> bool {
    forall|k: int|
        a <= k < b ==> {
            ||| chars::blank(#[trigger] cs[k])
            ||| exists|c: int| in_comment(cs, a, c, k)
        }
}

/// Whether a comment begins at `c` and goes on up to and with `k`.
pub open spec fn in_comment(cs: Text, a: int, c: int, k: int) -> bool {
    &&& a <= c <= k
    &&& c + 1 < cs.len()
    &&& cs[c] == '/' && cs[c + 1] == '/'
    &&& forall|m: int| c + 2 <= m <= k ==> #[trigger] cs[m] != '\n'
}

/// Whether a token says what stands in the text from `a` up to `b`.
pub open spec fn says(cs: Text, t: TokenV, a: int, b: int) -> bool
    decreases t,
{
    let w = cs.subrange(a, b);
    &&& 0 <= a < b <= cs.len()
    &&& match t {
        TokenV::Ident(n) => {
            &&& n == w
            &&& is_word(w)
            &&& forall|s: Sign| #[trigger] keyword(s) != Some(w)
            &&& word_ends(cs, b)
        },
        TokenV::Num(n) => n == w && is_number(w) && longest_number(cs, a, b),
        TokenV::Str(n) => w == seq!['"'] + n + seq!['"'] && is_quoted(n),
        TokenV::ByteStr(n) => w == seq!['b', '"'] + n + seq!['"'] && is_quoted(n),
        TokenV::Char(byte) => is_char(w, byte),
        TokenV::Sign(s) => {
            ||| mark(s) == Some(w) && longest_mark(cs, a, b)
            ||| keyword(s) == Some(w) && word_ends(cs, b)
        },
        TokenV::Group(kind, inside) => {
            &&& cs[a] == brackets(kind).0
            &&& cs[b - 1] == brackets(kind).1
            &&& say(cs, inside, a + 1, b - 1)
        },
    }
}

/// Where each of a list of tokens begins and ends.
pub struct Places {
    pub starts: Seq<int>,
    pub ends: Seq<int>,
}

/// Whether tokens say what stands in the text from `lo` up to `hi`, in order,
/// with nothing but blanks and comments before, between and behind them.
pub open spec fn say(cs: Text, ts: Seq<Spanned<TokenV>>, lo: int, hi: int) -> bool
    decreases ts,
{
    exists|at: Places|
        {
            &&& #[trigger] are_placed(cs, ts, at, lo, hi)
            &&& forall|i: int|
                0 <= i < ts.len() ==> says(cs, (#[trigger] ts[i]).inner, at.starts[i], at.ends[i])
        }
}

/// Whether the `i`-th token stands at its place, behind the one before it and
/// with nothing between them.
pub open spec fn is_placed(
    cs: Text,
    t: Spanned<TokenV>,
    at: Places,
    i: int,
    lo: int,
    hi: int,
) -> bool {
    &&& t.span.start == chars::offset(cs, at.starts[i] as nat)
    &&& t.span.end == chars::offset(cs, at.ends[i] as nat)
    &&& lo <= at.starts[i] < at.ends[i] <= hi
    &&& i > 0 ==> at.ends[i - 1] <= at.starts[i]
    &&& is_gap(
        cs,
        if i == 0 {
            lo
        } else {
            at.ends[i - 1]
        },
        at.starts[i],
    )
}

/// Whether tokens stand at the given places, one behind the other from `lo`
/// up to `hi`, with nothing but blanks and comments around them.
pub open spec fn are_placed(
    cs: Text,
    ts: Seq<Spanned<TokenV>>,
    at: Places,
    lo: int,
    hi: int,
) -> bool {
    &&& at.starts.len() == ts.len()
    &&& at.ends.len() == ts.len()
    &&& forall|i: int| 0 <= i < ts.len() ==> is_placed(cs, #[trigger] ts[i], at, i, lo, hi)
    &&& is_gap(
        cs,
        if ts.len() == 0 {
            lo
        } else {
            at.ends[ts.len() - 1]
        },
        hi,
    )
}

// ── gaps ───────────────────────────────────────────────────────────────────

proof fn gaps_join(cs: Text, a: int, m: int, b: int)
    requires
        a <= m,
        is_gap(cs, a, m),
        is_gap(cs, m, b),
    ensures
        is_gap(cs, a, b),
{
    assert forall|k: int| a <= k < b implies {
        ||| chars::blank(#[trigger] cs[k])
        ||| exists|c: int| in_comment(cs, a, c, k)
    } by {
        if k >= m && !chars::blank(cs[k]) {
            let c = choose|c: int| in_comment(cs, m, c, k);
            assert(in_comment(cs, a, c, k));
        }
    }
}

proof fn blanks_are_a_gap(cs: Text, i: nat)
    requires
        i <= cs.len(),
    ensures
        i <= chars::run(cs, i, Class::Blank) <= cs.len(),
        is_gap(cs, i as int, chars::run(cs, i, Class::Blank) as int),
{
    chars::run_is_maximal(cs, i, Class::Blank);
}

proof fn comment_is_a_gap(cs: Text, i: nat)
    requires
        lexer::is_at(cs, i, '/'),
        lexer::is_at(cs, i + 1, '/'),
    ensures
        is_gap(cs, i as int, chars::run(cs, i + 2, Class::Line) as int),
{
    chars::run_is_maximal(cs, i + 2, Class::Line);
    let b = chars::run(cs, i + 2, Class::Line);
    assert forall|k: int| i <= k < b implies {
        ||| chars::blank(#[trigger] cs[k])
        ||| exists|c: int| in_comment(cs, i as int, c, k)
    } by {
        assert(in_comment(cs, i as int, i as int, k));
    }
}

// ── tokens without parts ───────────────────────────────────────────────────

/// How many backslashes stand in a row right before `k`, back to `from`.
spec fn slashes(cs: Text, from: int, k: int) -> nat
    decreases k - from,
{
    if from < k && cs[k - 1] == '\\' {
        slashes(cs, from, k - 1) + 1
    } else {
        0
    }
}

proof fn slashes_of_part(cs: Text, from: int, to: int, k: int)
    requires
        0 <= from <= k <= to <= cs.len(),
    ensures
        backslashes(cs.subrange(from, to), k - from) == slashes(cs, from, k),
    decreases k - from,
{
    if from < k {
        assert(cs.subrange(from, to)[k - from - 1] == cs[k - 1]);
        slashes_of_part(cs, from, to, k - 1);
    }
}

/// Whether every quote between `from` and `p` is escaped, and no escape is
/// open at `p`.
spec fn quoted_until(cs: Text, from: int, p: int) -> bool {
    &&& forall|k: int| from <= k < p && #[trigger] cs[k] == '"' ==> slashes(cs, from, k) % 2 == 1
    &&& slashes(cs, from, p) % 2 == 0
}

proof fn string_is_quoted(cs: Text, from: int, p: nat)
    requires
        0 <= from <= p <= cs.len(),
        quoted_until(cs, from, p as int),
        lexer::string_end(cs, p) is Some,
    ensures
        p <= lexer::string_end(cs, p)->0 < cs.len(),
        cs[lexer::string_end(cs, p)->0 as int] == '"',
        quoted_until(cs, from, lexer::string_end(cs, p)->0 as int),
    decreases cs.len() - p,
{
    if cs[p as int] == '"' {
    } else if cs[p as int] == '\\' {
        assert(slashes(cs, from, (p + 1) as int) == slashes(cs, from, p as int) + 1);
        assert(slashes(cs, from, (p + 2) as int) % 2 == 0) by {
            if cs[(p + 1) as int] == '\\' {
                assert(slashes(cs, from, (p + 2) as int) == slashes(cs, from, (p + 1) as int) + 1);
            }
        }
        string_is_quoted(cs, from, p + 2);
    } else {
        string_is_quoted(cs, from, p + 1);
    }
}

proof fn read_string_is_quoted(cs: Text, i: nat)
    requires
        i <= cs.len(),
        lexer::string_end(cs, i) is Some,
    ensures
        i <= lexer::string_end(cs, i)->0 < cs.len(),
        cs[lexer::string_end(cs, i)->0 as int] == '"',
        is_quoted(cs.subrange(i as int, lexer::string_end(cs, i)->0 as int)),
{
    string_is_quoted(cs, i as int, i);
    let k = lexer::string_end(cs, i)->0 as int;
    let w = cs.subrange(i as int, k);
    assert forall|m: int| 0 <= m < w.len() && #[trigger] w[m] == '"' implies backslashes(w, m) % 2
        == 1 by {
        assert(cs[i + m] == '"');
        slashes_of_part(cs, i as int, k, i + m);
    }
    slashes_of_part(cs, i as int, k, k);
}

proof fn word_says(cs: Text, a: nat, b: nat)
    requires
        a < b <= cs.len(),
        is_word(cs.subrange(a as int, b as int)),
        word_ends(cs, b as int),
    ensures
        says(cs, lexer::word_token(cs.subrange(a as int, b as int)), a as int, b as int),
{
    literals();
    let w = cs.subrange(a as int, b as int);
    assert forall|s: Sign| #[trigger] keyword(s) == Some(w) implies lexer::word_token(w)
        == TokenV::Sign(s) by {
        signs_are_shown_as_written(s);
        keyword_is_read(s);
    }
    match lexer::word_token(w) {
        TokenV::Sign(s) => {
            assert(keyword(s) == Some(w));
        },
        _ => {
            assert forall|s: Sign| #[trigger] keyword(s) != Some(w) by {}
        },
    }
}

#[verifier::rlimit(60)]
proof fn keyword_is_read(s: Sign)
    requires
        keyword(s) is Some,
    ensures
        lexer::word_token(keyword(s)->0) == TokenV::Sign(s),
{
    literals();
    let w = keyword(s)->0;
    assert(w.len() == 2 ==> w != "when"@ && w != "true"@ && w != "false"@ && w != "pub"@ && w
        != "ret"@ && w != "self"@ && w != "wait"@ && w != "let"@ && w != "pin"@ && w != "const"@);
    assert("is"@[0] == 'i');
    assert("as"@[0] == 'a');
    assert("when"@[1] == 'h');
    assert("true"@[0] == 't');
    assert("self"@[0] == 's');
    assert("wait"@[1] == 'a');
    assert("pub"@[1] == 'u');
    assert("pin"@[1] == 'i');
    assert("ret"@[0] == 'r');
    assert("let"@[0] == 'l');
    assert("false"@[0] == 'f');
    assert("const"@[0] == 'c');
}

proof fn sign_says(cs: Text, a: nat)
    requires
        lexer::sign_at(cs, a) is Some,
    ensures
        lexer::sign_at(cs, a) matches Some((s, b)) ==> a < b <= cs.len() && says(
            cs,
            TokenV::Sign(s),
            a as int,
            b as int,
        ),
{
    let (s, b) = lexer::sign_at(cs, a)->0;
    let w = cs.subrange(a as int, b as int);
    assert(mark(s) is Some);
    assert(w =~= mark(s)->0);
    assert forall|s2: Sign| (#[trigger] mark(s2)) is Some && stands_at(
        cs,
        a as int,
        mark(s2)->0,
    ) implies mark(s2)->0.len() <= b - a by {
        let v = mark(s2)->0;
        assert(v[0] == cs[a as int]);
        if v.len() == 2 {
            assert(v[1] == cs[(a + 1) as int]);
        }
    }
}

proof fn fraction_is_decimal(cs: Text, a: nat, n: nat)
    requires
        a < n <= cs.len(),
        forall|k: int| a <= k < n ==> chars::digit(#[trigger] cs[k]),
        cs[a as int] == '0' ==> n == a + 1,
    ensures
        a < lexer::fraction_end(cs, n) <= cs.len(),
        is_decimal(cs.subrange(a as int, lexer::fraction_end(cs, n) as int)),
{
    let b = lexer::fraction_end(cs, n);
    if n < cs.len() {
        chars::run_is_maximal(cs, n + 1, Class::Digit);
    }
    let w = cs.subrange(a as int, b as int);
    assert(all_digits(w, 0, n - a));
    if n < b {
        assert(w[n - a] == '.');
        assert forall|k: int| n - a + 1 <= k < w.len() implies chars::digit(#[trigger] w[k]) by {
            assert(chars::in_class(Class::Digit, cs[a + k]));
        }
    }
}

proof fn run_goes_to(cs: Text, i: nat, b: nat, class: Class)
    requires
        i <= b <= cs.len(),
        forall|k: int| i <= k < b ==> chars::in_class(class, #[trigger] cs[k]),
    ensures
        chars::run(cs, i, class) >= b,
        b < cs.len() && !chars::in_class(class, cs[b as int]) ==> chars::run(cs, i, class) == b,
        b == cs.len() ==> chars::run(cs, i, class) == b,
    decreases b - i,
{
    if i < b {
        run_goes_to(cs, i + 1, b, class);
    } else {
        chars::run_is_maximal(cs, i, class);
    }
}

/// The number that begins at `a` ends where no longer one ends.
proof fn number_is_longest(cs: Text, a: nat, n: nat)
    requires
        a < n <= cs.len(),
        is_number(cs.subrange(a as int, n as int)),
    ensures
        lexer::number_end(cs, a) matches Some(b) && n <= b,
{
    let w = cs.subrange(a as int, n as int);
    assert(w[0] == cs[a as int]);
    if w.len() > 1 {
        assert(w[1] == cs[(a + 1) as int]);
    }
    if w.len() > 2 && w[0] == '0' && w[1] == 'x' && (forall|k: int|
        2 <= k < w.len() ==> chars::hex_digit(#[trigger] w[k])) {
        assert forall|k: int| a + 2 <= k < n implies chars::in_class(Class::Hex, #[trigger] cs[k]) by {
            assert(chars::hex_digit(w[k - a]));
        }
        run_goes_to(cs, a + 2, n, Class::Hex);
    } else if w.len() > 2 && w[0] == '0' && w[1] == 'b' && (forall|k: int|
        2 <= k < w.len() ==> #[trigger] w[k] == '0' || w[k] == '1') {
        assert forall|k: int| a + 2 <= k < n implies chars::in_class(Class::Bit, #[trigger] cs[k]) by {
            assert(w[k - a] == '0' || w[k - a] == '1');
        }
        run_goes_to(cs, a + 2, n, Class::Bit);
    } else {
        assert(is_decimal(w));
        let m = choose|m: int|
            {
                &&& 0 < m <= w.len()
                &&& #[trigger] all_digits(w, 0, m)
                &&& w[0] == '0' ==> m == 1
                &&& m < w.len() ==> w[m] == '.' && m + 1 < w.len() && all_digits(
                    w,
                    m + 1,
                    w.len() as int,
                )
            };
        assert(chars::digit(w[0]));
        let d = (a + m) as nat;
        assert forall|k: int| a <= k < d implies chars::in_class(
            Class::Digit,
            #[trigger] cs[k],
        ) by {
            assert(chars::digit(w[k - a]));
        }
        run_goes_to(cs, a + 1, d, Class::Digit);
        if d < n {
            assert(w[m] == cs[d as int]);
            assert forall|k: int| d + 1 <= k < n implies chars::in_class(
                Class::Digit,
                #[trigger] cs[k],
            ) by {
                assert(chars::digit(w[k - a]));
            }
            run_goes_to(cs, d + 1, n, Class::Digit);
            if m > 1 || w[0] != '0' {
                assert(chars::run(cs, a + 1, Class::Digit) == d);
            }
        }
        if cs[a as int] == '0' && a + 2 <= cs.len() {
            chars::run_is_maximal(cs, a + 2, Class::Hex);
            chars::run_is_maximal(cs, a + 2, Class::Bit);
        }
    }
}

proof fn number_says(cs: Text, a: nat)
    requires
        lexer::number_end(cs, a) is Some,
    ensures
        a < lexer::number_end(cs, a)->0 <= cs.len(),
        is_number(cs.subrange(a as int, lexer::number_end(cs, a)->0 as int)),
        longest_number(cs, a as int, lexer::number_end(cs, a)->0 as int),
{
    assert forall|n: int| a < n <= cs.len() && #[trigger] is_number(
        cs.subrange(a as int, n),
    ) implies n <= lexer::number_end(cs, a)->0 by {
        number_is_longest(cs, a, n as nat);
    }
    let b = lexer::number_end(cs, a)->0;
    let w = cs.subrange(a as int, b as int);
    if lexer::is_at(cs, a, '0') && lexer::is_at(cs, a + 1, 'x') && chars::run(
        cs,
        a + 2,
        Class::Hex,
    ) > a + 2 {
        chars::run_is_maximal(cs, a + 2, Class::Hex);
        assert forall|k: int| 2 <= k < w.len() implies chars::hex_digit(#[trigger] w[k]) by {
            assert(chars::in_class(Class::Hex, cs[a + k]));
        }
    } else if lexer::is_at(cs, a, '0') && lexer::is_at(cs, a + 1, 'b') && chars::run(
        cs,
        a + 2,
        Class::Bit,
    ) > a + 2 {
        chars::run_is_maximal(cs, a + 2, Class::Bit);
        assert forall|k: int| 2 <= k < w.len() implies #[trigger] w[k] == '0' || w[k] == '1' by {
            assert(chars::in_class(Class::Bit, cs[a + k]));
        }
    } else if lexer::is_at(cs, a, '0') {
        fraction_is_decimal(cs, a, a + 1);
    } else {
        chars::run_is_maximal(cs, a + 1, Class::Digit);
        let n = chars::run(cs, a + 1, Class::Digit);
        assert forall|k: int| a <= k < n implies chars::digit(#[trigger] cs[k]) by {
            if k > a {
                assert(chars::in_class(Class::Digit, cs[k]));
            }
        }
        fraction_is_decimal(cs, a, n);
    }
}

proof fn ascii_is_a_byte(c: char)
    requires
        c as u32 <= 0x7f,
    ensures
        c as u8 as int == c as int,
{
}

proof fn char_says(cs: Text, a: nat)
    requires
        lexer::char_literal(cs, a) is Some,
    ensures
        lexer::char_literal(cs, a) matches Some((byte, b)) ==> a < b <= cs.len() && is_char(
            cs.subrange(a as int, b as int),
            byte,
        ),
{
    let (byte, b) = lexer::char_literal(cs, a)->0;
    let w = cs.subrange(a as int, b as int);
    assert(w[0] == cs[a as int]);
    assert(w[1] == cs[(a + 1) as int]);
    assert(w[2] == cs[(a + 2) as int]);
    if b - a == 3 {
        assert(w[1] as u32 <= 0x7f);
        ascii_is_a_byte(w[1]);
    }
    if b - a == 4 {
        assert(w[3] == cs[(a + 3) as int]);
        assert(w[1] == '\\' && w[3] == '\'');
        assert(lexer::escaped(w[2]) == Some(byte));
    }
    if b - a == 6 {
        assert(w[3] == cs[(a + 3) as int]);
        assert(w[4] == cs[(a + 4) as int]);
        assert(w[5] == cs[(a + 5) as int]);
        assert(lexer::hex_value(w[3]) == digit_value(w[3]));
        assert(lexer::hex_value(w[4]) == digit_value(w[4]));
        assert(byte == 16 * digit_value(w[3]) + digit_value(w[4]));
    }
}

// ── all tokens ─────────────────────────────────────────────────────────────

proof fn says_up_to(cs: Text, ts: Seq<Spanned<TokenV>>, lo: int, mid: int, hi: int)
    requires
        say(cs, ts, lo, mid),
        lo <= mid <= hi,
        is_gap(cs, mid, hi),
    ensures
        say(cs, ts, lo, hi),
{
    let at = choose|at: Places|
        {
            &&& #[trigger] are_placed(cs, ts, at, lo, mid)
            &&& forall|i: int|
                0 <= i < ts.len() ==> says(cs, (#[trigger] ts[i]).inner, at.starts[i], at.ends[i])
        };
    if ts.len() == 0 {
        gaps_join(cs, lo, mid, hi);
    } else {
        assert(ts[ts.len() - 1] == ts.last());
        gaps_join(cs, at.ends[ts.len() - 1], mid, hi);
    }
    assert(are_placed(cs, ts, at, lo, hi));
}

proof fn says_from(cs: Text, ts: Seq<Spanned<TokenV>>, lo: int, mid: int, hi: int)
    requires
        say(cs, ts, mid, hi),
        lo <= mid,
        is_gap(cs, lo, mid),
    ensures
        say(cs, ts, lo, hi),
{
    let at = choose|at: Places|
        {
            &&& #[trigger] are_placed(cs, ts, at, mid, hi)
            &&& forall|i: int|
                0 <= i < ts.len() ==> says(cs, (#[trigger] ts[i]).inner, at.starts[i], at.ends[i])
        };
    if ts.len() == 0 {
        gaps_join(cs, lo, mid, hi);
    } else {
        assert(ts[0].span.start == chars::offset(cs, at.starts[0] as nat));
        gaps_join(cs, lo, mid, at.starts[0]);
    }
    assert(are_placed(cs, ts, at, lo, hi));
}

#[verifier::spinoff_prover]
proof fn says_one_more(
    cs: Text,
    t: Spanned<TokenV>,
    rest: Seq<Spanned<TokenV>>,
    a: int,
    b: int,
    hi: int,
)
    requires
        0 <= a < b <= hi <= cs.len(),
        says(cs, t.inner, a, b),
        t.span.start == chars::offset(cs, a as nat),
        t.span.end == chars::offset(cs, b as nat),
        say(cs, rest, b, hi),
    ensures
        say(cs, seq![t] + rest, a, hi),
{
    let at = choose|at: Places|
        {
            &&& #[trigger] are_placed(cs, rest, at, b, hi)
            &&& forall|i: int|
                0 <= i < rest.len() ==> says(
                    cs,
                    (#[trigger] rest[i]).inner,
                    at.starts[i],
                    at.ends[i],
                )
        };
    let ts = seq![t] + rest;
    let more = Places { starts: seq![a] + at.starts, ends: seq![b] + at.ends };
    assert forall|i: int| 0 <= i < ts.len() implies is_placed(
        cs,
        #[trigger] ts[i],
        more,
        i,
        a,
        hi,
    ) by {
        if i > 0 {
            assert(ts[i] == rest[i - 1]);
            assert(is_placed(cs, rest[i - 1], at, i - 1, b, hi));
            assert(more.starts[i] == at.starts[i - 1]);
            assert(more.ends[i] == at.ends[i - 1]);
            if i > 1 {
                assert(more.ends[i - 1] == at.ends[i - 2]);
            }
        }
    }
    if rest.len() > 0 {
        assert(more.ends[ts.len() - 1] == at.ends[rest.len() - 1]);
    } else {
        assert(more.ends[ts.len() - 1] == b);
        assert(is_gap(cs, b, hi));
    }
    assert(ts.len() == rest.len() + 1);
    assert(more.starts.len() == ts.len());
    assert(more.ends.len() == ts.len());
    assert(is_gap(cs, more.ends[ts.len() - 1], hi)) by {
        if rest.len() > 0 {
            assert(is_gap(cs, at.ends[rest.len() - 1], hi));
        }
    }
    assert(are_placed(cs, ts, more, a, hi));
    assert forall|i: int| 0 <= i < ts.len() implies says(
        cs,
        (#[trigger] ts[i]).inner,
        more.starts[i],
        more.ends[i],
    ) by {
        if i > 0 {
            assert(ts[i] == rest[i - 1]);
        }
    }
}

proof fn token_says(cs: Text, i: nat)
    requires
        i <= cs.len(),
        chars::byte_len(cs) <= usize::MAX,
    ensures
        match lexer::tok_at(cs, i) {
            Some((TokenV::Sign(Sign::Comment), j)) => i < j <= cs.len() && is_gap(
                cs,
                i as int,
                j as int,
            ),
            Some((t, j)) => i < j <= cs.len() && says(cs, t, i as int, j as int),
            None => true,
        },
    decreases cs.len() - i, 0int,
{
    if let Some((t, j)) = lexer::tok_at(cs, i) {
        let c = cs[i as int];
        if c == '/' && lexer::is_at(cs, i + 1, '/') {
            comment_is_a_gap(cs, i);
            chars::run_is_maximal(cs, i + 2, Class::Line);
        } else if c == 'b' && lexer::is_at(cs, i + 1, '"') && lexer::string_end(cs, i + 2) is Some {
            read_string_is_quoted(cs, i + 2);
            let n = cs.subrange((i + 2) as int, j - 1);
            assert(cs.subrange(i as int, j as int) =~= seq!['b', '"'] + n + seq!['"']);
        } else if chars::ident_start(c) {
            chars::run_is_maximal(cs, i + 1, Class::Word);
            let w = cs.subrange(i as int, j as int);
            assert forall|k: int| 1 <= k < w.len() implies chars::ident_continue(
                #[trigger] w[k],
            ) by {
                assert(chars::in_class(Class::Word, cs[i + k]));
            }
            word_says(cs, i, j);
        } else if lexer::sign_at(cs, i) is Some {
            sign_says(cs, i);
        } else if lexer::number_end(cs, i) is Some {
            number_says(cs, i);
        } else if c == '"' {
            read_string_is_quoted(cs, i + 1);
            let n = cs.subrange((i + 1) as int, j - 1);
            assert(cs.subrange(i as int, j as int) =~= seq!['"'] + n + seq!['"']);
        } else if c == '\'' {
            char_says(cs, i);
        } else {
            tokens_say(cs, i + 1);
            let inside = lexer::toks_from(cs, i + 1);
            blanks_are_a_gap(cs, inside.1);
            says_up_to(cs, inside.0, (i + 1) as int, inside.1 as int, j - 1);
        }
    }
}

proof fn tokens_say(cs: Text, i: nat)
    requires
        i <= cs.len(),
        chars::byte_len(cs) <= usize::MAX,
    ensures
        i <= lexer::toks_from(cs, i).1 <= cs.len(),
        say(cs, lexer::toks_from(cs, i).0, i as int, lexer::toks_from(cs, i).1 as int),
    decreases cs.len() - i, 1int,
{
    let a = chars::run(cs, i, Class::Blank);
    blanks_are_a_gap(cs, i);
    let (ts, e) = lexer::toks_from(cs, i);
    let found = match lexer::tok_at(cs, a) {
        Some((t, j)) => a < j <= cs.len(),
        None => false,
    };
    if found {
        let (t, j) = lexer::tok_at(cs, a)->0;
        token_says(cs, a);
        blanks_are_a_gap(cs, j);
        let b = chars::run(cs, j, Class::Blank);
        tokens_say(cs, b);
        let (rest, end) = lexer::toks_from(cs, b);
        says_from(cs, rest, j as int, b as int, end as int);
        if t == TokenV::Sign(Sign::Comment) {
            says_from(cs, rest, a as int, j as int, end as int);
        } else {
            let one = Spanned { inner: t, span: lexer::char_span(cs, a, j) };
            chars::offset_grows(cs, a, j);
            says_one_more(cs, one, rest, a as int, j as int, end as int);
        }
        says_from(cs, ts, i as int, a as int, e as int);
    } else {
        let none = Places { starts: Seq::empty(), ends: Seq::empty() };
        assert(ts =~= Seq::<Spanned<TokenV>>::empty());
        assert(are_placed(cs, ts, none, i as int, e as int));
    }
}

proof fn tagged_says(cs: Text, t: TokenV, tight: bool, a: int, b: int)
    requires
        says(cs, t, a, b),
    ensures
        says(cs, lexer::tagged_token(t, tight), a, b),
    decreases t,
{
    if let TokenV::Group(_, inside) = t {
        tagged_say(cs, inside, a + 1, b - 1);
    }
}

#[verifier::spinoff_prover]
#[verifier::rlimit(60)]
proof fn tagged_say(cs: Text, ts: Seq<Spanned<TokenV>>, lo: int, hi: int)
    requires
        say(cs, ts, lo, hi),
    ensures
        say(cs, lexer::tagged(ts), lo, hi),
    decreases ts,
{
    let at = choose|at: Places|
        {
            &&& #[trigger] are_placed(cs, ts, at, lo, hi)
            &&& forall|i: int|
                0 <= i < ts.len() ==> says(cs, (#[trigger] ts[i]).inner, at.starts[i], at.ends[i])
        };
    let out = lexer::tagged(ts);
    assert forall|i: int| 0 <= i < out.len() implies (#[trigger] out[i]).span == ts[i].span && says(
        cs,
        out[i].inner,
        at.starts[i],
        at.ends[i],
    ) by {
        assert(decreases_to!(ts => ts[i]));
        assert(decreases_to!(ts[i] => ts[i].inner));
        tagged_says(cs, ts[i].inner, lexer::touches(ts, i), at.starts[i], at.ends[i]);
    }
    same_spans_are_placed(cs, ts, out, at, lo, hi);
}

proof fn same_spans_are_placed(
    cs: Text,
    ts: Seq<Spanned<TokenV>>,
    out: Seq<Spanned<TokenV>>,
    at: Places,
    lo: int,
    hi: int,
)
    requires
        are_placed(cs, ts, at, lo, hi),
        out.len() == ts.len(),
        forall|i: int| 0 <= i < out.len() ==> (#[trigger] out[i]).span == ts[i].span,
    ensures
        are_placed(cs, out, at, lo, hi),
{
    assert forall|i: int| 0 <= i < out.len() implies is_placed(
        cs,
        #[trigger] out[i],
        at,
        i,
        lo,
        hi,
    ) by {
        assert(is_placed(cs, ts[i], at, i, lo, hi));
    }
}

/// Every token that is read says what stands in the text at its span: a sign
/// the characters of the sign, the longest there, a word, a number or a
/// string its characters, a character literal its byte, a group its brackets
/// with what its tokens say between them.  Between the tokens there is
/// nothing but blanks and comments.
pub proof fn tokens_say_what_stands(cs: Text)
    requires
        chars::byte_len(cs) <= usize::MAX,
    ensures
        lexer::lexed(cs) matches Some(ts) ==> say(cs, ts, 0, cs.len() as int),
{
    tokens_say(cs, 0);
    if lexer::lexed(cs) is Some {
        tagged_say(cs, lexer::toks_from(cs, 0).0, 0, cs.len() as int);
    }
}

// ── groups ─────────────────────────────────────────────────────────────────

/// Whether `ts` are the tokens `raw` in which a group in parentheses or square
/// brackets is tight where it begins at the end of the token before it, and
/// not where it does not, inside groups too.
pub open spec fn tells_tight(raw: Seq<Spanned<TokenV>>, ts: Seq<Spanned<TokenV>>) -> bool
    decreases raw,
{
    &&& ts.len() == raw.len()
    &&& forall|i: int|
        0 <= i < raw.len() ==> (#[trigger] raw[i]).span == ts[i].span && match raw[i].inner {
            TokenV::Group(kind, a) => match ts[i].inner {
                TokenV::Group(now, b) => {
                    let near = i > 0 && raw[i - 1].span.end == raw[i].span.start;
                    match kind {
                        Bracket::Parens => tells_tight(a, b) && now == if near {
                            Bracket::TightParens
                        } else {
                            Bracket::Parens
                        },
                        Bracket::Square => tells_tight(a, b) && now == if near {
                            Bracket::TightSquare
                        } else {
                            Bracket::Square
                        },
                        Bracket::Curly => tells_tight(a, b) && now == kind,
                        _ => now == kind && b == a,
                    }
                },
                _ => false,
            },
            t => ts[i].inner == t,
        }
}

/// Groups are told apart by whether they begin where the token before them
/// ends.
pub proof fn tight_groups_touch(ts: Seq<Spanned<TokenV>>)
    ensures
        tells_tight(ts, lexer::tagged(ts)),
    decreases ts,
{
    let now = lexer::tagged(ts);
    assert forall|i: int| 0 <= i < ts.len() implies match (#[trigger] ts[i]).inner {
        TokenV::Group(_, inside) => tells_tight(inside, lexer::tagged(inside)),
        _ => true,
    } by {
        if let TokenV::Group(_, inside) = ts[i].inner {
            tight_groups_touch(inside);
        }
    }
}

/// A token without parts is shown as it is written: a word, a number, a string
/// or a sign by what stands in the text, a character literal by one that
/// writes its byte.
pub proof fn tokens_are_shown_as_written(cs: Text, t: TokenV, a: int, b: int)
    requires
        says(cs, t, a, b),
    ensures
        match t {
            TokenV::Group(_, _) => true,
            TokenV::Char(byte) => is_char(token::token_text(t), byte),
            _ => token::token_text(t) == cs.subrange(a, b),
        },
{
    match t {
        TokenV::Sign(s) => {
            signs_are_shown_as_written(s);
        },
        TokenV::Str(n) => {
            reveal_strlit("\"");
            assert("\""@ =~= seq!['"']);
        },
        TokenV::ByteStr(n) => {
            reveal_strlit("b\"");
            reveal_strlit("\"");
            assert("b\""@ =~= seq!['b', '"']);
            assert("\""@ =~= seq!['"']);
        },
        TokenV::Char(byte) => {
            reveal_strlit("'\\x");
            reveal_strlit("'");
            hex_pairs_count(byte);
        },
        _ => {},
    }
}

proof fn hex_pairs_count(b: u8)
    ensures
        chars::hex_digit(token::hex_digit(b / 16)),
        chars::hex_digit(token::hex_digit(b % 16)),
        b == 16 * digit_value(token::hex_digit(b / 16)) + digit_value(token::hex_digit(b % 16)),
{
    hex_digits_count(b / 16);
    hex_digits_count(b % 16);
}

proof fn hex_digits_count(n: u8)
    requires
        n < 16,
    ensures
        chars::hex_digit(token::hex_digit(n)),
        digit_value(token::hex_digit(n)) == n,
{
}

// ── what stands is read ────────────────────────────────────────────────────

proof fn quoted_string_ends(cs: Text, from: int, p: nat, k: nat)
    requires
        0 <= from <= p <= k < cs.len(),
        quoted_until(cs, from, k as int),
        slashes(cs, from, p as int) % 2 == 0,
        cs[k as int] == '"',
    ensures
        lexer::string_end(cs, p) == Some(k),
    decreases k - p,
{
    if p < k {
        if cs[p as int] == '\\' {
            assert(slashes(cs, from, (p + 1) as int) == slashes(cs, from, p as int) + 1);
            assert(p + 1 != k);
            assert(slashes(cs, from, (p + 2) as int) % 2 == 0) by {
                if cs[(p + 1) as int] == '\\' {
                    assert(slashes(cs, from, (p + 2) as int) == slashes(cs, from, (p + 1) as int)
                        + 1);
                }
            }
            quoted_string_ends(cs, from, p + 2, k);
        } else {
            assert(cs[p as int] != '"');
            quoted_string_ends(cs, from, p + 1, k);
        }
    }
}

proof fn quoted_is_read(cs: Text, i: nat, k: nat)
    requires
        i <= k < cs.len(),
        is_quoted(cs.subrange(i as int, k as int)),
        cs[k as int] == '"',
    ensures
        lexer::string_end(cs, i) == Some(k),
{
    let w = cs.subrange(i as int, k as int);
    assert forall|m: int| i <= m < k && #[trigger] cs[m] == '"' implies slashes(cs, i as int, m) % 2
        == 1 by {
        assert(w[m - i] == '"');
        slashes_of_part(cs, i as int, k as int, m);
    }
    slashes_of_part(cs, i as int, k as int, k as int);
    quoted_string_ends(cs, i as int, i, k);
}

/// Whether a comment or a byte string begins at `a`.
pub open spec fn begins_otherwise(cs: Text, a: int) -> bool {
    ||| stands_at(cs, a, seq!['/', '/'])
    ||| exists|k: int| a + 2 <= k && #[trigger] bytes_stand(cs, a, k)
}

/// Whether a byte string stands from `a` up to and with the quote at `k`.
pub open spec fn bytes_stand(cs: Text, a: int, k: int) -> bool {
    &&& 0 <= a && a + 2 <= k < cs.len()
    &&& cs[a] == 'b' && cs[a + 1] == '"' && cs[k] == '"'
    &&& is_quoted(cs.subrange(a + 2, k))
}

proof fn quotes_stand(cs: Text, n: Text, a: nat, b: nat, open: Text)
    requires
        a < b <= cs.len(),
        cs.subrange(a as int, b as int) == open + n + seq!['"'],
    ensures
        b == a + open.len() + n.len() + 1,
        cs[b - 1] == '"',
        n == cs.subrange((a + open.len()) as int, b - 1),
        forall|k: int| 0 <= k < open.len() ==> cs[a + k] == #[trigger] open[k],
{
    let w = cs.subrange(a as int, b as int);
    let all = open + n + seq!['"'];
    assert(w.len() == all.len());
    assert(w[w.len() - 1] == cs[b - 1]);
    assert(all[all.len() - 1] == '"');
    assert forall|k: int| 0 <= k < open.len() implies cs[a + k] == #[trigger] open[k] by {
        assert(w[k] == cs[a + k]);
        assert(all[k] == open[k]);
    }
    assert forall|k: int| 0 <= k < n.len() implies n[k] == cs[a + open.len() + k] by {
        assert(w[open.len() + k] == cs[a + (open.len() + k)]);
        assert(all[open.len() + k] == n[k]);
    }
    assert(n =~= cs.subrange((a + open.len()) as int, b - 1));
}

/// What stands in the text is read: where a token without parts says what
/// stands from `a` up to `b`, and no comment and no byte string begins there,
/// that token is read there and ends there.
#[verifier::spinoff_prover]
#[verifier::rlimit(40)]
pub proof fn what_stands_is_read(cs: Text, t: TokenV, a: nat, b: nat)
    requires
        says(cs, t, a as int, b as int),
        !(t is Group),
        t is ByteStr || !begins_otherwise(cs, a as int),
    ensures
        lexer::tok_at(cs, a) == Some((t, b)),
{
    let w = cs.subrange(a as int, b as int);
    let c = cs[a as int];
    assert(w[0] == c);
    if c == '/' && lexer::is_at(cs, a + 1, '/') {
        assert(stands_at(cs, a as int, seq!['/', '/']));
        assert(t is ByteStr);
    }
    if c == 'b' && lexer::is_at(cs, a + 1, '"') && lexer::string_end(cs, a + 2) is Some {
        read_string_is_quoted(cs, a + 2);
        assert(bytes_stand(cs, a as int, lexer::string_end(cs, a + 2)->0 as int));
        assert(t is ByteStr);
    }
    match t {
        TokenV::Ident(_) => {
            word_is_read(cs, t, a, b);
        },
        TokenV::Num(_) => {
            number_is_longest(cs, a, b);
            number_says(cs, a);
            if is_decimal(w) {
                let m = choose|m: int|
                    {
                        &&& 0 < m <= w.len()
                        &&& #[trigger] all_digits(w, 0, m)
                        &&& w[0] == '0' ==> m == 1
                        &&& m < w.len() ==> w[m] == '.' && m + 1 < w.len() && all_digits(
                            w,
                            m + 1,
                            w.len() as int,
                        )
                    };
                assert(chars::digit(w[0]));
            }
            assert(chars::digit(c));
            assert(!chars::ident_start(c));
            assert(lexer::sign_at(cs, a) is None);
        },
        TokenV::Str(n) => {
            quotes_stand(cs, n, a, b, seq!['"']);
            quoted_is_read(cs, a + 1, (b - 1) as nat);
        },
        TokenV::ByteStr(n) => {
            quotes_stand(cs, n, a, b, seq!['b', '"']);
            assert(cs[(a + 1) as int] == '"');
            quoted_is_read(cs, a + 2, (b - 1) as nat);
        },
        TokenV::Char(byte) => {
            char_is_read(cs, byte, a, b);
        },
        TokenV::Sign(s) => {
            if keyword(s) == Some(w) {
                word_is_read(cs, t, a, b);
            } else {
                sign_is_read(cs, s, a, b);
            }
        },
        _ => {},
    }
}

proof fn word_is_read(cs: Text, t: TokenV, a: nat, b: nat)
    requires
        a < b <= cs.len(),
        says(cs, t, a as int, b as int),
        match t {
            TokenV::Ident(_) => true,
            TokenV::Sign(s) => keyword(s) == Some(cs.subrange(a as int, b as int)),
            _ => false,
        },
        !(cs[a as int] == 'b' && lexer::is_at(cs, a + 1, '"') && lexer::string_end(cs, a + 2) is Some),
    ensures
        lexer::tok_at(cs, a) == Some((t, b)),
{
    let w = cs.subrange(a as int, b as int);
    if let TokenV::Sign(s) = t {
        keyword_is_read(s);
        keyword_is_a_word(s);
    }
    assert(is_word(w));
    assert(w[0] == cs[a as int]);
    assert forall|k: int| a + 1 <= k < b implies chars::in_class(Class::Word, #[trigger] cs[k]) by {
        assert(chars::ident_continue(w[k - a]));
    }
    assert(word_ends(cs, b as int)) by {
        if let TokenV::Sign(s) = t {
            if mark(s) == Some(w) {
                assert(keyword(s) is None);
            }
        }
    }
    run_goes_to(cs, a + 1, b, Class::Word);
    assert(chars::run(cs, a + 1, Class::Word) == b);
    word_says(cs, a, b);
    if t is Ident {
        if let TokenV::Sign(s2) = lexer::word_token(w) {
            assert(keyword(s2) != Some(w));
            assert(mark(s2) == Some(w));
            assert(mark(s2)->0[0] == w[0]);
        }
    }
}

proof fn keyword_is_a_word(s: Sign)
    requires
        keyword(s) is Some,
    ensures
        is_word(keyword(s)->0),
{
    let w = keyword(s)->0;
    assert forall|k: int| 0 <= k < w.len() implies chars::ascii_letter(#[trigger] w[k]) by {}
    assert(chars::ascii_letter(w[0]));
    assert forall|k: int| 1 <= k < w.len() implies chars::ident_continue(#[trigger] w[k]) by {
        letter_continues(w[k]);
    }
    letter_continues(w[0]);
}

proof fn letter_continues(c: char)
    requires
        chars::ascii_letter(c),
    ensures
        chars::ident_continue(c),
        chars::ident_start(c),
{
}

proof fn sign_is_read(cs: Text, s: Sign, a: nat, b: nat)
    requires
        a < b <= cs.len(),
        mark(s) == Some(cs.subrange(a as int, b as int)),
        longest_mark(cs, a as int, b as int),
        !(cs[a as int] == '/' && lexer::is_at(cs, a + 1, '/')),
    ensures
        lexer::tok_at(cs, a) == Some((TokenV::Sign(s), b)),
{
    let w = cs.subrange(a as int, b as int);
    let c = cs[a as int];
    assert(w[0] == c);
    assert(mark(s)->0[0] == c);
    assert(lexer::sign_at(cs, a) is Some);
    sign_says(cs, a);
    let (s2, b2) = lexer::sign_at(cs, a)->0;
    let w2 = cs.subrange(a as int, b2 as int);
    assert(mark(s2) == Some(w2)) by {
        if keyword(s2) == Some(w2) {
            assert(keyword(s2)->0[0] == c);
        }
    }
    assert(stands_at(cs, a as int, w2));
    assert(stands_at(cs, a as int, w));
    assert(longest_mark(cs, a as int, b2 as int)) by {
        if keyword(s2) == Some(w2) {
            assert(keyword(s2)->0[0] == c);
        }
    }
    assert(b == b2);
    marks_differ(s, s2);
}

proof fn marks_differ(s: Sign, t: Sign)
    requires
        mark(s) is Some,
        mark(s) == mark(t),
    ensures
        s == t,
{
    let v = mark(s)->0;
    let w = mark(t)->0;
    assert(v[0] == w[0]);
    if v.len() == 2 {
        assert(v[1] == w[1]);
    }
}

proof fn char_is_read(cs: Text, byte: u8, a: nat, b: nat)
    requires
        a < b <= cs.len(),
        is_char(cs.subrange(a as int, b as int), byte),
    ensures
        lexer::tok_at(cs, a) == Some((TokenV::Char(byte), b)),
{
    let w = cs.subrange(a as int, b as int);
    assert(w[0] == cs[a as int]);
    assert(w[1] == cs[(a + 1) as int]);
    assert(w[2] == cs[(a + 2) as int]);
    if b - a == 3 {
        assert(w[1] as u32 <= 0x7f);
        ascii_is_a_byte(w[1]);
    } else if b - a == 4 {
        assert(w[3] == cs[(a + 3) as int]);
    } else {
        assert(w[3] == cs[(a + 3) as int]);
        assert(w[4] == cs[(a + 4) as int]);
        assert(w[5] == cs[(a + 5) as int]);
        assert(lexer::hex_value(w[3]) == digit_value(w[3]));
        assert(lexer::hex_value(w[4]) == digit_value(w[4]));
    }
    assert(lexer::char_literal(cs, a) == Some((byte, b)));
    assert(!chars::ident_start('\''));
    assert(lexer::sign_at(cs, a) is None);
    assert(lexer::number_end(cs, a) is None);
}

} // verus!
