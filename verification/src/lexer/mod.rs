//! The lexer: from a source text to nested tokens.
//!
//! A bracketed group is one token that holds the tokens inside it.  Every
//! token carries the byte range it was read from; comments are dropped.

use vstd::prelude::*;

use crate::api::token;
use crate::api::token::{sign_token, Bracket, Sign, Token, TokenV};
use crate::error_handle::{SyntaxError, SyntaxErrorV};
use crate::lexer::chars::{belongs, is_ident_start, offsets, run_end, Class};
use crate::span::{SimpleSpan, Spanned};
use crate::text::{chars_of, same, text_of, Text};

pub mod chars;
pub mod comments;
pub mod spans;
pub mod spelling;

verus! {

/// Whether the character at `i` is `c`.
pub open spec fn is_at(cs: Text, i: nat, c: char) -> bool {
    i < cs.len() && cs[i as int] == c
}

fn at(cs: &Vec<char>, i: usize, c: char) -> (r: bool)
    ensures
        r == is_at(cs@, i as nat, c),
{
    i < cs.len() && cs[i] == c
}

/// The operator or punctuation mark at `i`, the longest there is, and where
/// it ends.
pub open spec fn sign_at(cs: Text, i: nat) -> Option<(Sign, nat)> {
    if i >= cs.len() {
        None
    } else {
        let c = cs[i as int];
        if c == '@' {
            Some((Sign::At, i + 1))
        } else if c == '.' {
            Some((Sign::Dot, i + 1))
        } else if c == ':' {
            Some((Sign::Colon, i + 1))
        } else if c == '+' {
            Some((Sign::Plus, i + 1))
        } else if c == '*' {
            Some((Sign::Star, i + 1))
        } else if c == '/' {
            Some((Sign::Slash, i + 1))
        } else if c == '&' {
            Some((Sign::BitAnd, i + 1))
        } else if c == '|' {
            Some((Sign::BitOr, i + 1))
        } else if c == '^' {
            Some((Sign::BitXor, i + 1))
        } else if c == '-' {
            if is_at(cs, i + 1, '>') {
                Some((Sign::Arrow, i + 2))
            } else {
                Some((Sign::Minus, i + 1))
            }
        } else if c == '<' {
            if is_at(cs, i + 1, '<') {
                Some((Sign::Shl, i + 2))
            } else if is_at(cs, i + 1, '=') {
                Some((Sign::LessEq, i + 2))
            } else {
                Some((Sign::Less, i + 1))
            }
        } else if c == '>' {
            if is_at(cs, i + 1, '>') {
                Some((Sign::Shr, i + 2))
            } else if is_at(cs, i + 1, '=') {
                Some((Sign::GreaterEq, i + 2))
            } else {
                Some((Sign::Greater, i + 1))
            }
        } else if c == '=' {
            if is_at(cs, i + 1, '=') {
                Some((Sign::EqEq, i + 2))
            } else {
                Some((Sign::Eq, i + 1))
            }
        } else {
            None
        }
    }
}

fn read_sign(cs: &Vec<char>, i: usize) -> (r: Option<(Sign, usize)>)
    ensures
        match r {
            Some((s, j)) => sign_at(cs@, i as nat) == Some((s, j as nat)) && i < j <= cs@.len(),
            None => sign_at(cs@, i as nat) is None,
        },
{
    if i >= cs.len() {
        None
    } else {
        let c: char = cs[i];
        if c == '@' {
            Some((Sign::At, i + 1))
        } else if c == '.' {
            Some((Sign::Dot, i + 1))
        } else if c == ':' {
            Some((Sign::Colon, i + 1))
        } else if c == '+' {
            Some((Sign::Plus, i + 1))
        } else if c == '*' {
            Some((Sign::Star, i + 1))
        } else if c == '/' {
            Some((Sign::Slash, i + 1))
        } else if c == '&' {
            Some((Sign::BitAnd, i + 1))
        } else if c == '|' {
            Some((Sign::BitOr, i + 1))
        } else if c == '^' {
            Some((Sign::BitXor, i + 1))
        } else if c == '-' {
            if at(cs, i + 1, '>') {
                Some((Sign::Arrow, i + 2))
            } else {
                Some((Sign::Minus, i + 1))
            }
        } else if c == '<' {
            if at(cs, i + 1, '<') {
                Some((Sign::Shl, i + 2))
            } else if at(cs, i + 1, '=') {
                Some((Sign::LessEq, i + 2))
            } else {
                Some((Sign::Less, i + 1))
            }
        } else if c == '>' {
            if at(cs, i + 1, '>') {
                Some((Sign::Shr, i + 2))
            } else if at(cs, i + 1, '=') {
                Some((Sign::GreaterEq, i + 2))
            } else {
                Some((Sign::Greater, i + 1))
            }
        } else if c == '=' {
            if at(cs, i + 1, '=') {
                Some((Sign::EqEq, i + 2))
            } else {
                Some((Sign::Eq, i + 1))
            }
        } else {
            None
        }
    }
}

/// The token of a word: a keyword or an identifier.
pub open spec fn word_token(w: Text) -> TokenV {
    if w == "is"@ {
        TokenV::Sign(Sign::Is)
    } else if w == "when"@ {
        TokenV::Sign(Sign::When)
    } else if w == "true"@ {
        TokenV::Sign(Sign::True)
    } else if w == "false"@ {
        TokenV::Sign(Sign::False)
    } else if w == "pub"@ {
        TokenV::Sign(Sign::Pub)
    } else if w == "ret"@ {
        TokenV::Sign(Sign::Ret)
    } else if w == "self"@ {
        TokenV::Sign(Sign::SelfKw)
    } else if w == "wait"@ {
        TokenV::Sign(Sign::Wait)
    } else if w == "let"@ {
        TokenV::Sign(Sign::Let)
    } else if w == "as"@ {
        TokenV::Sign(Sign::As)
    } else if w == "pin"@ {
        TokenV::Sign(Sign::Pin)
    } else if w == "const"@ {
        TokenV::Sign(Sign::Const)
    } else {
        TokenV::Ident(w)
    }
}

fn read_word(w: String) -> (r: Token)
    ensures
        token::token_view(r) == word_token(w@),
{
    if same(w.as_str(), "is") {
        Token::Is
    } else if same(w.as_str(), "when") {
        Token::When
    } else if same(w.as_str(), "true") {
        Token::True
    } else if same(w.as_str(), "false") {
        Token::False
    } else if same(w.as_str(), "pub") {
        Token::Pub
    } else if same(w.as_str(), "ret") {
        Token::Ret
    } else if same(w.as_str(), "self") {
        Token::SelfKw
    } else if same(w.as_str(), "wait") {
        Token::Wait
    } else if same(w.as_str(), "let") {
        Token::Let
    } else if same(w.as_str(), "as") {
        Token::As
    } else if same(w.as_str(), "pin") {
        Token::Pin
    } else if same(w.as_str(), "const") {
        Token::Const
    } else {
        Token::Ident(w)
    }
}

/// Where the number at `i` ends: `0x` and hexadecimal digits, `0b` and
/// binary digits, or a decimal number without leading zeros and with an
/// optional fraction.
pub open spec fn number_end(cs: Text, i: nat) -> Option<nat> {
    if is_at(cs, i, '0') && is_at(cs, i + 1, 'x') && chars::run(cs, i + 2, Class::Hex) > i + 2 {
        Some(chars::run(cs, i + 2, Class::Hex))
    } else if is_at(cs, i, '0') && is_at(cs, i + 1, 'b') && chars::run(cs, i + 2, Class::Bit) > i
        + 2 {
        Some(chars::run(cs, i + 2, Class::Bit))
    } else if is_at(cs, i, '0') {
        Some(fraction_end(cs, i + 1))
    } else if i < cs.len() && chars::digit(cs[i as int]) {
        Some(fraction_end(cs, chars::run(cs, i + 1, Class::Digit)))
    } else {
        None
    }
}

/// Where a fraction that may stand at `i` ends.
pub open spec fn fraction_end(cs: Text, i: nat) -> nat {
    if is_at(cs, i, '.') && chars::run(cs, i + 1, Class::Digit) > i + 1 {
        chars::run(cs, i + 1, Class::Digit)
    } else {
        i
    }
}

fn read_fraction(cs: &Vec<char>, i: usize) -> (r: usize)
    requires
        i <= cs@.len(),
    ensures
        r == fraction_end(cs@, i as nat),
        i <= r <= cs@.len(),
{
    if i < cs.len() && cs[i] == '.' {
        let j: usize = run_end(cs, i + 1, Class::Digit);
        if j > i + 1 {
            return j;
        }
    }
    i
}

fn read_number(cs: &Vec<char>, i: usize) -> (r: Option<usize>)
    ensures
        match r {
            Some(j) => number_end(cs@, i as nat) == Some(j as nat) && i < j <= cs@.len(),
            None => number_end(cs@, i as nat) is None,
        },
{
    if i >= cs.len() {
        return None;
    }
    if cs[i] == '0' {
        if at(cs, i + 1, 'x') {
            let j: usize = run_end(cs, i + 2, Class::Hex);
            if j > i + 2 {
                return Some(j);
            }
        } else if at(cs, i + 1, 'b') {
            let j: usize = run_end(cs, i + 2, Class::Bit);
            if j > i + 2 {
                return Some(j);
            }
        }
        Some(read_fraction(cs, i + 1))
    } else if '0' <= cs[i] && cs[i] <= '9' {
        Some(read_fraction(cs, run_end(cs, i + 1, Class::Digit)))
    } else {
        None
    }
}

/// The position of the quote that closes a string whose text begins at `i`.
/// A backslash takes the character behind it along, so an escaped quote
/// does not close the string.
pub open spec fn string_end(cs: Text, i: nat) -> Option<nat>
    decreases cs.len() - i,
{
    if i >= cs.len() {
        None
    } else if cs[i as int] == '"' {
        Some(i)
    } else if cs[i as int] == '\\' {
        if i + 1 < cs.len() {
            string_end(cs, i + 2)
        } else {
            None
        }
    } else {
        string_end(cs, i + 1)
    }
}

fn read_string(cs: &Vec<char>, i: usize) -> (r: Option<usize>)
    ensures
        match r {
            Some(k) => string_end(cs@, i as nat) == Some(k as nat) && i <= k < cs@.len(),
            None => string_end(cs@, i as nat) is None,
        },
{
    let mut k: usize = i;
    while k < cs.len()
        invariant
            i <= k,
            string_end(cs@, i as nat) == string_end(cs@, k as nat),
        decreases cs@.len() - k,
    {
        if cs[k] == '"' {
            return Some(k);
        }
        if cs[k] == '\\' {
            if k + 1 < cs.len() {
                k = k + 2;
            } else {
                return None;
            }
        } else {
            k = k + 1;
        }
    }
    None
}

/// The byte that an escape stands for.
pub open spec fn escaped(c: char) -> Option<u8> {
    if c == 'n' {
        Some(10u8)
    } else if c == 'r' {
        Some(13u8)
    } else if c == 't' {
        Some(9u8)
    } else if c == '0' {
        Some(0u8)
    } else if c == '\\' {
        Some(92u8)
    } else if c == '\'' {
        Some(39u8)
    } else if c == '"' {
        Some(34u8)
    } else {
        None
    }
}

fn read_escape(c: char) -> (r: Option<u8>)
    ensures
        r == escaped(c),
{
    if c == 'n' {
        Some(10u8)
    } else if c == 'r' {
        Some(13u8)
    } else if c == 't' {
        Some(9u8)
    } else if c == '0' {
        Some(0u8)
    } else if c == '\\' {
        Some(92u8)
    } else if c == '\'' {
        Some(39u8)
    } else if c == '"' {
        Some(34u8)
    } else {
        None
    }
}

/// The value of a hexadecimal digit.
pub open spec fn hex_value(c: char) -> u8 {
    if chars::digit(c) {
        (c as u8 - 48) as u8
    } else if 'a' <= c <= 'f' {
        (c as u8 - 87) as u8
    } else {
        (c as u8 - 55) as u8
    }
}

fn read_hex(c: char) -> (r: u8)
    requires
        chars::hex_digit(c),
    ensures
        r == hex_value(c),
        r < 16,
{
    let v: u8 = c as u8;
    if '0' <= c && c <= '9' {
        v - 48
    } else if 'a' <= c && c <= 'f' {
        v - 87
    } else {
        v - 55
    }
}

/// The byte that the character literal at `i` stands for, and where the
/// literal ends: an ASCII character other than the quote and the backslash,
/// an escape, or `\\x` and two hexadecimal digits, between single quotes.
pub open spec fn char_literal(cs: Text, i: nat) -> Option<(u8, nat)> {
    let at = i as int;
    if !is_at(cs, i, '\'') || i + 1 >= cs.len() {
        None
    } else if cs[at + 1] == '\\' {
        if is_at(cs, i + 2, 'x') {
            if i + 5 < cs.len() && chars::hex_digit(cs[at + 3]) && chars::hex_digit(cs[at + 4])
                && cs[at + 5] == '\'' {
                Some(((16 * hex_value(cs[at + 3]) + hex_value(cs[at + 4])) as u8, i + 6))
            } else {
                None
            }
        } else if i + 3 < cs.len() && escaped(cs[at + 2]) is Some && cs[at + 3] == '\'' {
            Some((escaped(cs[at + 2])->0, i + 4))
        } else {
            None
        }
    } else if cs[at + 1] != '\'' && cs[at + 1] as u32 <= 0x7f && is_at(cs, i + 2, '\'') {
        Some((cs[at + 1] as u8, i + 3))
    } else {
        None
    }
}

fn read_char(cs: &Vec<char>, i: usize) -> (r: Option<(u8, usize)>)
    ensures
        match r {
            Some((b, j)) => char_literal(cs@, i as nat) == Some((b, j as nat)) && i < j
                <= cs@.len(),
            None => char_literal(cs@, i as nat) is None,
        },
{
    if i >= cs.len() || cs[i] != '\'' || i + 1 >= cs.len() {
        return None;
    }
    if cs[i + 1] == '\\' {
        if at(cs, i + 2, 'x') {
            if cs.len() - i > 5 && chars::belongs(Class::Hex, cs[i + 3]) && chars::belongs(
                Class::Hex,
                cs[i + 4],
            ) && cs[i + 5] == '\'' {
                return Some((16 * read_hex(cs[i + 3]) + read_hex(cs[i + 4]), i + 6));
            }
            return None;
        }
        if cs.len() - i > 3 && cs[i + 3] == '\'' {
            return match read_escape(cs[i + 2]) {
                Some(b) => Some((b, i + 4)),
                None => None,
            };
        }
        return None;
    }
    if cs[i + 1] != '\'' && cs[i + 1] as u32 <= 0x7f && at(cs, i + 2, '\'') {
        return Some((cs[i + 1] as u8, i + 3));
    }
    None
}

/// The kind of group that a bracket opens, and the bracket that closes it.
pub open spec fn opened(c: char) -> Option<(Bracket, char)> {
    if c == '(' {
        Some((Bracket::Parens, ')'))
    } else if c == '{' {
        Some((Bracket::Curly, '}'))
    } else if c == '[' {
        Some((Bracket::Square, ']'))
    } else {
        None
    }
}

/// The byte range of the characters from `a` up to `b`.
pub open spec fn char_span(cs: Text, a: nat, b: nat) -> SimpleSpan {
    SimpleSpan { start: chars::offset(cs, a) as usize, end: chars::offset(cs, b) as usize }
}

/// The token that begins at `i`, and where it ends.
pub open spec fn tok_at(cs: Text, i: nat) -> Option<(TokenV, nat)>
    decreases cs.len() - i, 0int,
{
    if i >= cs.len() {
        None
    } else if cs[i as int] == '/' && is_at(cs, i + 1, '/') {
        Some((TokenV::Sign(Sign::Comment), chars::run(cs, i + 2, Class::Line)))
    } else if cs[i as int] == 'b' && is_at(cs, i + 1, '"') && string_end(cs, i + 2) is Some {
        let k = string_end(cs, i + 2)->0;
        Some((TokenV::ByteStr(cs.subrange((i + 2) as int, k as int)), k + 1))
    } else if chars::ident_start(cs[i as int]) {
        let j = chars::run(cs, i + 1, Class::Word);
        Some((word_token(cs.subrange(i as int, j as int)), j))
    } else if sign_at(cs, i) is Some {
        let (s, j) = sign_at(cs, i)->0;
        Some((TokenV::Sign(s), j))
    } else if number_end(cs, i) is Some {
        let j = number_end(cs, i)->0;
        Some((TokenV::Num(cs.subrange(i as int, j as int)), j))
    } else if cs[i as int] == '"' {
        match string_end(cs, i + 1) {
            Some(k) => Some((TokenV::Str(cs.subrange((i + 1) as int, k as int)), k + 1)),
            None => None,
        }
    } else if cs[i as int] == '\'' {
        match char_literal(cs, i) {
            Some((b, j)) => Some((TokenV::Char(b), j)),
            None => None,
        }
    } else {
        match opened(cs[i as int]) {
            Some((kind, close)) => {
                let inside = toks_from(cs, i + 1);
                let e = chars::run(cs, inside.1, Class::Blank);
                if is_at(cs, e, close) {
                    Some((TokenV::Group(kind, inside.0), e + 1))
                } else {
                    None
                }
            },
            None => None,
        }
    }
}

/// The tokens from `i` on, comments left out, and where they end: blanks
/// before a token and behind it are skipped, and the first place where no
/// token begins ends the list.
pub open spec fn toks_from(cs: Text, i: nat) -> (Seq<Spanned<TokenV>>, nat)
    decreases cs.len() - i, 1int,
{
    if i > cs.len() {
        (Seq::empty(), i)
    } else {
        let a = chars::run(cs, i, Class::Blank);
        proof {
            chars::run_is_maximal(cs, i, Class::Blank);
        }
        match tok_at(cs, a) {
            Some((t, j)) => if a < j <= cs.len() {
                proof {
                    chars::run_is_maximal(cs, j, Class::Blank);
                }
                let rest = toks_from(cs, chars::run(cs, j, Class::Blank));
                if t == TokenV::Sign(Sign::Comment) {
                    rest
                } else {
                    (seq![Spanned { inner: t, span: char_span(cs, a, j) }] + rest.0, rest.1)
                }
            } else {
                (Seq::empty(), i)
            },
            None => (Seq::empty(), i),
        }
    }
}

/// The offsets of the characters of a text.
pub open spec fn are_offsets(offs: Seq<usize>, cs: Text) -> bool {
    &&& offs.len() == cs.len() + 1
    &&& forall|k: int| 0 <= k <= cs.len() ==> #[trigger] offs[k] == chars::offset(cs, k as nat)
}

fn read_group(kind: Bracket, inside: Vec<Spanned<Token>>) -> (r: Token)
    requires
        kind is Parens || kind is Curly || kind is Square,
    ensures
        token::token_view(r) == TokenV::Group(kind, token::tokens_view(inside@)),
{
    match kind {
        Bracket::Parens => Token::Parens(inside),
        Bracket::Curly => Token::CurlyBrackets(inside),
        _ => Token::SquareBrackets(inside),
    }
}

fn read_open(c: char) -> (r: Option<(Bracket, char)>)
    ensures
        r == opened(c),
{
    if c == '(' {
        Some((Bracket::Parens, ')'))
    } else if c == '{' {
        Some((Bracket::Curly, '}'))
    } else if c == '[' {
        Some((Bracket::Square, ']'))
    } else {
        None
    }
}

fn read_token(cs: &Vec<char>, offs: &Vec<usize>, i: usize) -> (r: Option<(Token, usize)>)
    requires
        i <= cs@.len(),
        are_offsets(offs@, cs@),
    ensures
        match r {
            Some((t, j)) => tok_at(cs@, i as nat) == Some((token::token_view(t), j as nat)) && i < j
                <= cs@.len(),
            None => tok_at(cs@, i as nat) is None,
        },
    decreases cs@.len() - i, 0int,
{
    if i >= cs.len() {
        return None;
    }
    let c: char = cs[i];
    if c == '/' && at(cs, i + 1, '/') {
        return Some((Token::Comment, run_end(cs, i + 2, Class::Line)));
    }
    if c == 'b' && at(cs, i + 1, '"') {
        if let Some(k) = read_string(cs, i + 2) {
            return Some((Token::ByteStr(text_of(cs, i + 2, k)), k + 1));
        }
    }
    if is_ident_start(c) {
        let j: usize = run_end(cs, i + 1, Class::Word);
        return Some((read_word(text_of(cs, i, j)), j));
    }
    if let Some((s, j)) = read_sign(cs, i) {
        return Some((sign_token(s), j));
    }
    if let Some(j) = read_number(cs, i) {
        return Some((Token::Num(text_of(cs, i, j)), j));
    }
    if c == '"' {
        return match read_string(cs, i + 1) {
            Some(k) => Some((Token::String(text_of(cs, i + 1, k)), k + 1)),
            None => None,
        };
    }
    if c == '\'' {
        return match read_char(cs, i) {
            Some((b, j)) => Some((Token::Char(b), j)),
            None => None,
        };
    }
    match read_open(c) {
        Some((kind, close)) => {
            let (inside, b) = read_tokens(cs, offs, i + 1);
            let e: usize = run_end(cs, b, Class::Blank);
            if at(cs, e, close) {
                Some((read_group(kind, inside), e + 1))
            } else {
                None
            }
        },
        None => None,
    }
}

fn read_tokens(cs: &Vec<char>, offs: &Vec<usize>, i: usize) -> (r: (Vec<Spanned<Token>>, usize))
    requires
        i <= cs@.len(),
        are_offsets(offs@, cs@),
    ensures
        toks_from(cs@, i as nat) == (token::tokens_view(r.0@), r.1 as nat),
        i <= r.1 <= cs@.len(),
    decreases cs@.len() - i, 1int,
{
    let mut out: Vec<Spanned<Token>> = Vec::new();
    let mut k: usize = i;
    proof {
        let rest = toks_from(cs@, i as nat);
        assert(token::tokens_view(out@) + rest.0 =~= rest.0);
    }
    loop
        invariant
            i <= k <= cs@.len(),
            are_offsets(offs@, cs@),
            toks_from(cs@, i as nat).0 == token::tokens_view(out@) + toks_from(cs@, k as nat).0,
            toks_from(cs@, i as nat).1 == toks_from(cs@, k as nat).1,
        decreases cs@.len() - k,
    {
        let a: usize = run_end(cs, k, Class::Blank);
        match read_token(cs, offs, a) {
            Some((t, j)) => {
                let ghost view = token::token_view(t);
                let b: usize = run_end(cs, j, Class::Blank);
                let ghost before = out@;
                let ghost rest = toks_from(cs@, b as nat);
                let comment: bool = matches!(t, Token::Comment);
                proof {
                    assert(comment == (view == TokenV::Sign(Sign::Comment)));
                }
                if !comment {
                    let span: SimpleSpan = SimpleSpan { start: offs[a], end: offs[j] };
                    let ghost one = Spanned { inner: view, span };
                    proof {
                        assert(span == char_span(cs@, a as nat, j as nat));
                    }
                    out.push(Spanned { inner: t, span });
                    proof {
                        assert(token::tokens_view(out@) =~= token::tokens_view(before).push(one));
                        assert(token::tokens_view(before) + (seq![one] + rest.0)
                            =~= token::tokens_view(out@) + rest.0);
                    }
                }
                k = b;
            },
            None => {
                proof {
                    assert(toks_from(cs@, k as nat) == (Seq::<Spanned<TokenV>>::empty(), k as nat));
                    assert(token::tokens_view(out@) + Seq::<Spanned<TokenV>>::empty()
                        =~= token::tokens_view(out@));
                }
                return (out, k);
            },
        }
    }
}

/// A token whose group, if it is a plain one, is marked as tight where
/// `tight` says so; the tokens inside it are marked in the same way.
pub open spec fn tagged_token(t: TokenV, tight: bool) -> TokenV
    decreases t,
{
    match t {
        TokenV::Group(Bracket::Parens, inside) => TokenV::Group(
            if tight {
                Bracket::TightParens
            } else {
                Bracket::Parens
            },
            tagged(inside),
        ),
        TokenV::Group(Bracket::Square, inside) => TokenV::Group(
            if tight {
                Bracket::TightSquare
            } else {
                Bracket::Square
            },
            tagged(inside),
        ),
        TokenV::Group(Bracket::Curly, inside) => TokenV::Group(Bracket::Curly, tagged(inside)),
        other => other,
    }
}

/// Whether the `i`-th token begins where the one before it ends.
pub open spec fn touches(ts: Seq<Spanned<TokenV>>, i: int) -> bool {
    i > 0 && ts[i - 1].span.end == ts[i].span.start
}

/// The tokens with every group that touches the token before it marked.
pub open spec fn tagged(ts: Seq<Spanned<TokenV>>) -> Seq<Spanned<TokenV>>
    decreases ts,
{
    Seq::new(
        ts.len(),
        |i: int|
            if 0 <= i < ts.len() {
                Spanned { inner: tagged_token(ts[i].inner, touches(ts, i)), span: ts[i].span }
            } else {
                arbitrary()
            },
    )
}

/// Marking the tight groups again changes nothing.
pub proof fn tagging_twice_is_tagging_once(ts: Seq<Spanned<TokenV>>)
    ensures
        tagged(tagged(ts)) == tagged(ts),
    decreases ts,
{
    let once = tagged(ts);
    assert forall|i: int| 0 <= i < ts.len() implies tagged_token(
        once[i].inner,
        touches(once, i),
    ) == #[trigger] once[i].inner by {
        assert(touches(once, i) == touches(ts, i));
        match ts[i].inner {
            TokenV::Group(_, inside) => {
                tagging_twice_is_tagging_once(inside);
            },
            _ => {},
        }
    }
    assert(tagged(once) =~= once);
}

/// Marks every `(...)` and `[...]` that begins where the token before it
/// ends, inside groups too.
pub fn tag_paren_adjacency(tokens: Vec<Spanned<Token>>) -> (r: Vec<Spanned<Token>>)
    ensures
        r.deep_view() == tagged(tokens.deep_view()),
        token::tokens_view(r@) == tagged(token::tokens_view(tokens@)),
    decreases token::tokens_view(tokens@),
{
    broadcast use token::tokens_view_is_deep_view;

    let mut out: Vec<Spanned<Token>> = Vec::new();
    let mut prev_end: Option<usize> = None;
    let ghost all = tokens@;
    let ghost ts = token::tokens_view(tokens@);
    for tok in it: tokens
        invariant
            it.seq() == all,
            tokens@ == all,
            ts == token::tokens_view(all),
            out@.len() == it.index(),
            prev_end == (if it.index() == 0 {
                None
            } else {
                Some(all[it.index() - 1].span.end)
            }),
            forall|j: int|
                0 <= j < it.index() ==> token::token_view((#[trigger] out@[j]).inner)
                    == tagged_token(ts[j].inner, touches(ts, j)) && out@[j].span == ts[j].span,
    {
        let span = tok.span;
        let ghost k = it.index() as int;
        let tight: bool = match prev_end {
            Some(e) => e == span.start,
            None => false,
        };
        proof {
            assert(tok == all[k]);
            assert(ts[k].inner == token::token_view(tok.inner));
            assert(tight == touches(ts, k));
        }
        let inner: Token = match tok.inner {
            Token::Parens(inside) => {
                proof {
                    assert(ts[k].inner == TokenV::Group(
                        Bracket::Parens,
                        token::tokens_view(inside@),
                    ));
                    assert(decreases_to!(ts => ts[k].inner));
                    assert(decreases_to!(ts[k].inner => ts[k].inner->Group_1));
                }
                let inside = tag_paren_adjacency(inside);
                if tight {
                    Token::TightParens(inside)
                } else {
                    Token::Parens(inside)
                }
            },
            Token::CurlyBrackets(inside) => {
                proof {
                    assert(ts[k].inner == TokenV::Group(
                        Bracket::Curly,
                        token::tokens_view(inside@),
                    ));
                    assert(decreases_to!(ts => ts[k].inner));
                    assert(decreases_to!(ts[k].inner => ts[k].inner->Group_1));
                }
                Token::CurlyBrackets(tag_paren_adjacency(inside))
            },
            Token::SquareBrackets(inside) => {
                proof {
                    assert(ts[k].inner == TokenV::Group(
                        Bracket::Square,
                        token::tokens_view(inside@),
                    ));
                    assert(decreases_to!(ts => ts[k].inner));
                    assert(decreases_to!(ts[k].inner => ts[k].inner->Group_1));
                }
                let inside = tag_paren_adjacency(inside);
                if tight {
                    Token::TightSquareBrackets(inside)
                } else {
                    Token::SquareBrackets(inside)
                }
            },
            other => other,
        };
        out.push(Spanned { inner, span });
        prev_end = Some(span.end);
    }
    proof {
        assert(token::tokens_view(out@) =~= tagged(ts));
    }
    out
}

/// The tokens of a source text, if all of it can be read.
pub open spec fn lexed(cs: Text) -> Option<Seq<Spanned<TokenV>>> {
    let (ts, end) = toks_from(cs, 0);
    if end == cs.len() {
        Some(tagged(ts))
    } else {
        None
    }
}

/// The first place at which the character literal that begins at `i` is none.
pub open spec fn char_stuck(cs: Text, i: nat) -> nat {
    let at = i as int;
    if i + 1 >= cs.len() {
        cs.len()
    } else if cs[at + 1] == '\\' {
        if i + 2 >= cs.len() {
            cs.len()
        } else if cs[at + 2] == 'x' {
            if i + 3 >= cs.len() || !chars::hex_digit(cs[at + 3]) {
                i + 3
            } else if i + 4 >= cs.len() || !chars::hex_digit(cs[at + 4]) {
                i + 4
            } else {
                i + 5
            }
        } else if escaped(cs[at + 2]) is Some {
            i + 3
        } else {
            i + 2
        }
    } else if cs[at + 1] == '\'' || cs[at + 1] as u32 > 0x7f {
        i + 1
    } else {
        i + 2
    }
}

/// How far reading from `i` on gets: to the place where no token begins, or,
/// where a string, a character literal or a group begins there that goes
/// wrong, to where it does.
pub open spec fn stuck_at(cs: Text, i: nat) -> nat
    decreases cs.len() - i,
{
    let k = chars::run(cs, toks_from(cs, i).1, Class::Blank);
    if k >= cs.len() || cs[k as int] == '"' {
        cs.len()
    } else if cs[k as int] == '\'' {
        char_stuck(cs, k)
    } else if opened(cs[k as int]) is Some && k >= i {
        stuck_at(cs, k + 1)
    } else {
        k
    }
}

/// The complaint about a text that cannot be read: what stands where reading
/// got stuck.
pub open spec fn lex_error(cs: Text) -> SyntaxErrorV {
    let k = stuck_at(cs, 0);
    SyntaxErrorV {
        reason: if k < cs.len() {
            "found '"@ + seq![cs[k as int]] + "' expected a token"@
        } else {
            "found end of input expected a token"@
        },
        span: if k < cs.len() {
            char_span(cs, k, k + 1)
        } else {
            char_span(cs, k, k)
        },
        contexts: Seq::empty(),
    }
}

fn find_char_stuck(cs: &Vec<char>, i: usize) -> (r: usize)
    requires
        i < cs@.len(),
    ensures
        r == char_stuck(cs@, i as nat),
        r <= cs@.len(),
{
    if cs.len() - i <= 1 {
        cs.len()
    } else if cs[i + 1] == '\\' {
        if cs.len() - i <= 2 {
            cs.len()
        } else if cs[i + 2] == 'x' {
            if cs.len() - i <= 3 || !belongs(Class::Hex, cs[i + 3]) {
                i + 3
            } else if cs.len() - i <= 4 || !belongs(Class::Hex, cs[i + 4]) {
                i + 4
            } else {
                i + 5
            }
        } else if read_escape(cs[i + 2]).is_some() {
            i + 3
        } else {
            i + 2
        }
    } else if cs[i + 1] == '\'' || cs[i + 1] as u32 > 0x7f {
        i + 1
    } else {
        i + 2
    }
}

fn find_stuck(cs: &Vec<char>, offs: &Vec<usize>, i: usize) -> (r: usize)
    requires
        i <= cs@.len(),
        are_offsets(offs@, cs@),
    ensures
        r == stuck_at(cs@, i as nat),
        r <= cs@.len(),
    decreases cs@.len() - i,
{
    let (_, end) = read_tokens(cs, offs, i);
    let k: usize = run_end(cs, end, Class::Blank);
    if k >= cs.len() || cs[k] == '"' {
        cs.len()
    } else if cs[k] == '\'' {
        find_char_stuck(cs, k)
    } else if read_open(cs[k]).is_some() {
        find_stuck(cs, offs, k + 1)
    } else {
        k
    }
}

/// Reads a source text into tokens.
pub fn lexer(src: &str) -> (r: Result<Vec<Spanned<Token>>, Vec<SyntaxError>>)
    ensures
        match r {
            Ok(ts) => lexed(src@) == Some(ts.deep_view()),
            Err(es) => lexed(src@) is None && es.deep_view() == seq![lex_error(src@)],
        },
{
    broadcast use token::tokens_view_is_deep_view;

    let cs = chars_of(src);
    let offs = offsets(src, &cs);
    let (ts, end) = read_tokens(&cs, &offs, 0);
    if end == cs.len() {
        return Ok(tag_paren_adjacency(ts));
    }
    let k: usize = find_stuck(&cs, &offs, 0);
    let e = if k < cs.len() {
        let c = text_of(&cs, k, k + 1);
        proof {
            assert(c@ =~= seq![cs@[k as int]]);
        }
        SyntaxError {
            reason: crate::text::cat3("found '", c.as_str(), "' expected a token"),
            span: SimpleSpan { start: offs[k], end: offs[k + 1] },
            contexts: Vec::new(),
        }
    } else {
        SyntaxError {
            reason: "found end of input expected a token".to_owned(),
            span: SimpleSpan { start: offs[k], end: offs[k] },
            contexts: Vec::new(),
        }
    };
    let mut es: Vec<SyntaxError> = Vec::new();
    proof {
        assert(e.deep_view() =~= lex_error(src@));
    }
    es.push(e);
    proof {
        assert(es.deep_view() =~= seq![lex_error(src@)]);
    }
    Err(es)
}

} // verus!
