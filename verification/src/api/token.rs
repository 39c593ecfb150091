//! Tokens, and the model of them that contracts speak of.

use vstd::prelude::*;

use crate::span::Spanned;
use crate::text::{cat3, Text};

verus! {

/// What the lexer makes of a source text.
#[derive(Debug, PartialEq, PartialOrd)]
pub enum Token {
    Ident(String),
    Num(String),
    /// The text between the quotes, with its escapes left as they stand.
    String(String),
    /// `b"..."` — byte-string literal, escapes left as they stand.
    ByteStr(String),
    /// `'X'` — char literal, with the byte it stands for (`'A'` is 65,
    /// `'\n'` is 10, `'\xff'` is 255).
    Char(u8),
    /// `(...)` that does not touch the token before it: a value of its own,
    /// never a call.
    Parens(Vec<Spanned<Token>>),
    /// `(...)` whose opening `(` begins where the token before it ends:
    /// `f(x)` is a call, `f (x)` is two values.
    TightParens(Vec<Spanned<Token>>),
    SquareBrackets(Vec<Spanned<Token>>),
    /// `[...]` that touches the token before it: indexing (`buf[i]`).
    TightSquareBrackets(Vec<Spanned<Token>>),
    CurlyBrackets(Vec<Spanned<Token>>),
    At,
    Arrow,
    Dot,
    /// `:` — module path qualifier (`core:io:writer`).
    Colon,
    Plus,
    Minus,
    Star,
    Slash,
    LessEq,
    GreaterEq,
    EqEq,
    Less,
    Greater,
    Eq,
    Is,
    When,
    False,
    True,
    Pub,
    Ret,
    SelfKw,
    Wait,
    Let,
    /// `as` — import alias (`+core.io.writer as foo`).
    As,
    /// `pin` — synchronous call of a `ret` machine whose value is discarded.
    Pin,
    /// `const` — module-level compile-time constant.
    Const,
    /// `&` — bitwise AND.
    BitAnd,
    /// `|` — bitwise OR.
    BitOr,
    /// `^` — bitwise XOR.
    BitXor,
    /// `<<` — left shift.
    Shl,
    /// `>>` — logical right shift.
    Shr,
    /// A comment; the lexer drops these.
    Comment,
}

/// The tokens that carry nothing: operators, punctuation and keywords.
#[derive(Debug, Clone, Copy, PartialEq, Eq, PartialOrd, Structural)]
pub enum Sign {
    At,
    Arrow,
    Dot,
    Colon,
    Plus,
    Minus,
    Star,
    Slash,
    LessEq,
    GreaterEq,
    EqEq,
    Less,
    Greater,
    Eq,
    Is,
    When,
    False,
    True,
    Pub,
    Ret,
    SelfKw,
    Wait,
    Let,
    As,
    Pin,
    Const,
    BitAnd,
    BitOr,
    BitXor,
    Shl,
    Shr,
    Comment,
}

/// The kinds of bracketed groups.
#[derive(Debug, Clone, Copy, PartialEq, Eq, PartialOrd, Structural)]
pub enum Bracket {
    Parens,
    TightParens,
    Square,
    TightSquare,
    Curly,
}

/// The mathematical counterpart of [`Token`].
#[verifier::ext_equal]
pub enum TokenV {
    Ident(Text),
    Num(Text),
    Str(Text),
    ByteStr(Text),
    Char(u8),
    Group(Bracket, Seq<Spanned<TokenV>>),
    Sign(Sign),
}

pub open spec fn token_view(t: Token) -> TokenV
    decreases t,
{
    match t {
        Token::Ident(s) => TokenV::Ident(s@),
        Token::Num(s) => TokenV::Num(s@),
        Token::String(s) => TokenV::Str(s@),
        Token::ByteStr(s) => TokenV::ByteStr(s@),
        Token::Char(b) => TokenV::Char(b),
        Token::Parens(ts) => TokenV::Group(Bracket::Parens, tokens_view(ts@)),
        Token::TightParens(ts) => TokenV::Group(Bracket::TightParens, tokens_view(ts@)),
        Token::SquareBrackets(ts) => TokenV::Group(Bracket::Square, tokens_view(ts@)),
        Token::TightSquareBrackets(ts) => TokenV::Group(Bracket::TightSquare, tokens_view(ts@)),
        Token::CurlyBrackets(ts) => TokenV::Group(Bracket::Curly, tokens_view(ts@)),
        Token::At => TokenV::Sign(Sign::At),
        Token::Arrow => TokenV::Sign(Sign::Arrow),
        Token::Dot => TokenV::Sign(Sign::Dot),
        Token::Colon => TokenV::Sign(Sign::Colon),
        Token::Plus => TokenV::Sign(Sign::Plus),
        Token::Minus => TokenV::Sign(Sign::Minus),
        Token::Star => TokenV::Sign(Sign::Star),
        Token::Slash => TokenV::Sign(Sign::Slash),
        Token::LessEq => TokenV::Sign(Sign::LessEq),
        Token::GreaterEq => TokenV::Sign(Sign::GreaterEq),
        Token::EqEq => TokenV::Sign(Sign::EqEq),
        Token::Less => TokenV::Sign(Sign::Less),
        Token::Greater => TokenV::Sign(Sign::Greater),
        Token::Eq => TokenV::Sign(Sign::Eq),
        Token::Is => TokenV::Sign(Sign::Is),
        Token::When => TokenV::Sign(Sign::When),
        Token::False => TokenV::Sign(Sign::False),
        Token::True => TokenV::Sign(Sign::True),
        Token::Pub => TokenV::Sign(Sign::Pub),
        Token::Ret => TokenV::Sign(Sign::Ret),
        Token::SelfKw => TokenV::Sign(Sign::SelfKw),
        Token::Wait => TokenV::Sign(Sign::Wait),
        Token::Let => TokenV::Sign(Sign::Let),
        Token::As => TokenV::Sign(Sign::As),
        Token::Pin => TokenV::Sign(Sign::Pin),
        Token::Const => TokenV::Sign(Sign::Const),
        Token::BitAnd => TokenV::Sign(Sign::BitAnd),
        Token::BitOr => TokenV::Sign(Sign::BitOr),
        Token::BitXor => TokenV::Sign(Sign::BitXor),
        Token::Shl => TokenV::Sign(Sign::Shl),
        Token::Shr => TokenV::Sign(Sign::Shr),
        Token::Comment => TokenV::Sign(Sign::Comment),
    }
}

pub open spec fn tokens_view(ts: Seq<Spanned<Token>>) -> Seq<Spanned<TokenV>>
    decreases ts,
{
    Seq::new(
        ts.len(),
        |i: int|
            if 0 <= i < ts.len() {
                Spanned { inner: token_view(ts[i].inner), span: ts[i].span }
            } else {
                arbitrary()
            },
    )
}

impl DeepView for Token {
    type V = TokenV;

    open spec fn deep_view(&self) -> TokenV {
        token_view(*self)
    }
}

/// The two ways of viewing a list of tokens agree.
pub broadcast proof fn tokens_view_is_deep_view(ts: Vec<Spanned<Token>>)
    ensures
        #[trigger] ts.deep_view() == tokens_view(ts@),
{
    assert(tokens_view(ts@) =~= ts.deep_view());
}

/// The token of a sign.
pub fn sign_token(sign: Sign) -> (r: Token)
    ensures
        token_view(r) == TokenV::Sign(sign),
{
    match sign {
        Sign::At => Token::At,
        Sign::Arrow => Token::Arrow,
        Sign::Dot => Token::Dot,
        Sign::Colon => Token::Colon,
        Sign::Plus => Token::Plus,
        Sign::Minus => Token::Minus,
        Sign::Star => Token::Star,
        Sign::Slash => Token::Slash,
        Sign::LessEq => Token::LessEq,
        Sign::GreaterEq => Token::GreaterEq,
        Sign::EqEq => Token::EqEq,
        Sign::Less => Token::Less,
        Sign::Greater => Token::Greater,
        Sign::Eq => Token::Eq,
        Sign::Is => Token::Is,
        Sign::When => Token::When,
        Sign::False => Token::False,
        Sign::True => Token::True,
        Sign::Pub => Token::Pub,
        Sign::Ret => Token::Ret,
        Sign::SelfKw => Token::SelfKw,
        Sign::Wait => Token::Wait,
        Sign::Let => Token::Let,
        Sign::As => Token::As,
        Sign::Pin => Token::Pin,
        Sign::Const => Token::Const,
        Sign::BitAnd => Token::BitAnd,
        Sign::BitOr => Token::BitOr,
        Sign::BitXor => Token::BitXor,
        Sign::Shl => Token::Shl,
        Sign::Shr => Token::Shr,
        Sign::Comment => Token::Comment,
    }
}

/// The text of a sign.
pub open spec fn sign_text(sign: Sign) -> Text {
    match sign {
        Sign::At => "@"@,
        Sign::Arrow => "->"@,
        Sign::Dot => "."@,
        Sign::Colon => ":"@,
        Sign::Plus => "+"@,
        Sign::Minus => "-"@,
        Sign::Star => "*"@,
        Sign::Slash => "/"@,
        Sign::LessEq => "<="@,
        Sign::GreaterEq => ">="@,
        Sign::EqEq => "=="@,
        Sign::Less => "<"@,
        Sign::Greater => ">"@,
        Sign::Eq => "="@,
        Sign::Is => "is"@,
        Sign::When => "when"@,
        Sign::False => "false"@,
        Sign::True => "true"@,
        Sign::Pub => "pub"@,
        Sign::Ret => "ret"@,
        Sign::SelfKw => "self"@,
        Sign::Wait => "wait"@,
        Sign::Let => "let"@,
        Sign::As => "as"@,
        Sign::Pin => "pin"@,
        Sign::Const => "const"@,
        Sign::BitAnd => "&"@,
        Sign::BitOr => "|"@,
        Sign::BitXor => "^"@,
        Sign::Shl => "<<"@,
        Sign::Shr => ">>"@,
        Sign::Comment => "// ..."@,
    }
}

/// Two hexadecimal digits.
pub open spec fn hex_pair(b: u8) -> Text {
    seq![hex_digit(b / 16), hex_digit(b % 16)]
}

/// The lower-case hexadecimal digit of a number below sixteen.
pub open spec fn hex_digit(n: u8) -> char {
    if n < 10 {
        crate::text::digit_char(n as nat)
    } else if n == 10 {
        'a'
    } else if n == 11 {
        'b'
    } else if n == 12 {
        'c'
    } else if n == 13 {
        'd'
    } else if n == 14 {
        'e'
    } else {
        'f'
    }
}

/// How a token is shown in messages.
pub open spec fn token_text(t: TokenV) -> Text {
    match t {
        TokenV::Ident(s) => s,
        TokenV::Num(s) => s,
        TokenV::Str(s) => "\""@ + s + "\""@,
        TokenV::ByteStr(s) => "b\""@ + s + "\""@,
        TokenV::Char(b) => "'\\x"@ + hex_pair(b) + "'"@,
        TokenV::Group(Bracket::Parens, _) => "( ... )"@,
        TokenV::Group(Bracket::TightParens, _) => "( ... )"@,
        TokenV::Group(Bracket::Square, _) => "[ ... ]"@,
        TokenV::Group(Bracket::TightSquare, _) => "[ ... ]"@,
        TokenV::Group(Bracket::Curly, _) => "{ ... }"@,
        TokenV::Sign(s) => sign_text(s),
    }
}

fn hex_digit_of(n: u8) -> (r: char)
    requires
        n < 16,
    ensures
        r == hex_digit(n),
{
    if n == 0 {
        '0'
    } else if n == 1 {
        '1'
    } else if n == 2 {
        '2'
    } else if n == 3 {
        '3'
    } else if n == 4 {
        '4'
    } else if n == 5 {
        '5'
    } else if n == 6 {
        '6'
    } else if n == 7 {
        '7'
    } else if n == 8 {
        '8'
    } else if n == 9 {
        '9'
    } else if n == 10 {
        'a'
    } else if n == 11 {
        'b'
    } else if n == 12 {
        'c'
    } else if n == 13 {
        'd'
    } else if n == 14 {
        'e'
    } else {
        'f'
    }
}

impl Sign {
    /// The text of the sign.
    pub fn to_string(&self) -> (r: String)
        ensures
            r@ == sign_text(*self),
    {
        match self {
            Sign::At => "@".to_owned(),
            Sign::Arrow => "->".to_owned(),
            Sign::Dot => ".".to_owned(),
            Sign::Colon => ":".to_owned(),
            Sign::Plus => "+".to_owned(),
            Sign::Minus => "-".to_owned(),
            Sign::Star => "*".to_owned(),
            Sign::Slash => "/".to_owned(),
            Sign::LessEq => "<=".to_owned(),
            Sign::GreaterEq => ">=".to_owned(),
            Sign::EqEq => "==".to_owned(),
            Sign::Less => "<".to_owned(),
            Sign::Greater => ">".to_owned(),
            Sign::Eq => "=".to_owned(),
            Sign::Is => "is".to_owned(),
            Sign::When => "when".to_owned(),
            Sign::False => "false".to_owned(),
            Sign::True => "true".to_owned(),
            Sign::Pub => "pub".to_owned(),
            Sign::Ret => "ret".to_owned(),
            Sign::SelfKw => "self".to_owned(),
            Sign::Wait => "wait".to_owned(),
            Sign::Let => "let".to_owned(),
            Sign::As => "as".to_owned(),
            Sign::Pin => "pin".to_owned(),
            Sign::Const => "const".to_owned(),
            Sign::BitAnd => "&".to_owned(),
            Sign::BitOr => "|".to_owned(),
            Sign::BitXor => "^".to_owned(),
            Sign::Shl => "<<".to_owned(),
            Sign::Shr => ">>".to_owned(),
            Sign::Comment => "// ...".to_owned(),
        }
    }
}

impl Token {
    /// The sign that the token is, if it carries nothing.
    pub fn sign(&self) -> (r: Option<Sign>)
        ensures
            r == (match token_view(*self) {
                TokenV::Sign(s) => Some(s),
                _ => None,
            }),
    {
        match self {
            Token::At => Some(Sign::At),
            Token::Arrow => Some(Sign::Arrow),
            Token::Dot => Some(Sign::Dot),
            Token::Colon => Some(Sign::Colon),
            Token::Plus => Some(Sign::Plus),
            Token::Minus => Some(Sign::Minus),
            Token::Star => Some(Sign::Star),
            Token::Slash => Some(Sign::Slash),
            Token::LessEq => Some(Sign::LessEq),
            Token::GreaterEq => Some(Sign::GreaterEq),
            Token::EqEq => Some(Sign::EqEq),
            Token::Less => Some(Sign::Less),
            Token::Greater => Some(Sign::Greater),
            Token::Eq => Some(Sign::Eq),
            Token::Is => Some(Sign::Is),
            Token::When => Some(Sign::When),
            Token::False => Some(Sign::False),
            Token::True => Some(Sign::True),
            Token::Pub => Some(Sign::Pub),
            Token::Ret => Some(Sign::Ret),
            Token::SelfKw => Some(Sign::SelfKw),
            Token::Wait => Some(Sign::Wait),
            Token::Let => Some(Sign::Let),
            Token::As => Some(Sign::As),
            Token::Pin => Some(Sign::Pin),
            Token::Const => Some(Sign::Const),
            Token::BitAnd => Some(Sign::BitAnd),
            Token::BitOr => Some(Sign::BitOr),
            Token::BitXor => Some(Sign::BitXor),
            Token::Shl => Some(Sign::Shl),
            Token::Shr => Some(Sign::Shr),
            Token::Comment => Some(Sign::Comment),
            _ => None,
        }
    }

    /// The token as messages show it.
    pub fn to_string(&self) -> (r: String)
        ensures
            r@ == token_text(token_view(*self)),
    {
        match self {
            Token::Ident(s) => s.clone(),
            Token::Num(s) => s.clone(),
            Token::String(s) => cat3("\"", s.as_str(), "\""),
            Token::ByteStr(s) => cat3("b\"", s.as_str(), "\""),
            Token::Char(b) => {
                let mut hex = String::new();
                hex.push(hex_digit_of(*b / 16));
                hex.push(hex_digit_of(*b % 16));
                proof {
                    assert(hex@ =~= hex_pair(*b));
                }
                cat3("'\\x", hex.as_str(), "'")
            },
            Token::Parens(_) => "( ... )".to_owned(),
            Token::TightParens(_) => "( ... )".to_owned(),
            Token::SquareBrackets(_) => "[ ... ]".to_owned(),
            Token::TightSquareBrackets(_) => "[ ... ]".to_owned(),
            Token::CurlyBrackets(_) => "{ ... }".to_owned(),
            _ => match self.sign() {
                Some(s) => s.to_string(),
                None => String::new(),
            },
        }
    }
}

} // verus!
