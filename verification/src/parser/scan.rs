//! Parsers of the one-line declaration syntax `name type.default`, on plain
//! text: each takes the text that is left and returns what remains of it.

use vstd::prelude::*;
use vstd::string::*;

use crate::api::ast::Ident;
use crate::text::{chars_of, Text};

verus! {

/// A place in a text: byte offset and length in bytes.
#[derive(Debug, Clone, Copy, PartialEq, Eq, PartialOrd, Structural)]
pub struct SourceSpan {
    pub offset: usize,
    pub length: usize,
}

/// Why a text could not be parsed.
#[derive(Debug, Clone, Copy, PartialEq, PartialOrd)]
pub enum ParserError<'a> {
    /// Identifiers begin with letters or underscores and hold only letters,
    /// numbers, and underscores.
    IdentParsingError(&'a str, SourceSpan),
    /// A position could not be found in the text.
    BadSubstring(&'a str),
    /// An integer consisting only of digits was expected.
    NumberParsingError(&'a str, SourceSpan),
    /// A string literal enclosed in quotes was expected.
    StringParsingError(&'a str, SourceSpan),
    /// A branch was expected.
    BranchParsingError(&'a str, SourceSpan),
}

impl<'a> ParserError<'a> {
    /// The text that could not be parsed.
    pub fn source(&self) -> (r: &'a str)
        ensures
            r@ == self.source_text(),
    {
        match self {
            ParserError::IdentParsingError(src, _) => src,
            ParserError::BadSubstring(src) => src,
            ParserError::NumberParsingError(src, _) => src,
            ParserError::StringParsingError(src, _) => src,
            ParserError::BranchParsingError(src, _) => src,
        }
    }

    /// What went wrong, in a few words.
    pub fn to_string(&self) -> (r: &'static str)
        ensures
            r@ == match *self {
                ParserError::IdentParsingError(_, _) => "Ident parsing error"@,
                ParserError::BadSubstring(_) => "Substring not found error"@,
                ParserError::NumberParsingError(_, _) => "Number parsing error"@,
                ParserError::StringParsingError(_, _) => "String parsing error"@,
                ParserError::BranchParsingError(_, _) => "Branch parsing error"@,
            },
    {
        match self {
            ParserError::IdentParsingError(_, _) => "Ident parsing error",
            ParserError::BadSubstring(_) => "Substring not found error",
            ParserError::NumberParsingError(_, _) => "Number parsing error",
            ParserError::StringParsingError(_, _) => "String parsing error",
            ParserError::BranchParsingError(_, _) => "Branch parsing error",
        }
    }

    /// The code of the error.
    pub fn code(&self) -> (r: &'static str)
        ensures
            r@ == match *self {
                ParserError::IdentParsingError(_, _) => "parser::error::identParsing"@,
                ParserError::BadSubstring(_) => "parser::error::substringNotFound"@,
                ParserError::NumberParsingError(_, _) => "parser::error::numberParsingError"@,
                ParserError::StringParsingError(_, _) => "parser::error::stringParsingError"@,
                ParserError::BranchParsingError(_, _) => "parser::error::branchParsingError"@,
            },
    {
        match self {
            ParserError::IdentParsingError(_, _) => "parser::error::identParsing",
            ParserError::BadSubstring(_) => "parser::error::substringNotFound",
            ParserError::NumberParsingError(_, _) => "parser::error::numberParsingError",
            ParserError::StringParsingError(_, _) => "parser::error::stringParsingError",
            ParserError::BranchParsingError(_, _) => "parser::error::branchParsingError",
        }
    }

    /// What to do about it.
    pub fn help(&self) -> (r: &'static str)
        ensures
            r@ == match *self {
                ParserError::IdentParsingError(_, _) => "You must only use identifiers that begin with letters or underscores and use only letters, numbers, and underscores."@,
                ParserError::BadSubstring(_) => "This is a compiler bug! Report about it here: (https://github.com/morphqdd/lake_frontend)"@,
                ParserError::NumberParsingError(_, _) => "Expected a integer consisting only of digits (0–9)."@,
                ParserError::StringParsingError(_, _) => "Expected a valid string literal enclosed in quotes."@,
                ParserError::BranchParsingError(_, _) => "Expected a valid branch."@,
            },
    {
        match self {
            ParserError::IdentParsingError(_, _) => "You must only use identifiers that begin with letters or underscores and use only letters, numbers, and underscores.",
            ParserError::BadSubstring(_) => "This is a compiler bug! Report about it here: (https://github.com/morphqdd/lake_frontend)",
            ParserError::NumberParsingError(_, _) => "Expected a integer consisting only of digits (0–9).",
            ParserError::StringParsingError(_, _) => "Expected a valid string literal enclosed in quotes.",
            ParserError::BranchParsingError(_, _) => "Expected a valid branch.",
        }
    }

    pub open spec fn source_text(self) -> Text {
        match self {
            ParserError::IdentParsingError(src, _) => src@,
            ParserError::BadSubstring(src) => src@,
            ParserError::NumberParsingError(src, _) => src@,
            ParserError::StringParsingError(src, _) => src@,
            ParserError::BranchParsingError(src, _) => src@,
        }
    }
}

/// The mathematical counterpart of [`ParserError`].
#[verifier::ext_equal]
pub enum ParserErrorV {
    Ident(Text, SourceSpan),
    BadSubstring(Text),
    Number(Text, SourceSpan),
    String(Text, SourceSpan),
    Branch(Text, SourceSpan),
}

impl<'a> DeepView for ParserError<'a> {
    type V = ParserErrorV;

    open spec fn deep_view(&self) -> ParserErrorV {
        match *self {
            ParserError::IdentParsingError(src, span) => ParserErrorV::Ident(src@, span),
            ParserError::BadSubstring(src) => ParserErrorV::BadSubstring(src@),
            ParserError::NumberParsingError(src, span) => ParserErrorV::Number(src@, span),
            ParserError::StringParsingError(src, span) => ParserErrorV::String(src@, span),
            ParserError::BranchParsingError(src, span) => ParserErrorV::Branch(src@, span),
        }
    }
}

/// All of a text, as a place in it.
pub open spec fn all_of(s: Text) -> SourceSpan {
    SourceSpan { offset: 0, length: vstd::utf8::encode_utf8(s).len() as usize }
}

/// A literal, as it is written.
#[derive(Debug, Clone, PartialEq, PartialOrd)]
pub enum Literal {
    Number(String),
    /// With its quotes.
    String(String),
}

/// The type of a variable.
#[derive(Debug, Clone, PartialEq, PartialOrd)]
pub enum Path {
    Type(Ident),
}

/// `name type` or `name type.default`
#[derive(Debug, Clone, PartialEq, PartialOrd)]
pub struct Variable {
    pub ident: Ident,
    pub ty: Path,
    pub default: Option<Literal>,
}

/// What a declared branch is for.
#[derive(Debug, Clone, Copy, PartialEq, PartialOrd)]
pub enum BranchType {
    Action,
}

/// A sequence of variables.
#[derive(Debug, Clone, PartialEq, PartialOrd)]
pub struct BranchDecl {
    pub kind: BranchType,
    pub vars: Vec<Variable>,
}

#[verifier::ext_equal]
pub enum LiteralV {
    Number(Text),
    String(Text),
}

#[verifier::ext_equal]
pub struct VariableV {
    pub ident: Text,
    pub ty: Text,
    pub default: Option<LiteralV>,
}

impl DeepView for Literal {
    type V = LiteralV;

    open spec fn deep_view(&self) -> LiteralV {
        match *self {
            Literal::Number(s) => LiteralV::Number(s@),
            Literal::String(s) => LiteralV::String(s@),
        }
    }
}

impl DeepView for Variable {
    type V = VariableV;

    open spec fn deep_view(&self) -> VariableV {
        VariableV {
            ident: self.ident.deep_view(),
            ty: self.ty->Type_0.deep_view(),
            default: self.default.deep_view(),
        }
    }
}

impl Variable {
    pub fn new(ident: Ident, ty: Path, default: Option<Literal>) -> (r: Variable)
        ensures
            r == (Variable { ident, ty, default }),
    {
        Variable { ident, ty, default }
    }
}

impl BranchDecl {
    pub fn new(kind: BranchType, vars: Vec<Variable>) -> (r: BranchDecl)
        ensures
            r == (BranchDecl { kind, vars }),
    {
        BranchDecl { kind, vars }
    }
}

// ── characters ─────────────────────────────────────────────────────────────

/// Whether a character is a letter.
pub uninterp spec fn alphabetic(c: char) -> bool;

/// `char::is_alphabetic` tells whether a character has the Unicode property
/// `Alphabetic`; among ASCII these are the letters.
#[verifier::external_body]
fn is_alphabetic(c: char) -> (r: bool)
    ensures
        r == alphabetic(c),
        c as u32 <= 0x7f ==> r == ('a' <= c <= 'z' || 'A' <= c <= 'Z'),
{
    c.is_alphabetic()
}

/// Whether a character is a number.
pub uninterp spec fn numeric(c: char) -> bool;

/// Whether a character is a letter or a number.
pub open spec fn alphanumeric(c: char) -> bool {
    alphabetic(c) || numeric(c)
}

/// `char::is_alphanumeric` tells whether a character satisfies
/// `char::is_alphabetic` or `char::is_numeric`; among ASCII these are the
/// letters and the digits.
#[verifier::external_body]
fn is_alphanumeric(c: char) -> (r: bool)
    ensures
        r == (alphabetic(c) || numeric(c)),
        c as u32 <= 0x7f ==> r == ('a' <= c <= 'z' || 'A' <= c <= 'Z' || '0' <= c <= '9'),
{
    c.is_alphanumeric()
}

pub open spec fn ident_start(c: char) -> bool {
    alphabetic(c) || c == '_'
}

pub open spec fn ident_char(c: char) -> bool {
    alphanumeric(c) || c == '_'
}

pub open spec fn dec_digit(c: char) -> bool {
    '0' <= c <= '9'
}

/// Blanks, tabs and line breaks.
pub open spec fn multispace(c: char) -> bool {
    c == ' ' || c == '\t' || c == '\r' || c == '\n'
}

/// A letter or an underscore.
pub fn is_ident_start(c: char) -> (r: bool)
    ensures
        r == ident_start(c),
        c as u32 <= 0x7f ==> r == ('a' <= c <= 'z' || 'A' <= c <= 'Z' || c == '_'),
{
    is_alphabetic(c) || c == '_'
}

/// A letter, a number or an underscore.
pub fn is_ident_char(c: char) -> (r: bool)
    ensures
        r == ident_char(c),
        c as u32 <= 0x7f ==> r == ('a' <= c <= 'z' || 'A' <= c <= 'Z' || '0' <= c <= '9' || c
            == '_'),
{
    is_alphanumeric(c) || c == '_'
}

/// What begins an identifier may also stand inside one; what else may stand
/// inside one is a number.
pub proof fn ident_starts_are_ident_chars(c: char)
    ensures
        ident_start(c) ==> ident_char(c),
        ident_char(c) && !ident_start(c) ==> numeric(c),
{
}

/// The end of the longest run of `p` characters of `s` that begins at `from`.
pub open spec fn run_end(s: Text, from: int, p: spec_fn(char) -> bool) -> int
    decreases s.len() - from,
{
    if from < s.len() && p(s[from]) {
        run_end(s, from + 1, p)
    } else {
        from
    }
}

pub proof fn run_end_bounds(s: Text, from: int, p: spec_fn(char) -> bool)
    requires
        0 <= from <= s.len(),
    ensures
        from <= run_end(s, from, p) <= s.len(),
    decreases s.len() - from,
{
    if from < s.len() && p(s[from]) {
        run_end_bounds(s, from + 1, p);
    }
}

#[derive(Clone, Copy)]
enum Class {
    Start,
    Char,
    Digit,
    Space,
    Unquoted,
}

spec fn in_class(k: Class) -> spec_fn(char) -> bool {
    match k {
        Class::Start => |c: char| ident_start(c),
        Class::Char => |c: char| ident_char(c),
        Class::Digit => |c: char| dec_digit(c),
        Class::Space => |c: char| multispace(c),
        Class::Unquoted => |c: char| c != '"',
    }
}

fn is_in(k: Class, c: char) -> (r: bool)
    ensures
        r == in_class(k)(c),
{
    match k {
        Class::Start => is_ident_start(c),
        Class::Char => is_ident_char(c),
        Class::Digit => '0' <= c && c <= '9',
        Class::Space => c == ' ' || c == '\t' || c == '\r' || c == '\n',
        Class::Unquoted => c != '"',
    }
}

fn run(cs: &Vec<char>, from: usize, k: Class) -> (r: usize)
    requires
        from <= cs@.len(),
    ensures
        r == run_end(cs@, from as int, in_class(k)),
        from <= r <= cs@.len(),
{
    let mut i: usize = from;
    while i < cs.len() && is_in(k, cs[i])
        invariant
            from <= i <= cs@.len(),
            run_end(cs@, from as int, in_class(k)) == run_end(cs@, i as int, in_class(k)),
        decreases cs.len() - i,
    {
        i = i + 1;
    }
    i
}

fn rest_of<'a>(input: &'a str, from: usize) -> (r: &'a str)
    requires
        from <= input@.len(),
    ensures
        r@ == input@.skip(from as int),
{
    let n: usize = input.unicode_len();
    proof {
        assert(input@.subrange(from as int, n as int) =~= input@.skip(from as int));
    }
    input.substring_char(from, n)
}

fn prefix_of<'a>(input: &'a str, to: usize) -> (r: &'a str)
    requires
        to <= input@.len(),
    ensures
        r@ == input@.take(to as int),
{
    proof {
        assert(input@.subrange(0, to as int) =~= input@.take(to as int));
    }
    input.substring_char(0, to)
}

/// The number of bytes of a text.
pub open spec fn byte_len(s: &str) -> nat {
    s.spec_bytes().len()
}

fn whole<'a>(input: &'a str) -> (r: SourceSpan)
    ensures
        r.offset == 0,
        r.length == byte_len(input),
{
    SourceSpan { offset: 0, length: input.as_bytes().len() }
}

// ── identifiers ────────────────────────────────────────────────────────────

/// The length of the identifier that `s` begins with: letters and
/// underscores, then letters, numbers and underscores.  None without a first
/// letter or underscore.
pub open spec fn ident_end(s: Text) -> Option<int> {
    let start = run_end(s, 0, |c: char| ident_start(c));
    if start == 0 {
        None
    } else {
        Some(run_end(s, start, |c: char| ident_char(c)))
    }
}

/// Parses an identifier.
pub fn ident<'a>(input: &'a str) -> (r: Result<(&'a str, Ident), ParserError<'a>>)
    ensures
        match ident_end(input@) {
            Some(n) => r is Ok && r->Ok_0.0@ == input@.skip(n) && r->Ok_0.1.deep_view()
                == input@.take(n) && 0 < n <= input@.len(),
            None => r is Err && r->Err_0 == ParserError::IdentParsingError(
                input,
                SourceSpan { offset: 0, length: byte_len(input) as usize },
            ),
        },
{
    let cs = chars_of(input);
    let start = run(&cs, 0, Class::Start);
    if start == 0 {
        return Err(ParserError::IdentParsingError(input, whole(input)));
    }
    let end = run(&cs, start, Class::Char);
    Ok((rest_of(input, end), Ident::new(prefix_of(input, end))))
}

// ── literals ───────────────────────────────────────────────────────────────

/// Parses a run of decimal digits.
pub fn number<'a>(input: &'a str) -> (r: Result<(&'a str, Literal), ParserError<'a>>)
    ensures
        number_parsed(input, r),
{
    let cs = chars_of(input);
    let end = run(&cs, 0, Class::Digit);
    if end == 0 {
        return Err(ParserError::NumberParsingError(input, whole(input)));
    }
    Ok((rest_of(input, end), Literal::Number(prefix_of(input, end).to_owned())))
}

/// What parsing a number gives: the digits that the text begins with.
pub open spec fn number_parsed<'a>(
    input: &'a str,
    r: Result<(&'a str, Literal), ParserError<'a>>,
) -> bool {
    let n = run_end(input@, 0, |c: char| dec_digit(c));
    if n > 0 {
        &&& r is Ok
        &&& r->Ok_0.0@ == input@.skip(n)
        &&& r->Ok_0.1.deep_view() == LiteralV::Number(input@.take(n))
        &&& n <= input@.len()
    } else {
        r is Err && r->Err_0 == ParserError::NumberParsingError(
            input,
            SourceSpan { offset: 0, length: byte_len(input) as usize },
        )
    }
}

/// Whether `s` begins with a closed string literal.
pub open spec fn quoted(s: Text) -> bool {
    s.len() > 0 && s[0] == '"' && run_end(s, 1, |c: char| c != '"') < s.len()
}

/// What parsing a string literal gives: the text up to the next quote, with
/// both quotes.
pub open spec fn string_parsed<'a>(
    input: &'a str,
    r: Result<(&'a str, Literal), ParserError<'a>>,
) -> bool {
    let n = run_end(input@, 1, |c: char| c != '"') + 1;
    if quoted(input@) {
        &&& r is Ok
        &&& r->Ok_0.0@ == input@.skip(n)
        &&& r->Ok_0.1.deep_view() == LiteralV::String(input@.take(n))
        &&& n <= input@.len()
    } else if input@.len() > 0 && input@[0] == '"' {
        r is Err && r->Err_0 == ParserError::StringParsingError(
            input,
            SourceSpan { offset: 0, length: 0 },
        )
    } else {
        r is Err && r->Err_0 == ParserError::StringParsingError(
            input,
            SourceSpan { offset: 0, length: byte_len(input) as usize },
        )
    }
}

/// Parses a string literal, quotes included.
pub fn string<'a>(input: &'a str) -> (r: Result<(&'a str, Literal), ParserError<'a>>)
    ensures
        string_parsed(input, r),
{
    let cs = chars_of(input);
    if cs.len() == 0 || cs[0] != '"' {
        return Err(ParserError::StringParsingError(input, whole(input)));
    }
    let end = run(&cs, 1, Class::Unquoted);
    if end == cs.len() {
        return Err(ParserError::StringParsingError(input, SourceSpan { offset: 0, length: 0 }));
    }
    Ok((rest_of(input, end + 1), Literal::String(prefix_of(input, end + 1).to_owned())))
}

/// `s` without the blanks and line breaks it begins with.
pub open spec fn unspaced(s: Text) -> Text {
    s.skip(run_end(s, 0, |c: char| multispace(c)))
}

fn skip_space<'a>(input: &'a str) -> (r: &'a str)
    ensures
        r@ == unspaced(input@),
        r@.len() <= input@.len(),
{
    let cs = chars_of(input);
    let n = run(&cs, 0, Class::Space);
    rest_of(input, n)
}

/// Runs a parser behind leading white space.
pub fn skip_whitespaces<'a, T, F: Fn(&'a str) -> Result<(&'a str, T), ParserError<'a>>>(
    input: &'a str,
    f: F,
) -> (r: Result<(&'a str, T), ParserError<'a>>)
    requires
        forall|s: &'a str| call_requires(f, (s,)),
    ensures
        exists|s: &'a str| s@ == unspaced(input@) && #[trigger] call_ensures(f, (s,), r),
{
    let next = skip_space(input);
    f(next)
}

/// Parses a literal behind leading white space: a string literal, or else a
/// number.
pub fn literal<'a>(input: &'a str) -> (r: Result<(&'a str, Literal), ParserError<'a>>)
    ensures
        literal_parsed(input@, r),
{
    let next = skip_space(input);
    match string(next) {
        Ok(found) => {
            proof {
                assert(string_parsed(next, Ok(found)));
            }
            Ok(found)
        },
        Err(_) => number(next),
    }
}

/// What parsing a literal gives.
pub open spec fn literal_parsed<'a>(
    input: Text,
    r: Result<(&'a str, Literal), ParserError<'a>>,
) -> bool {
    let s = unspaced(input);
    if quoted(s) {
        exists|next: &'a str| next@ == s && #[trigger] string_parsed(next, r)
    } else {
        exists|next: &'a str| next@ == s && #[trigger] number_parsed(next, r)
    }
}

/// Whether the literal parser accepts `s`.
pub open spec fn is_literal(s: Text) -> bool {
    quoted(unspaced(s)) || run_end(unspaced(s), 0, |c: char| dec_digit(c)) > 0
}

/// The literal that `s` begins with, and what remains.
pub open spec fn literal_of(s: Text) -> (LiteralV, Text) {
    let t = unspaced(s);
    if quoted(t) {
        let n = run_end(t, 1, |c: char| c != '"') + 1;
        (LiteralV::String(t.take(n)), t.skip(n))
    } else {
        let n = run_end(t, 0, |c: char| dec_digit(c));
        (LiteralV::Number(t.take(n)), t.skip(n))
    }
}

// ── variables ──────────────────────────────────────────────────────────────

/// The variable that `s` begins with, and what remains: an identifier, an
/// identifier behind white space, and a literal if a dot follows.
pub open spec fn variable_of(s: Text) -> Option<(VariableV, Text)> {
    match ident_end(s) {
        None => None,
        Some(n) => {
            let t = unspaced(s.skip(n));
            match ident_end(t) {
                None => None,
                Some(m) => {
                    let rest = t.skip(m);
                    if rest.len() > 0 && rest[0] == '.' {
                        if is_literal(rest.skip(1)) {
                            let (lit, left) = literal_of(rest.skip(1));
                            Some(
                                (
                                    VariableV {
                                        ident: s.take(n),
                                        ty: t.take(m),
                                        default: Some(lit),
                                    },
                                    left,
                                ),
                            )
                        } else {
                            None
                        }
                    } else {
                        Some(
                            (VariableV { ident: s.take(n), ty: t.take(m), default: None }, rest),
                        )
                    }
                },
            }
        },
    }
}

/// Why `s` does not begin with a variable: the name, the type or the number
/// that was expected, and the text that stands in its place.
pub open spec fn variable_error(s: Text) -> ParserErrorV {
    match ident_end(s) {
        None => ParserErrorV::Ident(s, all_of(s)),
        Some(n) => {
            let t = unspaced(s.skip(n));
            match ident_end(t) {
                None => ParserErrorV::Ident(t, all_of(t)),
                Some(m) => {
                    let rest = unspaced(t.skip(m).skip(1));
                    ParserErrorV::Number(rest, all_of(rest))
                },
            }
        },
    }
}

/// Parses a variable declaration.
pub fn variable<'a>(input: &'a str) -> (r: Result<(&'a str, Variable), ParserError<'a>>)
    ensures
        match variable_of(input@) {
            Some((v, left)) => r is Ok && r->Ok_0.1.deep_view() == v && r->Ok_0.0@ == left
                && left.len() < input@.len(),
            None => r is Err && r->Err_0.deep_view() == variable_error(input@),
        },
{
    let (next, name) = match ident(input) {
        Ok(found) => found,
        Err(e) => {
            return Err(e);
        },
    };
    let next = skip_space(next);
    let (next, ty) = match ident(next) {
        Ok(found) => found,
        Err(e) => {
            return Err(e);
        },
    };
    if next.unicode_len() > 0 && next.get_char(0) == '.' {
        let after = rest_of(next, 1);
        proof {
            run_end_bounds(after@, 0, |c: char| multispace(c));
            let t = unspaced(after@);
            run_end_bounds(t, 0, |c: char| dec_digit(c));
            if t.len() > 0 {
                run_end_bounds(t, 1, |c: char| c != '"');
            }
        }
        match literal(after) {
            Ok((left, lit)) => Ok((left, Variable::new(name, Path::Type(ty), Some(lit)))),
            Err(e) => Err(e),
        }
    } else {
        Ok((next, Variable::new(name, Path::Type(ty), None)))
    }
}

/// The variables that `s` begins with, each followed by any white space.
pub open spec fn variables_of(s: Text) -> Seq<VariableV>
    decreases s.len(),
{
    match variable_of(s) {
        None => Seq::empty(),
        Some((v, left)) => if unspaced(left).len() < s.len() {
            seq![v] + variables_of(unspaced(left))
        } else {
            seq![v]
        },
    }
}

/// Parses the variables of a branch; nothing is left over.
pub fn branch<'a>(input: &'a str) -> (r: Result<(&'a str, BranchDecl), ParserError<'a>>)
    ensures
        r is Ok,
        r->Ok_0.0@ == ""@,
        r->Ok_0.1.kind == BranchType::Action,
        r->Ok_0.1.vars.deep_view() == variables_of(input@),
{
    let mut vars: Vec<Variable> = Vec::new();
    let mut next: &'a str = input;
    proof {
        assert(vars.deep_view() + variables_of(next@) =~= variables_of(input@));
    }
    loop
        invariant_except_break
            vars.deep_view() + variables_of(next@) == variables_of(input@),
        ensures
            vars.deep_view() == variables_of(input@),
        decreases next@.len(),
    {
        match variable(next) {
            Err(_) => {
                proof {
                    assert(vars.deep_view() + Seq::<VariableV>::empty() =~= vars.deep_view());
                }
                break ;
            },
            Ok((left, v)) => {
                let ghost before = vars.deep_view();
                let tail = skip_space(left);
                proof {
                    assert(variables_of(next@) == seq![v.deep_view()] + variables_of(tail@));
                    assert(before + (seq![v.deep_view()] + variables_of(tail@)) =~= before.push(
                        v.deep_view(),
                    ) + variables_of(tail@));
                }
                vars.push(v);
                proof {
                    assert(vars.deep_view() =~= before.push(v.deep_view()));
                }
                next = tail;
            },
        }
    }
    Ok(("", BranchDecl::new(BranchType::Action, vars)))
}

} // verus!
