//! Character classes, runs of characters, and byte offsets.

use vstd::prelude::*;
use vstd::string::*;

use crate::text::Text;

verus! {

/// What `chumsky::text::Char::is_ident_start` says of a character.
pub uninterp spec fn xid_start(c: char) -> bool;

/// What `chumsky::text::Char::is_ident_continue` says of a character.
pub uninterp spec fn xid_continue(c: char) -> bool;

/// What `chumsky::text::Char::is_whitespace` says of a character.
pub uninterp spec fn white_space(c: char) -> bool;

/// An ASCII letter.
pub open spec fn ascii_letter(c: char) -> bool {
    'a' <= c <= 'z' || 'A' <= c <= 'Z'
}

/// A decimal digit.
pub open spec fn digit(c: char) -> bool {
    '0' <= c <= '9'
}

/// Whether an identifier may begin with a character.
pub open spec fn ident_start(c: char) -> bool {
    if c as u32 <= 0x7f {
        ascii_letter(c) || c == '_'
    } else {
        xid_start(c)
    }
}

/// Whether an identifier may go on with a character.
pub open spec fn ident_continue(c: char) -> bool {
    if c as u32 <= 0x7f {
        ascii_letter(c) || digit(c) || c == '_'
    } else {
        xid_continue(c)
    }
}

/// Whether a character separates tokens.
pub open spec fn blank(c: char) -> bool {
    if c as u32 <= 0x7f {
        c == ' ' || 0x9 <= c as u32 <= 0xd
    } else {
        white_space(c)
    }
}

/// A hexadecimal digit.
pub open spec fn hex_digit(c: char) -> bool {
    digit(c) || 'a' <= c <= 'f' || 'A' <= c <= 'F'
}

/// `chumsky::text::Char::is_ident_start` on a `char`: the Unicode property
/// `XID_Start`, or the underscore.  Among ASCII these are the letters and
/// the underscore.
#[verifier::external_body]
pub(crate) fn is_ident_start(c: char) -> (r: bool)
    ensures
        r == xid_start(c),
        c as u32 <= 0x7f ==> r == (ascii_letter(c) || c == '_'),
{
    chumsky::text::Char::is_ident_start(&c)
}

/// `chumsky::text::Char::is_ident_continue` on a `char`: the Unicode
/// property `XID_Continue`.  Among ASCII these are the letters, the digits
/// and the underscore.
#[verifier::external_body]
pub(crate) fn is_ident_continue(c: char) -> (r: bool)
    ensures
        r == xid_continue(c),
        c as u32 <= 0x7f ==> r == (ascii_letter(c) || digit(c) || c == '_'),
{
    chumsky::text::Char::is_ident_continue(&c)
}

/// `chumsky::text::Char::is_whitespace` on a `char`: the Unicode property
/// `White_Space`, except for characters that change the direction of text.
/// Among ASCII these are the space, the tabs, the form feed and the line
/// breaks.
#[verifier::external_body]
pub(crate) fn is_blank(c: char) -> (r: bool)
    ensures
        r == white_space(c),
        c as u32 <= 0x7f ==> r == (c == ' ' || 0x9 <= c as u32 <= 0xd),
{
    chumsky::text::Char::is_whitespace(&c)
}

/// The classes of characters that runs are made of.
#[derive(Debug, Clone, Copy, PartialEq, Eq, Structural)]
pub enum Class {
    Blank,
    Word,
    Digit,
    Hex,
    Bit,
    /// Anything up to the end of the line.
    Line,
}

/// Whether a character belongs to a class.
pub open spec fn in_class(class: Class, c: char) -> bool {
    match class {
        Class::Blank => blank(c),
        Class::Word => ident_continue(c),
        Class::Digit => digit(c),
        Class::Hex => hex_digit(c),
        Class::Bit => c == '0' || c == '1',
        Class::Line => c != '\n',
    }
}

pub fn belongs(class: Class, c: char) -> (r: bool)
    ensures
        r == in_class(class, c),
{
    match class {
        Class::Blank => is_blank(c),
        Class::Word => is_ident_continue(c),
        Class::Digit => '0' <= c && c <= '9',
        Class::Hex => ('0' <= c && c <= '9') || ('a' <= c && c <= 'f') || ('A' <= c && c <= 'F'),
        Class::Bit => c == '0' || c == '1',
        Class::Line => c != '\n',
    }
}

/// Where the run of `class` characters that begins at `i` ends.
pub open spec fn run(cs: Text, i: nat, class: Class) -> nat
    decreases cs.len() - i,
{
    if i < cs.len() && in_class(class, cs[i as int]) {
        run(cs, i + 1, class)
    } else {
        i
    }
}

/// A run ends inside the text, holds only characters of its class, and ends
/// before a character that is not of it.
pub proof fn run_is_maximal(cs: Text, i: nat, class: Class)
    requires
        i <= cs.len(),
    ensures
        i <= run(cs, i, class) <= cs.len(),
        forall|k: int| i <= k < run(cs, i, class) ==> in_class(class, #[trigger] cs[k]),
        run(cs, i, class) < cs.len() ==> !in_class(class, cs[run(cs, i, class) as int]),
    decreases cs.len() - i,
{
    if i < cs.len() && in_class(class, cs[i as int]) {
        run_is_maximal(cs, i + 1, class);
    }
}

pub fn run_end(cs: &Vec<char>, i: usize, class: Class) -> (r: usize)
    requires
        i <= cs@.len(),
    ensures
        r == run(cs@, i as nat, class),
        i <= r <= cs@.len(),
{
    let mut k: usize = i;
    while k < cs.len() && belongs(class, cs[k])
        invariant
            i <= k <= cs@.len(),
            run(cs@, i as nat, class) == run(cs@, k as nat, class),
        decreases cs@.len() - k,
    {
        k = k + 1;
    }
    k
}

/// How many bytes a character takes in UTF-8.
pub open spec fn width(c: char) -> nat {
    vstd::utf8::encode_scalar(c as u32).len()
}

/// How many bytes a text takes in UTF-8.
pub open spec fn byte_len(cs: Text) -> nat
    decreases cs.len(),
{
    if cs.len() == 0 {
        0
    } else {
        byte_len(cs.drop_last()) + width(cs.last())
    }
}

/// The byte offset of the `k`-th character.
pub open spec fn offset(cs: Text, k: nat) -> nat {
    byte_len(cs.take(k as int))
}

/// `byte_len` is the length of the UTF-8 encoding.
pub proof fn byte_len_is_utf8(cs: Text)
    ensures
        vstd::utf8::encode_utf8(cs).len() == byte_len(cs),
    decreases cs.len(),
{
    if cs.len() > 0 {
        byte_len_is_utf8(cs.drop_last());
        encoded_push(cs.drop_last(), cs.last());
        assert(cs.drop_last().push(cs.last()) =~= cs);
    }
}

proof fn encoded_push(cs: Text, c: char)
    ensures
        vstd::utf8::encode_utf8(cs.push(c)) == vstd::utf8::encode_utf8(cs)
            + vstd::utf8::encode_scalar(c as u32),
    decreases cs.len(),
{
    let one = vstd::utf8::encode_scalar(c as u32);
    if cs.len() == 0 {
        assert(cs.push(c).drop_first() =~= cs);
        assert(vstd::utf8::encode_utf8(cs) =~= Seq::<u8>::empty());
        assert(vstd::utf8::encode_utf8(cs.push(c)) =~= one + vstd::utf8::encode_utf8(cs));
        assert(one + Seq::<u8>::empty() =~= Seq::<u8>::empty() + one);
    } else {
        encoded_push(cs.drop_first(), c);
        assert(cs.push(c).drop_first() =~= cs.drop_first().push(c));
        let head = vstd::utf8::encode_scalar(cs[0] as u32);
        let tail = vstd::utf8::encode_utf8(cs.drop_first());
        assert(vstd::utf8::encode_utf8(cs.push(c)) =~= head + (tail + one));
        assert(head + (tail + one) =~= (head + tail) + one);
    }
}

/// Offsets grow with the position.
pub proof fn offset_grows(cs: Text, a: nat, b: nat)
    requires
        a <= b <= cs.len(),
    ensures
        offset(cs, a) <= offset(cs, b) <= byte_len(cs),
        a < b ==> offset(cs, a) < offset(cs, b),
    decreases cs.len() - a,
{
    assert(cs.take(cs.len() as int) =~= cs);
    if a < b {
        next_offset(cs, a);
        offset_grows(cs, a + 1, b);
    } else if b < cs.len() {
        offset_grows(cs, a + 1, b + 1);
        next_offset(cs, a);
    }
}

proof fn next_offset(cs: Text, k: nat)
    requires
        k < cs.len(),
    ensures
        offset(cs, k + 1) == offset(cs, k) + width(cs[k as int]),
        width(cs[k as int]) >= 1,
{
    assert(cs.take((k + 1) as int).drop_last() =~= cs.take(k as int));
}

fn width_of(c: char) -> (r: usize)
    ensures
        r == width(c),
{
    let v: u32 = c as u32;
    if v <= 0x7f {
        1
    } else if v <= 0x7ff {
        2
    } else if v <= 0xffff {
        3
    } else {
        4
    }
}

/// The byte offset of every character of a text, and of its end.
pub fn offsets(src: &str, cs: &Vec<char>) -> (r: Vec<usize>)
    requires
        cs@ == src@,
    ensures
        r@.len() == cs@.len() + 1,
        forall|k: int| 0 <= k <= cs@.len() ==> #[trigger] r@[k] == offset(cs@, k as nat),
{
    let total: usize = src.as_bytes().len();
    proof {
        byte_len_is_utf8(cs@);
        assert(total == byte_len(cs@));
        assert(cs@.take(0) =~= Seq::<char>::empty());
    }
    let mut out: Vec<usize> = Vec::new();
    out.push(0);
    let mut k: usize = 0;
    let mut at: usize = 0;
    while k < cs.len()
        invariant
            k <= cs@.len(),
            at == offset(cs@, k as nat),
            byte_len(cs@) <= usize::MAX,
            out@.len() == k + 1,
            forall|j: int| 0 <= j <= k ==> #[trigger] out@[j] == offset(cs@, j as nat),
        decreases cs@.len() - k,
    {
        proof {
            next_offset(cs@, k as nat);
            offset_grows(cs@, (k + 1) as nat, cs@.len());
        }
        at = at + width_of(cs[k]);
        out.push(at);
        k = k + 1;
    }
    out
}

} // verus!
