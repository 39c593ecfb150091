//! Strings as sequences of characters: comparison, concatenation, decimal
//! rendering and joining.

use vstd::prelude::*;

verus! {

/// A name or text in contracts: the characters it consists of.
pub type Text = Seq<char>;

/// `str`'s equality compares the two texts character by character.
#[verifier::external_body]
pub(crate) fn same(a: &str, b: &str) -> (r: bool)
    ensures
        r == (a@ == b@),
{
    a == b
}

/// `String::push` appends one character.
pub assume_specification[ std::string::String::push ](s: &mut std::string::String, c: char)
    ensures
        final(s)@ == old(s)@.push(c),
;

/// The decimal digits of `n`, most significant first; `0` is `"0"`.
pub open spec fn decimal(n: nat) -> Text
    decreases n,
{
    if n < 10 {
        seq![digit_char(n)]
    } else {
        decimal(n / 10).push(digit_char(n % 10))
    }
}

/// The character of a decimal digit.
pub open spec fn digit_char(d: nat) -> char {
    if d == 0 {
        '0'
    } else if d == 1 {
        '1'
    } else if d == 2 {
        '2'
    } else if d == 3 {
        '3'
    } else if d == 4 {
        '4'
    } else if d == 5 {
        '5'
    } else if d == 6 {
        '6'
    } else if d == 7 {
        '7'
    } else if d == 8 {
        '8'
    } else {
        '9'
    }
}

fn digit_of(d: u64) -> (c: char)
    requires
        d < 10,
    ensures
        c == digit_char(d as nat),
{
    if d == 0 {
        '0'
    } else if d == 1 {
        '1'
    } else if d == 2 {
        '2'
    } else if d == 3 {
        '3'
    } else if d == 4 {
        '4'
    } else if d == 5 {
        '5'
    } else if d == 6 {
        '6'
    } else if d == 7 {
        '7'
    } else if d == 8 {
        '8'
    } else {
        '9'
    }
}

/// Renders `n` in decimal.
pub fn decimal_text(n: u64) -> (r: String)
    ensures
        r@ == decimal(n as nat),
    decreases n,
{
    if n < 10 {
        let mut s = String::new();
        s.push(digit_of(n));
        proof {
            assert(s@ =~= seq![digit_char(n as nat)]);
        }
        s
    } else {
        let mut s = decimal_text(n / 10);
        s.push(digit_of(n % 10));
        s
    }
}

/// An integer in decimal, with a minus sign if it is negative.
pub open spec fn int_text(n: int) -> Text {
    if n < 0 {
        "-"@ + decimal((-n) as nat)
    } else {
        decimal(n as nat)
    }
}

/// Renders a signed integer in decimal.
pub fn int_to_text(n: i64) -> (r: String)
    ensures
        r@ == int_text(n as int),
{
    if n < 0 {
        let wide: i128 = -(n as i128);
        cat("-", decimal_text(wide as u64).as_str())
    } else {
        decimal_text(n as u64)
    }
}

/// Decimal renderings tell the numbers apart.
pub proof fn decimal_is_injective(a: nat, b: nat)
    ensures
        decimal(a) == decimal(b) ==> a == b,
    decreases a,
{
    if decimal(a) == decimal(b) {
        decimal_nonempty(a);
        decimal_nonempty(b);
        if a < 10 && b < 10 {
            assert(decimal(a)[0] == digit_char(a));
            assert(decimal(b)[0] == digit_char(b));
        } else if a >= 10 && b >= 10 {
            assert(decimal(a).drop_last() =~= decimal(a / 10));
            assert(decimal(b).drop_last() =~= decimal(b / 10));
            assert(decimal(a).last() == digit_char(a % 10));
            assert(decimal(b).last() == digit_char(b % 10));
            decimal_is_injective(a / 10, b / 10);
        } else if a < 10 {
            decimal_nonempty(b / 10);
            assert(decimal(a).len() == 1);
            assert(decimal(b).len() >= 2);
        } else {
            decimal_nonempty(a / 10);
            assert(decimal(b).len() == 1);
            assert(decimal(a).len() >= 2);
        }
    }
}

proof fn decimal_nonempty(n: nat)
    ensures
        decimal(n).len() >= 1,
    decreases n,
{
    if n >= 10 {
        decimal_nonempty(n / 10);
    }
}

/// The texts of `parts[..n]`, in order, with `sep` between neighbours.
pub open spec fn join_first(parts: Seq<Text>, sep: Text, n: nat) -> Text
    decreases n,
{
    if n == 0 {
        Seq::empty()
    } else if n == 1 {
        parts[0]
    } else {
        join_first(parts, sep, (n - 1) as nat) + sep + parts[n - 1]
    }
}

/// All of `parts`, in order, with `sep` between neighbours.
pub open spec fn join(parts: Seq<Text>, sep: Text) -> Text {
    join_first(parts, sep, parts.len())
}

/// Joins `parts` with `sep` between neighbours.
pub fn join_texts(parts: &Vec<String>, sep: &str) -> (r: String)
    ensures
        r@ == join(parts.deep_view(), sep@),
{
    let mut out = String::new();
    let mut i: usize = 0;
    while i < parts.len()
        invariant
            i <= parts.len(),
            out@ == join_first(parts.deep_view(), sep@, i as nat),
        decreases parts.len() - i,
    {
        if i > 0 {
            out.append(sep);
        }
        out.append(parts[i].as_str());
        proof {
            assert(parts.deep_view()[i as int] == parts@[i as int]@);
            if i == 0 {
                assert(out@ =~= parts.deep_view()[0]);
            }
        }
        i = i + 1;
    }
    out
}

/// The concatenation of two texts.
pub fn cat(a: &str, b: &str) -> (r: String)
    ensures
        r@ == a@ + b@,
{
    let mut s = String::new();
    s.append(a);
    s.append(b);
    proof {
        assert(s@ =~= a@ + b@);
    }
    s
}

/// The concatenation of three texts.
pub fn cat3(a: &str, b: &str, c: &str) -> (r: String)
    ensures
        r@ == a@ + b@ + c@,
{
    let mut s = cat(a, b);
    s.append(c);
    s
}

/// Copies a list of texts.
pub fn dup_texts(v: &Vec<String>) -> (r: Vec<String>)
    ensures
        r@ == v@,
        r.deep_view() == v.deep_view(),
{
    let mut out: Vec<String> = Vec::new();
    let mut i: usize = 0;
    while i < v.len()
        invariant
            i <= v.len(),
            out@ == v@.take(i as int),
        decreases v.len() - i,
    {
        out.push(v[i].clone());
        i = i + 1;
    }
    proof {
        assert(out@ =~= v@);
        assert(out.deep_view() =~= v.deep_view());
    }
    out
}

/// The characters of a text, in order.
pub fn chars_of(s: &str) -> (r: Vec<char>)
    ensures
        r@ == s@,
{
    broadcast use vstd::string::axiom_spec_iter;

    let mut out: Vec<char> = Vec::new();
    for c in it: s.chars()
        invariant
            it.seq() == s@,
            out@ == s@.take(it.index() as int),
    {
        out.push(c);
    }
    proof {
        assert(out@ =~= s@);
    }
    out
}

/// The text that the characters `cs[from..to]` spell.
pub fn text_of(cs: &Vec<char>, from: usize, to: usize) -> (r: String)
    requires
        from <= to <= cs@.len(),
    ensures
        r@ == cs@.subrange(from as int, to as int),
{
    let mut out = String::new();
    let mut i: usize = from;
    while i < to
        invariant
            from <= i <= to,
            to <= cs@.len(),
            out@ == cs@.subrange(from as int, i as int),
        decreases to - i,
    {
        out.push(cs[i]);
        proof {
            assert(out@ =~= cs@.subrange(from as int, i + 1));
        }
        i = i + 1;
    }
    out
}

/// Whether a character is white space.
pub uninterp spec fn white_space(c: char) -> bool;

/// `char::is_whitespace` tells whether a character has the Unicode property
/// `White_Space`; among ASCII these are the space, the tabs, the form feed
/// and the line breaks.
#[verifier::external_body]
pub(crate) fn is_white_space(c: char) -> (r: bool)
    ensures
        r == white_space(c),
        c as u32 <= 0x7f ==> r == (c == ' ' || 0x9 <= c as u32 <= 0xd),
{
    c.is_whitespace()
}

/// `s` without the white space at its end.
pub open spec fn trimmed_end(s: Text) -> Text
    decreases s.len(),
{
    if s.len() > 0 && white_space(s.last()) {
        trimmed_end(s.drop_last())
    } else {
        s
    }
}

/// The text `cs[..to]` without the white space at its end.
pub fn trim_end(cs: &Vec<char>, to: usize) -> (r: String)
    requires
        to <= cs@.len(),
    ensures
        r@ == trimmed_end(cs@.take(to as int)),
{
    let mut n: usize = to;
    while n > 0 && is_white_space(cs[n - 1])
        invariant
            n <= to <= cs@.len(),
            trimmed_end(cs@.take(n as int)) == trimmed_end(cs@.take(to as int)),
        decreases n,
    {
        proof {
            assert(cs@.take(n as int).drop_last() =~= cs@.take(n - 1));
        }
        n = n - 1;
    }
    proof {
        assert(cs@.subrange(0, n as int) =~= cs@.take(n as int));
    }
    text_of(cs, 0, n)
}

/// `s` without the white space at its start.
pub open spec fn trimmed_start(s: Text) -> Text
    decreases s.len(),
{
    if s.len() > 0 && white_space(s[0]) {
        trimmed_start(s.skip(1))
    } else {
        s
    }
}

/// `s` without the white space at its ends.
pub open spec fn trimmed(s: Text) -> Text {
    trimmed_end(trimmed_start(s))
}

/// The place of the last dot among the first `n` characters, if there is one.
pub open spec fn last_dot(s: Text, n: nat) -> Option<nat>
    decreases n,
{
    if n == 0 {
        None
    } else if s[n - 1] == '.' {
        Some((n - 1) as nat)
    } else {
        last_dot(s, (n - 1) as nat)
    }
}

/// A file name without its extension; a dot at the beginning begins none.
pub open spec fn stem(s: Text) -> Text {
    match last_dot(s, s.len()) {
        Some(k) => if k > 0 {
            s.take(k as int)
        } else {
            s
        },
        None => s,
    }
}

/// [`stem`] of a text.
pub fn stem_of(s: &str) -> (r: String)
    ensures
        r@ == stem(s@),
{
    let cs = chars_of(s);
    let mut n: usize = cs.len();
    while n > 0 && cs[n - 1] != '.'
        invariant
            n <= cs@.len(),
            cs@ == s@,
            last_dot(s@, n as nat) == last_dot(s@, s@.len()),
        decreases n,
    {
        n = n - 1;
    }
    if n > 1 {
        proof {
            assert(cs@.subrange(0, n - 1) =~= s@.take(n - 1));
        }
        text_of(&cs, 0, n - 1)
    } else {
        proof {
            assert(cs@.subrange(0, cs@.len() as int) =~= s@);
        }
        text_of(&cs, 0, cs.len())
    }
}

/// The bounds of `cs[from..to]` without the white space at its ends.
pub fn trim_bounds(cs: &Vec<char>, from: usize, to: usize) -> (r: (usize, usize))
    requires
        from <= to <= cs@.len(),
    ensures
        from <= r.0 <= r.1 <= to,
        cs@.subrange(r.0 as int, r.1 as int) == trimmed(cs@.subrange(from as int, to as int)),
{
    let ghost whole = cs@.subrange(from as int, to as int);
    let mut a: usize = from;
    while a < to && is_white_space(cs[a])
        invariant
            from <= a <= to <= cs@.len(),
            trimmed_start(cs@.subrange(a as int, to as int)) == trimmed_start(whole),
        decreases to - a,
    {
        proof {
            let s = cs@.subrange(a as int, to as int);
            assert(s.skip(1) =~= cs@.subrange(a + 1, to as int));
        }
        a = a + 1;
    }
    let ghost mid = cs@.subrange(a as int, to as int);
    proof {
        assert(mid == trimmed_start(whole));
    }
    let mut b: usize = to;
    while b > a && is_white_space(cs[b - 1])
        invariant
            from <= a <= b <= to <= cs@.len(),
            trimmed_end(cs@.subrange(a as int, b as int)) == trimmed_end(mid),
        decreases b,
    {
        proof {
            let s = cs@.subrange(a as int, b as int);
            assert(s.drop_last() =~= cs@.subrange(a as int, b - 1));
        }
        b = b - 1;
    }
    (a, b)
}

/// How many characters of `s` come before its first white space.
pub open spec fn word_len(s: Text) -> nat
    decreases s.len(),
{
    if s.len() == 0 || white_space(s[0]) {
        0
    } else {
        1 + word_len(s.skip(1))
    }
}

/// A word is no longer than the text that it begins.
pub proof fn word_len_fits(s: Text)
    ensures
        word_len(s) <= s.len(),
    decreases s.len(),
{
    if s.len() > 0 && !white_space(s[0]) {
        word_len_fits(s.skip(1));
    }
}

/// The end of the word that begins at `from` in `cs[..to]`.
pub fn word_end(cs: &Vec<char>, from: usize, to: usize) -> (r: usize)
    requires
        from <= to <= cs@.len(),
    ensures
        from <= r <= to,
        r - from == word_len(cs@.subrange(from as int, to as int)),
{
    let mut i: usize = from;
    while i < to && !is_white_space(cs[i])
        invariant
            from <= i <= to <= cs@.len(),
            word_len(cs@.subrange(from as int, to as int)) == (i - from) + word_len(
                cs@.subrange(i as int, to as int),
            ),
        decreases to - i,
    {
        proof {
            let s = cs@.subrange(i as int, to as int);
            assert(s.skip(1) =~= cs@.subrange(i + 1, to as int));
        }
        i = i + 1;
    }
    i
}

/// Whether `name` is one of `names`.
pub fn contains_text(names: &Vec<String>, name: &str) -> (r: bool)
    ensures
        r == names.deep_view().contains(name@),
{
    let mut i: usize = 0;
    while i < names.len()
        invariant
            i <= names.len(),
            forall|j: int| 0 <= j < i ==> names.deep_view()[j] != name@,
        decreases names.len() - i,
    {
        if same(names[i].as_str(), name) {
            proof {
                assert(names.deep_view()[i as int] == name@);
            }
            return true;
        }
        i = i + 1;
    }
    false
}

/// Whether a text begins with another.
pub open spec fn begins(s: Text, prefix: Text) -> bool {
    s.len() >= prefix.len() && s.take(prefix.len() as int) == prefix
}

pub fn begins_with(s: &str, prefix: &str) -> (r: bool)
    ensures
        r == begins(s@, prefix@),
{
    let a = chars_of(s);
    let b = chars_of(prefix);
    if a.len() < b.len() {
        return false;
    }
    let mut i: usize = 0;
    while i < b.len()
        invariant
            i <= b.len() <= a.len(),
            a@ == s@,
            b@ == prefix@,
            forall|k: int| 0 <= k < i ==> a@[k] == b@[k],
        decreases b.len() - i,
    {
        if a[i] != b[i] {
            proof {
                assert(s@.take(prefix@.len() as int)[i as int] == a@[i as int]);
            }
            return false;
        }
        i = i + 1;
    }
    proof {
        assert(s@.take(prefix@.len() as int) =~= prefix@);
    }
    true
}

/// Where the parts of a joined text begin.
pub open spec fn part_start(parts: Seq<Text>, sep: Text, i: nat) -> nat
    decreases i,
{
    if i == 0 {
        0
    } else {
        part_start(parts, sep, (i - 1) as nat) + parts[i - 1].len() + sep.len()
    }
}

/// In a joined text the parts stand in their order, with the separator between
/// neighbours and nothing else.
pub proof fn joined_parts_stand_in_order(parts: Seq<Text>, sep: Text, n: nat)
    requires
        0 < n <= parts.len(),
    ensures
        ({
            let all = join_first(parts, sep, n);
            &&& all.len() + sep.len() == part_start(parts, sep, n)
            &&& forall|i: int|
                0 <= i < n ==> stands(all, part_start(parts, sep, i as nat), #[trigger] parts[i])
            &&& forall|i: int|
                0 <= i < n - 1 ==> stands(
                    all,
                    part_start(parts, sep, i as nat) + (#[trigger] parts[i]).len(),
                    sep,
                )
        }),
    decreases n,
{
    let all = join_first(parts, sep, n);
    if n == 1 {
        assert(part_start(parts, sep, 1) == part_start(parts, sep, 0) + parts[0].len() + sep.len());
        assert(all.subrange(0, all.len() as int) =~= parts[0]);
    } else {
        let m = (n - 1) as nat;
        let was = join_first(parts, sep, m);
        joined_parts_stand_in_order(parts, sep, m);
        appended_stand(was, sep, parts[n - 1]);
        assert(part_start(parts, sep, n) == part_start(parts, sep, m) + parts[n - 1].len()
            + sep.len());
        assert(part_start(parts, sep, m) == part_start(parts, sep, (m - 1) as nat)
            + parts[m - 1].len() + sep.len());
        assert forall|i: int| 0 <= i < n implies stands(
            all,
            part_start(parts, sep, i as nat),
            #[trigger] parts[i],
        ) by {
            if i < n - 1 {
                still_stands(was, all, part_start(parts, sep, i as nat), parts[i]);
            }
        }
        assert forall|i: int| 0 <= i < n - 1 implies stands(
            all,
            part_start(parts, sep, i as nat) + (#[trigger] parts[i]).len(),
            sep,
        ) by {
            if i < n - 2 {
                still_stands(was, all, part_start(parts, sep, i as nat) + parts[i].len(), sep);
            }
        }
    }
}

proof fn appended_stand(was: Text, sep: Text, last: Text)
    ensures
        ({
            let all = was + sep + last;
            &&& all.take(was.len() as int) == was
            &&& stands(all, was.len(), sep)
            &&& stands(all, was.len() + sep.len(), last)
        }),
{
    let all = was + sep + last;
    assert(all.take(was.len() as int) =~= was);
    assert(all.subrange(was.len() as int, (was.len() + sep.len()) as int) =~= sep);
    let at = was.len() + sep.len();
    assert(all.subrange(at as int, (at + last.len()) as int) =~= last);
}

/// Whether `part` stands in a text from `at` on.
pub open spec fn stands(all: Text, at: nat, part: Text) -> bool {
    at + part.len() <= all.len() && all.subrange(at as int, (at + part.len()) as int) == part
}

proof fn still_stands(was: Text, all: Text, at: nat, part: Text)
    requires
        stands(was, at, part),
        was.len() <= all.len(),
        all.take(was.len() as int) == was,
    ensures
        stands(all, at, part),
{
    let j = (at + part.len()) as int;
    assert(all.subrange(at as int, j) =~= was.subrange(at as int, j)) by {
        assert forall|k: int| at <= k < j implies all[k] == was[k] by {
            assert(all.take(was.len() as int)[k] == all[k]);
        }
    }
}

} // verus!
