//! Pieces of a command line, taken apart as text: splitting off the first
//! word or at the first space, trimming white space, and reading a `u32`.
use vstd::prelude::*;

verus! {

/// The position of the first space in `s`, or its length if it has none.
pub open spec fn space_index(s: Seq<char>) -> nat
    decreases s.len(),
{
    if s.len() == 0 {
        0
    } else if s[0] == ' ' {
        0
    } else {
        1 + space_index(s.drop_first())
    }
}

/// What comes before the first space (all of `s` if it has none): the first
/// piece of `splitn(2, ' ')`.
pub open spec fn before_space(s: Seq<char>) -> Seq<char> {
    s.take(space_index(s) as int)
}

/// What comes after the first space (empty if there is none): the second
/// piece of `splitn(2, ' ')`, or `""` where there is no second piece.
pub open spec fn after_space(s: Seq<char>) -> Seq<char> {
    if space_index(s) < s.len() {
        s.skip(space_index(s) + 1int)
    } else {
        Seq::empty()
    }
}

/// The position of the first white space character in `s` ([`is_white_space`]),
/// or its length if it has none.
pub open spec fn white_space_index(s: Seq<char>) -> nat
    decreases s.len(),
{
    if s.len() == 0 {
        0
    } else if is_white_space(s[0]) {
        0
    } else {
        1 + white_space_index(s.drop_first())
    }
}

/// The first word of `s`: what comes before its first white space character
/// (all of `s` if it has none).
pub open spec fn first_word(s: Seq<char>) -> Seq<char> {
    s.take(white_space_index(s) as int)
}

/// What follows the first white space character of `s` (empty if there is none).
pub open spec fn after_first_word(s: Seq<char>) -> Seq<char> {
    if white_space_index(s) < s.len() {
        s.skip(white_space_index(s) + 1int)
    } else {
        Seq::empty()
    }
}

/// White space as `char::is_whitespace` defines it: the characters with the
/// Unicode property `White_Space`.
pub open spec fn is_white_space(c: char) -> bool {
    ||| c == '\t'
    ||| c == '\n'
    ||| c == '\u{0B}'
    ||| c == '\u{0C}'
    ||| c == '\r'
    ||| c == ' '
    ||| c == '\u{85}'
    ||| c == '\u{A0}'
    ||| c == '\u{1680}'
    ||| ('\u{2000}' <= c && c <= '\u{200A}')
    ||| c == '\u{2028}'
    ||| c == '\u{2029}'
    ||| c == '\u{202F}'
    ||| c == '\u{205F}'
    ||| c == '\u{3000}'
}

/// `s` without its leading white space.
pub open spec fn trim_start(s: Seq<char>) -> Seq<char>
    decreases s.len(),
{
    if s.len() > 0 && is_white_space(s[0]) {
        trim_start(s.drop_first())
    } else {
        s
    }
}

/// `s` without its trailing white space.
pub open spec fn trim_end(s: Seq<char>) -> Seq<char>
    decreases s.len(),
{
    if s.len() > 0 && is_white_space(s.last()) {
        trim_end(s.drop_last())
    } else {
        s
    }
}

/// `s` without leading and trailing white space, as `str::trim` gives it.
pub open spec fn trim(s: Seq<char>) -> Seq<char> {
    trim_end(trim_start(s))
}

/// Whether `c` is one of the ASCII digits `0` to `9`.
pub open spec fn is_digit(c: char) -> bool {
    '0' <= c && c <= '9'
}

/// The value of an ASCII digit.
pub open spec fn digit_value(c: char) -> nat {
    if c == '0' {
        0
    } else if c == '1' {
        1
    } else if c == '2' {
        2
    } else if c == '3' {
        3
    } else if c == '4' {
        4
    } else if c == '5' {
        5
    } else if c == '6' {
        6
    } else if c == '7' {
        7
    } else if c == '8' {
        8
    } else {
        9
    }
}

/// The value of a string of ASCII digits, read in base 10.
pub open spec fn digits_value(s: Seq<char>) -> nat
    decreases s.len(),
{
    if s.len() == 0 {
        0
    } else {
        digits_value(s.drop_last()) * 10 + digit_value(s.last())
    }
}

/// `s` without one leading `+`, if it has one.
pub open spec fn without_plus(s: Seq<char>) -> Seq<char> {
    if s.len() > 0 && s[0] == '+' {
        s.drop_first()
    } else {
        s
    }
}

/// Whether every character of `s` is an ASCII digit.
pub open spec fn all_digits(s: Seq<char>) -> bool {
    forall|i: int| 0 <= i < s.len() ==> is_digit(#[trigger] s[i])
}

/// What `str::parse::<u32>` gives: an optional `+`, then one or more ASCII
/// digits whose value fits in a `u32`; anything else is refused.
pub open spec fn parse_u32(s: Seq<char>) -> Option<u32> {
    let digits = without_plus(s);
    if digits.len() == 0 || !all_digits(digits) {
        None
    } else if digits_value(digits) > u32::MAX {
        None
    } else {
        Some(digits_value(digits) as u32)
    }
}

fn digit_of(c: char) -> (d: u64)
    ensures
        d == digit_value(c),
{
    if c == '0' {
        0
    } else if c == '1' {
        1
    } else if c == '2' {
        2
    } else if c == '3' {
        3
    } else if c == '4' {
        4
    } else if c == '5' {
        5
    } else if c == '6' {
        6
    } else if c == '7' {
        7
    } else if c == '8' {
        8
    } else {
        9
    }
}

proof fn lemma_digits_value_grows(s: Seq<char>, k: int)
    requires
        0 <= k <= s.len(),
    ensures
        digits_value(s.take(k)) <= digits_value(s),
    decreases s.len() - k,
{
    if k < s.len() {
        lemma_digits_value_grows(s.drop_last(), k);
        assert(s.drop_last().take(k) =~= s.take(k));
    } else {
        assert(s.take(k) =~= s);
    }
}

/// Reads a `u32` as `str::parse::<u32>` does ([`parse_u32`]).
pub fn parse_u32_chars(v: &Vec<char>) -> (r: Option<u32>)
    ensures
        r == parse_u32(v@),
{
    let start: usize = if v.len() > 0 && v[0] == '+' {
        1
    } else {
        0
    };
    let ghost digits = v@.skip(start as int);
    proof {
        if start == 1 {
            assert(digits =~= v@.drop_first());
        } else {
            assert(digits =~= v@);
        }
        assert(digits == without_plus(v@));
    }
    if start == v.len() {
        assert(digits.len() == 0);
        return None;
    }
    let mut i: usize = start;
    while i < v.len()
        invariant
            start <= i <= v@.len(),
            digits == v@.skip(start as int),
            digits == without_plus(v@),
            forall|k: int| 0 <= k < i - start ==> is_digit(#[trigger] digits[k]),
        decreases v.len() - i,
    {
        if !('0' <= v[i] && v[i] <= '9') {
            assert(!is_digit(digits[i - start]));
            assert(!all_digits(digits));
            return None;
        }
        i = i + 1;
    }
    let mut value: u64 = 0;
    let mut j: usize = start;
    while j < v.len()
        invariant
            start <= j <= v@.len(),
            digits == v@.skip(start as int),
            digits == without_plus(v@),
            forall|k: int| 0 <= k < digits.len() ==> is_digit(#[trigger] digits[k]),
            value == digits_value(digits.take(j - start)),
            value <= u32::MAX,
        decreases v.len() - j,
    {
        assert(digits.take(j + 1 - start).drop_last() =~= digits.take(j - start));
        assert(digits.take(j + 1 - start).last() == v@[j as int]);
        value = value * 10 + digit_of(v[j]);
        j = j + 1;
        if value > 4294967295 {
            proof {
                lemma_digits_value_grows(digits, j - start);
            }
            return None;
        }
    }
    assert(digits.take(j - start) =~= digits);
    Some(value as u32)
}

/// The position of the first space in `v`, or its length.
pub fn find_space(v: &Vec<char>) -> (r: usize)
    ensures
        r == space_index(v@),
        r <= v@.len(),
{
    assert(v@.skip(0) =~= v@);
    let mut i: usize = 0;
    while i < v.len() && v[i] != ' '
        invariant
            i <= v@.len(),
            space_index(v@) == i + space_index(v@.skip(i as int)),
        decreases v.len() - i,
    {
        assert(v@.skip(i as int).drop_first() =~= v@.skip(i + 1));
        i = i + 1;
    }
    proof {
        if i < v@.len() {
            assert(v@.skip(i as int)[0] == ' ');
        } else {
            assert(v@.skip(i as int).len() == 0);
        }
    }
    i
}

/// The characters of `v` from `start` up to `end`.
pub fn slice_chars(v: &Vec<char>, start: usize, end: usize) -> (r: Vec<char>)
    requires
        start <= end <= v@.len(),
    ensures
        r@ == v@.subrange(start as int, end as int),
{
    let mut r: Vec<char> = Vec::new();
    let mut i: usize = start;
    while i < end
        invariant
            start <= i <= end,
            end <= v@.len(),
            r@ == v@.subrange(start as int, i as int),
        decreases end - i,
    {
        r.push(v[i]);
        i = i + 1;
        assert(r@ =~= v@.subrange(start as int, i as int));
    }
    r
}

/// The two pieces of `splitn(2, ' ')` on `v`, the second empty where there
/// is no space.
pub fn split_at_space(v: &Vec<char>) -> (r: (Vec<char>, Vec<char>))
    ensures
        r.0@ == before_space(v@),
        r.1@ == after_space(v@),
{
    let p = find_space(v);
    let head = slice_chars(v, 0, p);
    let tail = if p < v.len() {
        slice_chars(v, p + 1, v.len())
    } else {
        Vec::new()
    };
    proof {
        assert(head@ =~= before_space(v@));
        assert(tail@ =~= after_space(v@));
    }
    (head, tail)
}

/// The position of the first white space character in `v`, or its length.
pub fn find_white_space(v: &Vec<char>) -> (r: usize)
    ensures
        r == white_space_index(v@),
        r <= v@.len(),
{
    assert(v@.skip(0) =~= v@);
    let mut i: usize = 0;
    while i < v.len() && !white_space(v[i])
        invariant
            i <= v@.len(),
            white_space_index(v@) == i + white_space_index(v@.skip(i as int)),
        decreases v.len() - i,
    {
        assert(v@.skip(i as int).drop_first() =~= v@.skip(i + 1));
        i = i + 1;
    }
    proof {
        if i < v@.len() {
            assert(is_white_space(v@.skip(i as int)[0]));
        } else {
            assert(v@.skip(i as int).len() == 0);
        }
    }
    i
}

/// The first word of `v` and what follows the white space character after it
/// ([`first_word`], [`after_first_word`]).
pub fn split_first_word(v: &Vec<char>) -> (r: (Vec<char>, Vec<char>))
    ensures
        r.0@ == first_word(v@),
        r.1@ == after_first_word(v@),
{
    let p = find_white_space(v);
    let head = slice_chars(v, 0, p);
    let tail = if p < v.len() {
        slice_chars(v, p + 1, v.len())
    } else {
        Vec::new()
    };
    proof {
        assert(head@ =~= first_word(v@));
        assert(tail@ =~= after_first_word(v@));
    }
    (head, tail)
}

/// Whether `c` is white space ([`is_white_space`]).
pub fn white_space(c: char) -> (r: bool)
    ensures
        r == is_white_space(c),
{
    c == '\t' || c == '\n' || c == '\u{0B}' || c == '\u{0C}' || c == '\r' || c == ' ' || c == '\u{85}'
        || c == '\u{A0}' || c == '\u{1680}' || ('\u{2000}' <= c && c <= '\u{200A}') || c == '\u{2028}'
        || c == '\u{2029}' || c == '\u{202F}' || c == '\u{205F}' || c == '\u{3000}'
}

proof fn lemma_trim_end_take(s: Seq<char>, j: int)
    requires
        0 <= j <= s.len(),
        forall|k: int| j <= k < s.len() ==> is_white_space(#[trigger] s[k]),
    ensures
        trim_end(s) == trim_end(s.take(j)),
    decreases s.len() - j,
{
    if j < s.len() {
        assert(s.drop_last() =~= s.take(s.len() - 1));
        assert(is_white_space(s[s.len() - 1]));
        lemma_trim_end_take(s.drop_last(), j);
        assert(s.drop_last().take(j) =~= s.take(j));
    } else {
        assert(s.take(j) =~= s);
    }
}

/// `v` without leading and trailing white space ([`trim`]).
pub fn trim_chars(v: &Vec<char>) -> (r: Vec<char>)
    ensures
        r@ == trim(v@),
{
    assert(v@.skip(0) =~= v@);
    let mut i: usize = 0;
    while i < v.len() && white_space(v[i])
        invariant
            i <= v@.len(),
            trim_start(v@) == trim_start(v@.skip(i as int)),
        decreases v.len() - i,
    {
        assert(v@.skip(i as int).drop_first() =~= v@.skip(i + 1));
        i = i + 1;
    }
    let ghost rest = v@.skip(i as int);
    proof {
        assert(v@.skip(0) =~= v@);
        if i < v@.len() {
            assert(rest[0] == v@[i as int]);
        }
        assert(trim_start(rest) == rest);
    }
    let mut j: usize = v.len();
    while j > i && white_space(v[j - 1])
        invariant
            i <= j <= v@.len(),
            rest == v@.skip(i as int),
            forall|k: int| j - i <= k < rest.len() ==> is_white_space(#[trigger] rest[k]),
        decreases j,
    {
        j = j - 1;
    }
    proof {
        lemma_trim_end_take(rest, j - i);
        let t = rest.take(j - i);
        if t.len() > 0 {
            assert(t.last() == v@[j - 1]);
        }
        assert(trim_end(t) == t);
        assert(t =~= v@.subrange(i as int, j as int));
    }
    slice_chars(v, i, j)
}

} // verus!

verus! {

/// `s` without leading and trailing white space ([`trim`]), as a new string.
pub fn trim_text(s: &str) -> (r: String)
    ensures
        r@ == trim(s@),
{
    let v = crate::text::chars_of(s);
    crate::text::string_from_chars(&trim_chars(&v))
}

} // verus!
