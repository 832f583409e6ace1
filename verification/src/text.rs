//! Character-level helpers on text: suffixes, substrings, digit runs and
//! decimal numbers.
//!
//! Every contract is stated over the sequence of characters of a string
//! (its view), never over its bytes.

use vstd::prelude::*;

verus! {

/// Whether `c` is one of the ten ASCII decimal digits.
pub open spec fn is_digit(c: char) -> bool {
    '0' <= c && c <= '9'
}

/// The value of an ASCII decimal digit.
pub open spec fn digit_value(c: char) -> nat
    recommends
        is_digit(c),
{
    (c as u32 - '0' as u32) as nat
}

/// Whether every character of `s` is an ASCII decimal digit.
pub open spec fn all_digits(s: Seq<char>) -> bool {
    forall|i: int| 0 <= i < s.len() ==> is_digit(#[trigger] s[i])
}

/// The number that a sequence of decimal digits writes, most significant
/// digit first. The empty sequence writes zero.
pub open spec fn decimal_value(digits: Seq<char>) -> nat
    decreases digits.len(),
{
    if digits.len() == 0 {
        0
    } else {
        decimal_value(digits.drop_last()) * 10 + digit_value(digits.last())
    }
}

/// The digits of an unsigned decimal literal: the text itself, without one
/// leading plus sign where there is one.
pub open spec fn unsigned_digits(s: Seq<char>) -> Seq<char> {
    if s.len() > 0 && s[0] == '+' {
        s.drop_first()
    } else {
        s
    }
}

/// What reading `s` as an unsigned 16-bit decimal number gives: the text is
/// an optional plus sign followed by at least one digit and nothing else,
/// and the number written fits in 16 bits. Leading zeros are allowed.
pub open spec fn parse_u16_spec(s: Seq<char>) -> Option<u16> {
    let digits = unsigned_digits(s);
    if digits.len() > 0 && all_digits(digits) && decimal_value(digits) <= u16::MAX {
        Some(decimal_value(digits) as u16)
    } else {
        None
    }
}

/// The longest prefix of `s` made of decimal digits only.
pub open spec fn leading_digits(s: Seq<char>) -> Seq<char>
    decreases s.len(),
{
    if s.len() > 0 && is_digit(s[0]) {
        seq![s[0]] + leading_digits(s.drop_first())
    } else {
        Seq::empty()
    }
}

/// The first maximal run of decimal digits in `s`, if `s` holds a digit at
/// all.
pub open spec fn first_digit_run(s: Seq<char>) -> Option<Seq<char>>
    decreases s.len(),
{
    if s.len() == 0 {
        None
    } else if is_digit(s[0]) {
        Some(leading_digits(s))
    } else {
        first_digit_run(s.drop_first())
    }
}

/// Whether `s` holds a decimal digit somewhere.
pub open spec fn has_digit(s: Seq<char>) -> bool {
    exists|i: int| 0 <= i < s.len() && is_digit(#[trigger] s[i])
}

/// Whether `pat` stands in `s` at position `i`.
pub open spec fn occurs_at(s: Seq<char>, pat: Seq<char>, i: int) -> bool {
    0 <= i && i + pat.len() <= s.len() && s.subrange(i, i + pat.len()) == pat
}

/// Whether `pat` stands somewhere in `s` as a contiguous piece.
pub open spec fn contains_text(s: Seq<char>, pat: Seq<char>) -> bool {
    exists|i: int| occurs_at(s, pat, i)
}

/// Whether `s` ends with `suffix`.
pub open spec fn ends_with_text(s: Seq<char>, suffix: Seq<char>) -> bool {
    suffix.is_suffix_of(s)
}

/// Tests a character for being an ASCII decimal digit.
pub fn char_is_digit(c: char) -> (r: bool)
    ensures
        r == is_digit(c),
{
    '0' <= c && c <= '9'
}

/// Collects the characters of a string slice, in order.
pub fn chars_of(s: &str) -> (v: Vec<char>)
    ensures
        v@ == s@,
{
    let mut v: Vec<char> = Vec::new();
    for c in it: s.chars()
        invariant
            it.seq() == s@,
            v@ == s@.take(it.index() as int),
    {
        v.push(c);
    }
    v
}

/// Compares the piece of `s` that starts at `start` with `pat`.
fn matches_at(s: &[char], pat: &[char], start: usize) -> (r: bool)
    requires
        start + pat@.len() <= s@.len(),
    ensures
        r == occurs_at(s@, pat@, start as int),
{
    let len: usize = s.len();
    let mut k: usize = 0;
    while k < pat.len()
        invariant
            k <= pat@.len(),
            start + pat@.len() <= s@.len(),
            s@.len() == len,
            forall|j: int| 0 <= j < k ==> s@[start + j] == pat@[j],
        decreases pat@.len() - k,
    {
        if s[start + k] != pat[k] {
            proof {
                let piece = s@.subrange(start as int, start + pat@.len());
                assert(piece[k as int] == s@[start + k]);
            }
            return false;
        }
        k = k + 1;
    }
    proof {
        let piece = s@.subrange(start as int, start + pat@.len());
        assert(piece =~= pat@);
    }
    true
}

/// Tests whether `s` ends with `suffix`.
pub fn ends_with(s: &[char], suffix: &[char]) -> (r: bool)
    ensures
        r == ends_with_text(s@, suffix@),
{
    if suffix.len() > s.len() {
        return false;
    }
    matches_at(s, suffix, s.len() - suffix.len())
}

/// Tests whether `pat` stands somewhere in `s`.
pub fn contains(s: &[char], pat: &[char]) -> (r: bool)
    ensures
        r == contains_text(s@, pat@),
{
    if pat.len() > s.len() {
        assert forall|i: int| !occurs_at(s@, pat@, i) by {}
        return false;
    }
    let last: usize = s.len() - pat.len();
    let mut i: usize = 0;
    while i < last
        invariant
            last + pat@.len() == s@.len(),
            i <= last,
            forall|j: int| 0 <= j < i ==> !occurs_at(s@, pat@, j),
        decreases last - i,
    {
        if matches_at(s, pat, i) {
            return true;
        }
        i = i + 1;
    }
    matches_at(s, pat, last)
}

/// Tests whether the string `s` ends with the string `suffix`.
pub fn str_ends_with(s: &str, suffix: &str) -> (r: bool)
    ensures
        r == ends_with_text(s@, suffix@),
{
    let text = chars_of(s);
    let tail = chars_of(suffix);
    ends_with(text.as_slice(), tail.as_slice())
}

/// Tests whether the string `pat` stands somewhere in the string `s`.
pub fn str_contains(s: &str, pat: &str) -> (r: bool)
    ensures
        r == contains_text(s@, pat@),
{
    let text = chars_of(s);
    let piece = chars_of(pat);
    contains(text.as_slice(), piece.as_slice())
}

/// Tests whether two strings hold the same characters.
pub fn str_equal(a: &str, b: &str) -> (r: bool)
    ensures
        r == (a@ == b@),
{
    let left = chars_of(a);
    let right = chars_of(b);
    if left.len() != right.len() {
        return false;
    }
    let r = matches_at(left.as_slice(), right.as_slice(), 0);
    proof {
        assert(left@.subrange(0, left@.len() as int) =~= left@);
    }
    r
}

/// A longer digit sequence writes no smaller a number than its prefix.
pub proof fn lemma_decimal_value_monotone(digits: Seq<char>, n: int)
    requires
        0 <= n <= digits.len(),
    ensures
        decimal_value(digits.take(n)) <= decimal_value(digits),
    decreases digits.len() - n,
{
    if n == digits.len() {
        assert(digits.take(n) =~= digits);
    } else {
        lemma_decimal_value_monotone(digits, n + 1);
        assert(digits.take(n + 1).drop_last() =~= digits.take(n));
    }
}

/// Reads decimal digits as an unsigned 16-bit number.
fn digits_to_u16(digits: &[char]) -> (r: Option<u16>)
    ensures
        r == if digits@.len() > 0 && all_digits(digits@) && decimal_value(digits@) <= u16::MAX {
            Some(decimal_value(digits@) as u16)
        } else {
            None::<u16>
        },
{
    if digits.len() == 0 {
        return None;
    }
    let mut acc: u32 = 0;
    let mut i: usize = 0;
    while i < digits.len()
        invariant
            i <= digits@.len(),
            all_digits(digits@.take(i as int)),
            acc == decimal_value(digits@.take(i as int)),
            acc <= u16::MAX,
        decreases digits@.len() - i,
    {
        let c = digits[i];
        proof {
            assert(digits@.take(i + 1).drop_last() =~= digits@.take(i as int));
            assert(digits@.take(i + 1).last() == c);
        }
        if !char_is_digit(c) {
            assert(!all_digits(digits@)) by {
                assert(!is_digit(digits@[i as int]));
            }
            return None;
        }
        let d: u32 = c as u32 - '0' as u32;
        let next: u32 = acc * 10 + d;
        if next > 65535 {
            proof {
                lemma_decimal_value_monotone(digits@, i + 1);
            }
            return None;
        }
        proof {
            assert forall|j: int| 0 <= j < i + 1 implies is_digit(
                #[trigger] digits@.take(i + 1)[j],
            ) by {
                if j < i {
                    assert(digits@.take(i as int)[j] == digits@.take(i + 1)[j]);
                }
            }
        }
        acc = next;
        i = i + 1;
    }
    proof {
        assert(digits@.take(i as int) =~= digits@);
    }
    Some(acc as u16)
}

/// Reads `s` as an unsigned 16-bit decimal number: an optional plus sign,
/// then at least one digit and nothing else. `None` where the text is not
/// of that form or the number does not fit.
pub fn parse_u16(s: &[char]) -> (r: Option<u16>)
    ensures
        r == parse_u16_spec(s@),
{
    if s.len() > 0 && s[0] == '+' {
        let digits = vstd::slice::slice_subrange(s, 1, s.len());
        proof {
            assert(digits@ =~= s@.drop_first());
        }
        digits_to_u16(digits)
    } else {
        digits_to_u16(s)
    }
}

/// Reads the string `s` as an unsigned 16-bit decimal number.
pub fn str_parse_u16(s: &str) -> (r: Option<u16>)
    ensures
        r == parse_u16_spec(s@),
{
    let text = chars_of(s);
    parse_u16(text.as_slice())
}

} // verus!
