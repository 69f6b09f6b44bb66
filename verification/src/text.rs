//! Character and string helpers shared by the parser, the evaluator and
//! the builtin command cores: conversion between `&str` and `Vec<char>`,
//! whitespace classification and trimming, and decimal conversions.

use vstd::prelude::*;

verus! {

/// The quote characters of the grammar: a quoted region is opened and
/// closed by the same one of these.
pub open spec fn spec_is_quote(c: char) -> bool {
    c == '"' || c == '\''
}

pub fn is_quote_char(c: char) -> (r: bool)
    ensures
        r == spec_is_quote(c),
{
    c == '"' || c == '\''
}

/// The characters with the Unicode `White_Space` property, which is what
/// `str::trim` and blank-line detection go by.
pub open spec fn spec_is_whitespace(c: char) -> bool {
    ||| c == ' '
    ||| c == '\t'
    ||| c == '\n'
    ||| c == '\u{0b}'
    ||| c == '\u{0c}'
    ||| c == '\r'
    ||| c == '\u{85}'
    ||| c == '\u{a0}'
    ||| c == '\u{1680}'
    ||| ('\u{2000}' <= c && c <= '\u{200a}')
    ||| c == '\u{2028}'
    ||| c == '\u{2029}'
    ||| c == '\u{202f}'
    ||| c == '\u{205f}'
    ||| c == '\u{3000}'
}

pub fn is_whitespace_char(c: char) -> (r: bool)
    ensures
        r == spec_is_whitespace(c),
{
    c == ' ' || c == '\t' || c == '\n' || c == '\u{0b}' || c == '\u{0c}' || c == '\r'
        || c == '\u{85}' || c == '\u{a0}' || c == '\u{1680}'
        || ('\u{2000}' <= c && c <= '\u{200a}') || c == '\u{2028}' || c == '\u{2029}'
        || c == '\u{202f}' || c == '\u{205f}' || c == '\u{3000}'
}

/// Copies the characters of a string slice into a vector.
pub fn to_char_vec(s: &str) -> (r: Vec<char>)
    ensures
        r@ == s@,
{
    let n = s.unicode_len();
    let mut r: Vec<char> = Vec::new();
    let mut i: usize = 0;
    while i < n
        invariant
            n == s@.len(),
            i <= n,
            r@ == s@.subrange(0, i as int),
        decreases n - i,
    {
        r.push(s.get_char(i));
        i = i + 1;
        proof {
            assert(r@ =~= s@.subrange(0, i as int));
        }
    }
    proof {
        assert(r@ =~= s@);
    }
    r
}

/// Relies on `String::push`: appends one character at the end of the string.
#[verifier::external_body]
pub fn push_char(s: &mut String, c: char)
    ensures
        final(s)@ == old(s)@.push(c),
{
    s.push(c);
}

/// Builds a `String` out of a vector of characters.
pub fn string_from_chars(v: &Vec<char>) -> (r: String)
    ensures
        r@ == v@,
{
    let mut r = String::new();
    let mut i: usize = 0;
    while i < v.len()
        invariant
            i <= v@.len(),
            r@ == v@.subrange(0, i as int),
        decreases v@.len() - i,
    {
        push_char(&mut r, v[i]);
        i = i + 1;
        proof {
            assert(r@ =~= v@.subrange(0, i as int));
        }
    }
    proof {
        assert(r@ =~= v@);
    }
    r
}

/// Character-wise equality of two string slices.
pub fn str_eq(a: &str, b: &str) -> (r: bool)
    ensures
        r == (a@ == b@),
{
    let na = a.unicode_len();
    let nb = b.unicode_len();
    if na != nb {
        return false;
    }
    let mut i: usize = 0;
    while i < na
        invariant
            na == a@.len(),
            na == b@.len(),
            i <= na,
            forall|j: int| 0 <= j < i ==> a@[j] == b@[j],
        decreases na - i,
    {
        if a.get_char(i) != b.get_char(i) {
            return false;
        }
        i = i + 1;
    }
    proof {
        assert(a@ =~= b@);
    }
    true
}


// ---------------------------------------------------------------------------
// Whitespace prefixes, suffixes, trimming
// ---------------------------------------------------------------------------

/// The number of whitespace characters at the front of `s`.
pub open spec fn spec_leading_ws(s: Seq<char>) -> int
    decreases s,
{
    if s.len() == 0 || !spec_is_whitespace(s[0]) {
        0
    } else {
        1 + spec_leading_ws(s.drop_first())
    }
}

/// The number of whitespace characters at the back of `s`.
pub open spec fn spec_trailing_ws(s: Seq<char>) -> int
    decreases s,
{
    if s.len() == 0 || !spec_is_whitespace(s[s.len() - 1]) {
        0
    } else {
        1 + spec_trailing_ws(s.drop_last())
    }
}

pub open spec fn spec_trim_start(s: Seq<char>) -> Seq<char> {
    s.subrange(spec_leading_ws(s), s.len() as int)
}

pub open spec fn spec_trim_end(s: Seq<char>) -> Seq<char> {
    s.subrange(0, s.len() - spec_trailing_ws(s))
}

/// `str::trim` on the character sequence: both ends stripped of whitespace.
pub open spec fn spec_trim(s: Seq<char>) -> Seq<char> {
    spec_trim_end(spec_trim_start(s))
}

/// A string is blank when it holds nothing but whitespace.
pub open spec fn spec_is_blank(s: Seq<char>) -> bool {
    forall|j: int| 0 <= j < s.len() ==> spec_is_whitespace(s[j])
}

pub proof fn lemma_leading_ws(s: Seq<char>)
    ensures
        0 <= spec_leading_ws(s) <= s.len(),
        forall|j: int| 0 <= j < spec_leading_ws(s) ==> spec_is_whitespace(s[j]),
        spec_leading_ws(s) < s.len() ==> !spec_is_whitespace(s[spec_leading_ws(s)]),
    decreases s,
{
    if s.len() > 0 && spec_is_whitespace(s[0]) {
        lemma_leading_ws(s.drop_first());
        assert forall|j: int| 0 <= j < spec_leading_ws(s) implies spec_is_whitespace(s[j]) by {
            if j > 0 {
                assert(spec_is_whitespace(s.drop_first()[j - 1]));
            }
        }
    }
}

pub proof fn lemma_trailing_ws(s: Seq<char>)
    ensures
        0 <= spec_trailing_ws(s) <= s.len(),
        forall|j: int| s.len() - spec_trailing_ws(s) <= j < s.len() ==> spec_is_whitespace(s[j]),
        spec_trailing_ws(s) < s.len() ==> !spec_is_whitespace(
            s[s.len() - spec_trailing_ws(s) - 1],
        ),
    decreases s,
{
    if s.len() > 0 && spec_is_whitespace(s[s.len() - 1]) {
        lemma_trailing_ws(s.drop_last());
        assert forall|j: int| s.len() - spec_trailing_ws(s) <= j < s.len() implies
            spec_is_whitespace(s[j]) by {
            if j < s.len() - 1 {
                assert(spec_is_whitespace(s.drop_last()[j]));
            }
        }
    }
}

/// Counts the whitespace characters at the front of `v`.
pub fn leading_ws(v: &Vec<char>) -> (r: usize)
    ensures
        r == spec_leading_ws(v@),
{
    let mut i: usize = 0;
    while i < v.len() && is_whitespace_char(v[i])
        invariant
            i <= v@.len(),
            forall|j: int| 0 <= j < i ==> spec_is_whitespace(v@[j]),
        decreases v@.len() - i,
    {
        i = i + 1;
    }
    proof {
        lemma_leading_ws(v@);
    }
    i
}

/// Counts the whitespace characters at the back of `v`.
pub fn trailing_ws(v: &Vec<char>) -> (r: usize)
    ensures
        r == spec_trailing_ws(v@),
{
    let n = v.len();
    let mut i: usize = 0;
    while i < n && is_whitespace_char(v[n - i - 1])
        invariant
            n == v@.len(),
            i <= n,
            forall|j: int| n - i <= j < n ==> spec_is_whitespace(v@[j]),
        decreases n - i,
    {
        i = i + 1;
    }
    proof {
        lemma_trailing_ws(v@);
    }
    i
}

/// Copies the range `[from, to)` of `v`.
pub fn subvec(v: &Vec<char>, from: usize, to: usize) -> (r: Vec<char>)
    requires
        from <= to <= v@.len(),
    ensures
        r@ == v@.subrange(from as int, to as int),
{
    let mut r: Vec<char> = Vec::new();
    let mut i: usize = from;
    while i < to
        invariant
            from <= i <= to <= v@.len(),
            r@ == v@.subrange(from as int, i as int),
        decreases to - i,
    {
        r.push(v[i]);
        i = i + 1;
        proof {
            assert(r@ =~= v@.subrange(from as int, i as int));
        }
    }
    r
}

/// Strips whitespace from both ends, as `str::trim` does.
pub fn trim_chars(v: &Vec<char>) -> (r: Vec<char>)
    ensures
        r@ == spec_trim(v@),
{
    let lead = leading_ws(v);
    proof {
        lemma_leading_ws(v@);
    }
    let a = subvec(v, lead, v.len());
    let trail = trailing_ws(&a);
    proof {
        lemma_trailing_ws(a@);
    }
    subvec(&a, 0, a.len() - trail)
}

/// Strips trailing whitespace only.
pub fn trim_end_chars(v: &Vec<char>) -> (r: Vec<char>)
    ensures
        r@ == spec_trim_end(v@),
{
    let trail = trailing_ws(v);
    proof {
        lemma_trailing_ws(v@);
    }
    subvec(v, 0, v.len() - trail)
}

/// Whether `v` holds nothing but whitespace.
pub fn is_blank_chars(v: &Vec<char>) -> (r: bool)
    ensures
        r == spec_is_blank(v@),
{
    let mut i: usize = 0;
    while i < v.len()
        invariant
            i <= v@.len(),
            forall|j: int| 0 <= j < i ==> spec_is_whitespace(v@[j]),
        decreases v@.len() - i,
    {
        if !is_whitespace_char(v[i]) {
            return false;
        }
        i = i + 1;
    }
    true
}

// ---------------------------------------------------------------------------
// Decimal numbers
// ---------------------------------------------------------------------------

pub open spec fn spec_is_digit(c: char) -> bool {
    '0' <= c && c <= '9'
}

pub open spec fn spec_digit_val(c: char) -> int {
    c as int - '0' as int
}

/// The value of a run of decimal digits; meaningful when `spec_all_digits`
/// holds of the sequence.
pub open spec fn spec_digits_val(s: Seq<char>) -> int
    decreases s,
{
    if s.len() == 0 {
        0
    } else {
        spec_digits_val(s.drop_last()) * 10 + spec_digit_val(s[s.len() - 1])
    }
}

pub open spec fn spec_all_digits(s: Seq<char>) -> bool {
    s.len() > 0 && forall|j: int| 0 <= j < s.len() ==> spec_is_digit(s[j])
}

/// What `str::parse::<i32>` accepts: an optional sign, then at least one
/// digit, with the value in range.
pub open spec fn spec_parse_int(s: Seq<char>) -> Option<int> {
    if s.len() > 0 && (s[0] == '+' || s[0] == '-') {
        let rest = s.drop_first();
        if spec_all_digits(rest) {
            Some(if s[0] == '-' { -spec_digits_val(rest) } else { spec_digits_val(rest) })
        } else {
            None
        }
    } else if spec_all_digits(s) {
        Some(spec_digits_val(s))
    } else {
        None
    }
}

pub proof fn lemma_digits_val_bounds(s: Seq<char>)
    requires
        forall|j: int| 0 <= j < s.len() ==> spec_is_digit(s[j]),
    ensures
        spec_digits_val(s) >= 0,
    decreases s,
{
    if s.len() > 0 {
        lemma_digits_val_bounds(s.drop_last());
    }
}

/// The unsigned value of the digit run `s[from..to)`.  The result is exact
/// whenever the value is at most `2^63`; a larger value comes back as some
/// number above `2^63`.
fn digits_val_capped(s: &Vec<char>, from: usize, to: usize) -> (r: u64)
    requires
        from <= to <= s@.len(),
        forall|j: int| from <= j < to ==> spec_is_digit(s@[j]),
    ensures
        spec_digits_val(s@.subrange(from as int, to as int)) <= 0x8000_0000_0000_0000 ==> r
            == spec_digits_val(s@.subrange(from as int, to as int)),
        spec_digits_val(s@.subrange(from as int, to as int)) > 0x8000_0000_0000_0000 ==> r
            > 0x8000_0000_0000_0000u64,
{
    let mut acc: u64 = 0;
    let mut i: usize = from;
    while i < to
        invariant
            from <= i <= to <= s@.len(),
            forall|j: int| from <= j < to ==> spec_is_digit(s@[j]),
            spec_digits_val(s@.subrange(from as int, i as int)) <= 0x8000_0000_0000_0000 ==> acc
                == spec_digits_val(s@.subrange(from as int, i as int)),
            spec_digits_val(s@.subrange(from as int, i as int)) > 0x8000_0000_0000_0000 ==> acc
                > 0x8000_0000_0000_0000u64,
        decreases to - i,
    {
        let ghost pre = s@.subrange(from as int, i as int);
        let ghost preval = spec_digits_val(pre);
        let c = s[i];
        let d: u64 = (c as u32 as u64) - ('0' as u32 as u64);
        proof {
            assert(spec_is_digit(s@[i as int]));
            assert(d == spec_digit_val(s@[i as int]));
            assert(0 <= d <= 9);
            assert(s@.subrange(from as int, i + 1 as int).drop_last() =~= pre);
            assert(s@.subrange(from as int, i + 1 as int)[i - from] == s@[i as int]);
            lemma_digits_val_bounds(pre);
            assert(spec_digits_val(s@.subrange(from as int, i + 1 as int)) == preval * 10
                + spec_digit_val(s@[i as int]));
        }
        if acc > 0x1999_9999_9999_9998u64 {
            // One more digit pushes the value past 2^63 for good.
            proof {
                if preval <= 0x8000_0000_0000_0000 {
                    assert(preval == acc);
                    assert(preval * 10 + d > 0x8000_0000_0000_0000) by (nonlinear_arith)
                        requires
                            preval > 0x1999_9999_9999_9998u64,
                            d >= 0,
                    ;
                } else {
                    assert(preval * 10 + d > 0x8000_0000_0000_0000) by (nonlinear_arith)
                        requires
                            preval > 0x8000_0000_0000_0000,
                            d >= 0,
                    ;
                }
            }
            acc = 0xFFFF_FFFF_FFFF_FFFFu64;
        } else {
            proof {
                if preval > 0x8000_0000_0000_0000 {
                    // Then the invariant would force acc above 2^63, past the
                    // branch bound.
                    assert(false);
                }
            }
            acc = acc * 10 + d;
        }
        i = i + 1;
    }
    proof {
        assert(s@.subrange(from as int, i as int) =~= s@.subrange(from as int, to as int));
    }
    acc
}

/// Checks that `s[from..to)` is a nonempty run of digits.
fn all_digits_range(s: &Vec<char>, from: usize, to: usize) -> (r: bool)
    requires
        from <= to <= s@.len(),
    ensures
        r == spec_all_digits(s@.subrange(from as int, to as int)),
{
    if from == to {
        proof {
            assert(s@.subrange(from as int, to as int).len() == 0);
        }
        return false;
    }
    let mut i: usize = from;
    while i < to
        invariant
            from <= i <= to <= s@.len(),
            forall|j: int| from <= j < i ==> spec_is_digit(s@[j]),
        decreases to - i,
    {
        let c = s[i];
        if !('0' <= c && c <= '9') {
            proof {
                assert(!spec_is_digit(s@.subrange(from as int, to as int)[i - from]));
            }
            return false;
        }
        i = i + 1;
    }
    proof {
        assert forall|j: int| 0 <= j < to - from implies spec_is_digit(
            s@.subrange(from as int, to as int)[j],
        ) by {
            assert(spec_is_digit(s@[from + j]));
        }
    }
    true
}

/// Parses a signed decimal integer with the range of `i64`, accepting an
/// optional leading `+` or `-`, as `str::parse::<i64>` does.
pub fn parse_i64_chars(s: &Vec<char>) -> (r: Option<i64>)
    ensures
        match r {
            Some(v) => spec_parse_int(s@) == Some(v as int) && i64::MIN <= v <= i64::MAX,
            None => spec_parse_int(s@) is None || (spec_parse_int(s@) matches Some(v) && (v
                > i64::MAX || v < i64::MIN)),
        },
{
    let n = s.len();
    let (neg, from): (bool, usize) = if n > 0 && (s[0] == '+' || s[0] == '-') {
        (s[0] == '-', 1)
    } else {
        (false, 0)
    };
    let ghost digits = s@.subrange(from as int, n as int);
    if !all_digits_range(s, from, n) {
        proof {
            if from == 1 {
                assert(digits =~= s@.drop_first());
            } else {
                assert(digits =~= s@);
            }
        }
        return None;
    }
    proof {
        assert forall|j: int| from <= j < n implies spec_is_digit(s@[j]) by {
            assert(spec_is_digit(digits[j - from]));
        }
    }
    let v = digits_val_capped(s, from, n);
    proof {
        if from == 1 {
            assert(digits =~= s@.drop_first());
        } else {
            assert(digits =~= s@);
        }
        lemma_digits_val_bounds(digits);
    }
    if neg {
        if v > 0x8000_0000_0000_0000u64 {
            None
        } else if v == 0x8000_0000_0000_0000u64 {
            Some(i64::MIN)
        } else {
            Some(-(v as i64))
        }
    } else {
        if v > 0x7FFF_FFFF_FFFF_FFFFu64 {
            None
        } else {
            Some(v as i64)
        }
    }
}

/// Parses an unsigned decimal integer with the range of `u8`, accepting an
/// optional leading `+`, as `str::parse::<u8>` does.
pub fn parse_u8_chars(s: &Vec<char>) -> (r: Option<u8>)
    ensures
        match r {
            Some(v) => spec_parse_int(s@) == Some(v as int) && (s@.len() > 0 ==> s@[0] != '-'),
            None => s@.len() > 0 && s@[0] == '-' || spec_parse_int(s@) is None || (
            spec_parse_int(s@) matches Some(v) && (v > 255 || v < 0)),
        },
{
    let n = s.len();
    if n > 0 && s[0] == '-' {
        return None;
    }
    let from: usize = if n > 0 && s[0] == '+' {
        1
    } else {
        0
    };
    let ghost digits = s@.subrange(from as int, n as int);
    if !all_digits_range(s, from, n) {
        proof {
            if from == 1 {
                assert(digits =~= s@.drop_first());
            } else {
                assert(digits =~= s@);
            }
        }
        return None;
    }
    proof {
        assert forall|j: int| from <= j < n implies spec_is_digit(s@[j]) by {
            assert(spec_is_digit(digits[j - from]));
        }
    }
    let v = digits_val_capped(s, from, n);
    proof {
        if from == 1 {
            assert(digits =~= s@.drop_first());
        } else {
            assert(digits =~= s@);
        }
        lemma_digits_val_bounds(digits);
    }
    if v > 255 {
        None
    } else {
        Some(v as u8)
    }
}


/// What `str::parse::<i32>` yields: `spec_parse_int` clipped to the `i32`
/// range.
pub open spec fn spec_parse_i32(s: Seq<char>) -> Option<int> {
    match spec_parse_int(s) {
        Some(v) => if -0x8000_0000 <= v <= 0x7FFF_FFFF {
            Some(v)
        } else {
            None
        },
        None => None,
    }
}

/// Parses a signed decimal integer with the range of `i32`.
pub fn parse_i32_chars(s: &Vec<char>) -> (r: Option<i32>)
    ensures
        match r {
            Some(v) => spec_parse_i32(s@) == Some(v as int),
            None => spec_parse_i32(s@) is None,
        },
{
    match parse_i64_chars(s) {
        Some(v) => {
            if -0x8000_0000i64 <= v && v <= 0x7FFF_FFFFi64 {
                Some(v as i32)
            } else {
                None
            }
        },
        None => None,
    }
}

} // verus!
