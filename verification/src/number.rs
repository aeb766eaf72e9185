//! Which texts a 32-bit float is read from.
//!
//! A style value such as an opacity is kept as its text; the text is
//! accepted when it follows the grammar that `str::parse::<f32>` documents:
//!
//! ```text
//! Float  ::= Sign? ( 'inf' | 'infinity' | 'nan' | Number )
//! Number ::= ( Digit+ | Digit+ '.' Digit* | Digit* '.' Digit+ ) Exp?
//! Exp    ::= 'e' Sign? Digit+
//! Sign   ::= [+-]
//! Digit  ::= [0-9]
//! ```
//!
//! where letters match regardless of ASCII case, and no whitespace is allowed.
use vstd::prelude::*;

use crate::text::{ascii_lower, str_eq};

verus! {

pub open spec fn is_sign(c: char) -> bool {
    c == '+' || c == '-'
}

pub open spec fn is_digit(c: char) -> bool {
    '0' <= c && c <= '9'
}

pub open spec fn is_exp_mark(c: char) -> bool {
    c == 'e' || c == 'E'
}

pub open spec fn all_digits(s: Seq<char>) -> bool {
    forall|i: int| 0 <= i < s.len() ==> is_digit(#[trigger] s[i])
}

/// `s` equals the lowercase word `word` up to ASCII case.
pub open spec fn matches_ignore_case(s: Seq<char>, word: Seq<char>) -> bool {
    s.len() == word.len() && forall|i: int| 0 <= i < s.len() ==> ascii_lower(#[trigger] s[i]) == word[i]
}

/// `s` without a leading sign.
pub open spec fn unsigned(s: Seq<char>) -> Seq<char> {
    if s.len() > 0 && is_sign(s[0]) {
        s.drop_first()
    } else {
        s
    }
}

/// Digits with at most one decimal point, and at least one digit.
pub open spec fn is_mantissa(m: Seq<char>) -> bool {
    ||| m.len() > 0 && all_digits(m)
    ||| m.len() >= 2 && exists|d: int|
        0 <= d < m.len() && #[trigger] m[d] == '.' && all_digits(m.take(d)) && all_digits(m.skip(d + 1))
}

/// An optional sign followed by at least one digit.
pub open spec fn is_exponent(e: Seq<char>) -> bool {
    unsigned(e).len() > 0 && all_digits(unsigned(e))
}

/// A mantissa, optionally followed by an exponent mark and an exponent.
pub open spec fn is_decimal(b: Seq<char>) -> bool {
    ||| (forall|i: int| 0 <= i < b.len() ==> !is_exp_mark(#[trigger] b[i])) && is_mantissa(b)
    ||| exists|k: int|
        0 <= k < b.len() && is_exp_mark(#[trigger] b[k]) && is_mantissa(b.take(k)) && is_exponent(b.skip(k + 1))
}

/// The texts that `str::parse::<f32>` accepts.
pub open spec fn is_float_text(s: Seq<char>) -> bool {
    let b = unsigned(s);
    ||| matches_ignore_case(b, "inf"@)
    ||| matches_ignore_case(b, "infinity"@)
    ||| matches_ignore_case(b, "nan"@)
    ||| is_decimal(b)
}

proof fn lemma_mantissa_chars(m: Seq<char>, j: int)
    requires
        is_mantissa(m),
        0 <= j < m.len(),
    ensures
        is_digit(m[j]) || m[j] == '.',
{
    if m.len() > 0 && all_digits(m) {
        assert(is_digit(m[j]));
    } else {
        let d = choose|d: int|
            0 <= d < m.len() && #[trigger] m[d] == '.' && all_digits(m.take(d)) && all_digits(m.skip(d + 1));
        if j < d {
            assert(m.take(d)[j] == m[j]);
        } else if j > d {
            assert(m.skip(d + 1)[j - d - 1] == m[j]);
        }
    }
}

fn char_is_digit(c: char) -> (r: bool)
    ensures
        r == is_digit(c),
{
    '0' <= c && c <= '9'
}

/// Whether the characters `from..to` of `s` are all digits.
fn digits_between(s: &str, from: usize, to: usize) -> (r: bool)
    requires
        from <= to <= s@.len(),
    ensures
        r == all_digits(s@.subrange(from as int, to as int)),
{
    let mut i = from;
    while i < to
        invariant
            from <= i <= to <= s@.len(),
            all_digits(s@.subrange(from as int, i as int)),
        decreases to - i,
    {
        if !char_is_digit(s.get_char(i)) {
            assert(s@.subrange(from as int, to as int)[i - from] == s@[i as int]);
            return false;
        }
        i = i + 1;
        assert forall|j: int| 0 <= j < s@.subrange(from as int, i as int).len() implies is_digit(
            #[trigger] s@.subrange(from as int, i as int)[j],
        ) by {
            if j < i - 1 - from {
                assert(s@.subrange(from as int, i as int)[j] == s@.subrange(from as int, (i - 1) as int)[j]);
            }
        }
    }
    true
}

/// Whether the characters `from..to` of `s` form a mantissa.
fn mantissa_between(s: &str, from: usize, to: usize) -> (r: bool)
    requires
        from <= to <= s@.len(),
    ensures
        r == is_mantissa(s@.subrange(from as int, to as int)),
{
    let ghost m = s@.subrange(from as int, to as int);
    let mut d = from;
    while d < to && s.get_char(d) != '.'
        invariant
            from <= d <= to <= s@.len(),
            m == s@.subrange(from as int, to as int),
            forall|j: int| 0 <= j < d - from ==> m[j] != '.',
        decreases to - d,
    {
        d = d + 1;
    }
    if d == to {
        proof {
            assert(m.len() == to - from);
            assert forall|dd: int| 0 <= dd < m.len() implies #[trigger] m[dd] != '.' by {}
        }
        return to > from && digits_between(s, from, to);
    }
    let ghost k = d - from;
    assert(m[k] == '.');
    let before = digits_between(s, from, d);
    let after = digits_between(s, d + 1, to);
    assert(m.take(k) =~= s@.subrange(from as int, d as int));
    assert(m.skip(k + 1) =~= s@.subrange(d + 1, to as int));
    if !(to - from >= 2 && before && after) {
        proof {
            if to - from >= 2 {
                assert forall|dd: int|
                    0 <= dd < m.len() && #[trigger] m[dd] == '.' implies !(all_digits(m.take(dd)) && all_digits(m.skip(dd + 1))) by {
                    if dd > k {
                        assert(m.take(dd)[k] == '.');
                    } else if dd < k {
                        assert(false);
                    }
                }
            }
            assert(!is_digit(m[k]));
        }
        return false;
    }
    true
}

/// Whether the characters `from..to` of `s` form an exponent.
fn exponent_between(s: &str, from: usize, to: usize) -> (r: bool)
    requires
        from <= to <= s@.len(),
    ensures
        r == is_exponent(s@.subrange(from as int, to as int)),
{
    let ghost e = s@.subrange(from as int, to as int);
    let mut start = from;
    if from < to && (s.get_char(from) == '+' || s.get_char(from) == '-') {
        start = from + 1;
        assert(e.drop_first() =~= s@.subrange(start as int, to as int));
    } else {
        assert(unsigned(e) == e);
    }
    start < to && digits_between(s, start, to)
}

/// Whether the characters `from..to` of `s` form a decimal number.
fn decimal_between(s: &str, from: usize, to: usize) -> (r: bool)
    requires
        from <= to <= s@.len(),
    ensures
        r == is_decimal(s@.subrange(from as int, to as int)),
{
    let ghost b = s@.subrange(from as int, to as int);
    let mut k = from;
    while k < to && s.get_char(k) != 'e' && s.get_char(k) != 'E'
        invariant
            from <= k <= to <= s@.len(),
            b == s@.subrange(from as int, to as int),
            forall|j: int| 0 <= j < k - from ==> !is_exp_mark(b[j]),
        decreases to - k,
    {
        k = k + 1;
    }
    if k == to {
        proof {
            assert forall|j: int| 0 <= j < b.len() implies !is_exp_mark(#[trigger] b[j]) by {}
        }
        return mantissa_between(s, from, to);
    }
    let ghost kk = k - from;
    assert(is_exp_mark(b[kk]));
    let m = mantissa_between(s, from, k);
    let e = exponent_between(s, k + 1, to);
    assert(b.take(kk) =~= s@.subrange(from as int, k as int));
    assert(b.skip(kk + 1) =~= s@.subrange(k + 1, to as int));
    if !(m && e) {
        proof {
            assert forall|j: int|
                0 <= j < b.len() && is_exp_mark(#[trigger] b[j]) implies !(is_mantissa(b.take(j)) && is_exponent(b.skip(j + 1))) by {
                if j > kk {
                    assert(b.take(j)[kk] == b[kk]);
                    if is_mantissa(b.take(j)) {
                        lemma_mantissa_chars(b.take(j), kk);
                    }
                }
            }
        }
        return false;
    }
    true
}

/// Whether `s` equals the lowercase word `word` up to ASCII case.
fn equals_ignore_case(s: &str, from: usize, word: &str) -> (r: bool)
    requires
        from <= s@.len(),
        forall|i: int| 0 <= i < word@.len() ==> ascii_lower(#[trigger] word@[i]) == word@[i],
    ensures
        r == matches_ignore_case(s@.skip(from as int), word@),
{
    let n = s.unicode_len();
    let w = word.unicode_len();
    if n - from != w {
        return false;
    }
    let mut i: usize = 0;
    while i < w
        invariant
            n == s@.len(),
            w == word@.len(),
            n - from == w,
            from <= n,
            i <= w,
            forall|j: int| 0 <= j < i ==> ascii_lower(s@[from + j]) == word@[j],
        decreases w - i,
    {
        let c = s.get_char(from + i);
        let wc = word.get_char(i);
        let same = if 'A' <= c && c <= 'Z' { (c as u32) + 32 == (wc as u32) } else { c == wc };
        if !same {
            proof {
                if 'A' <= c && c <= 'Z' {
                    let x = (c as u32) + 32;
                    assert((x as char) as u32 == x);
                }
                assert(s@.skip(from as int)[i as int] == c);
            }
            return false;
        }
        i = i + 1;
    }
    true
}

/// Whether `s` is a text that `str::parse::<f32>` reads.
pub fn is_float(s: &str) -> (r: bool)
    ensures
        r == is_float_text(s@),
{
    let n = s.unicode_len();
    let mut start: usize = 0;
    if n > 0 && (s.get_char(0) == '+' || s.get_char(0) == '-') {
        start = 1;
        assert(unsigned(s@) =~= s@.skip(1));
    } else {
        assert(unsigned(s@) =~= s@.skip(0));
    }
    proof {
        reveal_strlit("inf");
        reveal_strlit("infinity");
        reveal_strlit("nan");
    }
    if equals_ignore_case(s, start, "inf") || equals_ignore_case(s, start, "infinity") || equals_ignore_case(s, start, "nan") {
        return true;
    }
    assert(s@.subrange(start as int, n as int) =~= s@.skip(start as int));
    decimal_between(s, start, n)
}

} // verus!
