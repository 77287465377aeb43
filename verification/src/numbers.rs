//! Unsigned integers as decimal text: parsing them the way `str::parse`
//! does, and rendering them the way `Display` does.

use vstd::prelude::*;
use crate::decimal::{
    all_digits, decimal_digits, digit_of, digit_to_char, digit_value, digits_value, is_digit,
    lemma_concat_value, lemma_pow10_positive, pow10,
};
use crate::text::{chars_of, string_from_chars};

verus! {

/// The digits of an unsigned number's text: the text without a leading
/// `'+'`, which `str::parse` accepts for unsigned types.
pub open spec fn unsigned_digits(s: Seq<char>) -> Seq<char> {
    if s.len() > 0 && s[0] == '+' {
        s.drop_first()
    } else {
        s
    }
}

/// The value `str::parse` gives a text for an unsigned type of maximum
/// `max`: the value of its digits when there is at least one, all are
/// ASCII digits and the value is at most `max`; otherwise none.
pub open spec fn parsed_unsigned(s: Seq<char>, max: nat) -> Option<nat> {
    let d = unsigned_digits(s);
    if d.len() > 0 && all_digits(d) && digits_value(d) <= max {
        Some(digits_value(d))
    } else {
        None
    }
}

/// A prefix of a digit string is worth no more than the whole.
proof fn lemma_prefix_value(s: Seq<char>, i: int)
    requires
        0 <= i <= s.len(),
    ensures
        digits_value(s.take(i)) <= digits_value(s),
{
    let a = s.take(i);
    let b = s.skip(i);
    assert(a + b == s);
    lemma_concat_value(a, b);
    lemma_pow10_positive(b.len());
    assert(digits_value(a) * pow10(b.len()) >= digits_value(a)) by (nonlinear_arith)
        requires
            pow10(b.len()) >= 1,
    ;
}

/// The value of a digit string extended by one digit.
proof fn lemma_push_value(s: Seq<char>, c: char)
    ensures
        digits_value(s.push(c)) == digits_value(s) * 10 + digit_value(c),
{
    assert(s.push(c).drop_last() == s);
    assert(s.push(c).last() == c);
}

/// Parses the characters of an unsigned number no greater than `max`.
fn parse_unsigned_chars(v: &Vec<char>, max: u64) -> (r: Option<u64>)
    requires
        max >= 9,
    ensures
        match r {
            Some(n) => parsed_unsigned(v@, max as nat) == Some(n as nat),
            None => parsed_unsigned(v@, max as nat) is None,
        },
{
    let start: usize = if v.len() > 0 && v[0] == '+' {
        1
    } else {
        0
    };
    let ghost d = unsigned_digits(v@);
    assert(d == v@.skip(start as int));
    if start == v.len() {
        return None;
    }
    let mut value: u64 = 0;
    let mut i = start;
    while i < v.len()
        invariant
            start <= i <= v.len(),
            d == v@.skip(start as int),
            d == unsigned_digits(v@),
            all_digits(v@.subrange(start as int, i as int)),
            value == digits_value(v@.subrange(start as int, i as int)),
            value <= max,
            max >= 9,
        decreases v.len() - i,
    {
        let c = v[i];
        let ghost prev = v@.subrange(start as int, i as int);
        assert(v@.subrange(start as int, i + 1) == prev.push(c));
        if !('0' <= c && c <= '9') {
            assert(d[i - start] == c);
            assert(!is_digit(d[i - start]));
            return None;
        }
        let x = digit_of(c);
        proof {
            lemma_push_value(prev, c);
        }
        if value > (max - x as u64) / 10 {
            proof {
                assert(value * 10 + x > max) by (nonlinear_arith)
                    requires
                        value > (max - x) / 10,
                        x <= max,
                ;
                lemma_prefix_value(d, i + 1 - start);
                assert(d.take(i + 1 - start) == prev.push(c));
            }
            return None;
        }
        assert(value * 10 + x <= max) by (nonlinear_arith)
            requires
                value <= (max - x) / 10,
                x <= max,
        ;
        value = value * 10 + x as u64;
        i = i + 1;
    }
    assert(v@.subrange(start as int, v.len() as int) == d);
    Some(value)
}

/// `s.parse::<u64>().ok()`: the number the text denotes, if it is a
/// valid `u64`.
pub fn parse_u64(s: &str) -> (r: Option<u64>)
    ensures
        match r {
            Some(n) => parsed_unsigned(s@, u64::MAX as nat) == Some(n as nat),
            None => parsed_unsigned(s@, u64::MAX as nat) is None,
        },
{
    let v = chars_of(s);
    parse_unsigned_chars(&v, u64::MAX)
}

/// `s.parse::<u32>().ok()`: the number the text denotes, if it is a
/// valid `u32`.
pub fn parse_u32(s: &str) -> (r: Option<u32>)
    ensures
        match r {
            Some(n) => parsed_unsigned(s@, u32::MAX as nat) == Some(n as nat),
            None => parsed_unsigned(s@, u32::MAX as nat) is None,
        },
{
    let v = chars_of(s);
    match parse_unsigned_chars(&v, u32::MAX as u64) {
        Some(n) => Some(n as u32),
        None => None,
    }
}

/// `s.parse::<u16>().ok()`: the number the text denotes, if it is a
/// valid `u16`.
pub fn parse_u16(s: &str) -> (r: Option<u16>)
    ensures
        match r {
            Some(n) => parsed_unsigned(s@, u16::MAX as nat) == Some(n as nat),
            None => parsed_unsigned(s@, u16::MAX as nat) is None,
        },
{
    let v = chars_of(s);
    match parse_unsigned_chars(&v, u16::MAX as u64) {
        Some(n) => Some(n as u16),
        None => None,
    }
}

/// The decimal digits of `n`.
fn digits_of(n: u64) -> (v: Vec<char>)
    ensures
        v@ == decimal_digits(n as nat),
    decreases n,
{
    if n < 10 {
        let mut v: Vec<char> = Vec::new();
        v.push(digit_to_char(n as u32));
        v
    } else {
        let mut v = digits_of(n / 10);
        v.push(digit_to_char((n % 10) as u32));
        v
    }
}

/// The decimal text of `n`, as `Display` writes it.
pub fn u64_text(n: u64) -> (r: String)
    ensures
        r@ == decimal_digits(n as nat),
{
    let v = digits_of(n);
    string_from_chars(&v)
}

/// The decimal text of `n`, as `Display` writes it.
pub fn u32_text(n: u32) -> (r: String)
    ensures
        r@ == decimal_digits(n as nat),
{
    u64_text(n as u64)
}

} // verus!
