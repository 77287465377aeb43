//! Decimal digit strings: their numeric value, the canonical rendering of a
//! number with a fixed count of fractional digits, and the exact
//! column-wise addition that decimal amounts are summed with.

use vstd::prelude::*;
use vstd::arithmetic::div_mod::{
    lemma_fundamental_div_mod_converse, lemma_mod_breakdown,
};
use crate::text::{extend_chars, slice_chars};

verus! {

// ---------------------------------------------------------------------------
// Digits and their values
// ---------------------------------------------------------------------------

/// An ASCII decimal digit.
pub open spec fn is_digit(c: char) -> bool {
    '0' <= c && c <= '9'
}

/// Every character of `s` is an ASCII decimal digit.
pub open spec fn all_digits(s: Seq<char>) -> bool {
    forall|i: int| 0 <= i < s.len() ==> is_digit(#[trigger] s[i])
}

/// The value of a digit character.
pub open spec fn digit_value(c: char) -> nat {
    (c as int - '0' as int) as nat
}

/// The character of a digit value below ten.
pub open spec fn digit_char(d: nat) -> char {
    if d == 0 {
        '0'
    } else if d == 1 {
        '1'
    } else if d == 2 {
        '2'
    } else if d == 3 {
        '3'
    } else if d == 4 {
        '4'
    } else if d == 5 {
        '5'
    } else if d == 6 {
        '6'
    } else if d == 7 {
        '7'
    } else if d == 8 {
        '8'
    } else {
        '9'
    }
}

/// Ten to the power `n`.
pub open spec fn pow10(n: nat) -> nat
    decreases n,
{
    if n == 0 {
        1
    } else {
        10 * pow10((n - 1) as nat)
    }
}

/// The number that the digit string `s` denotes (most significant first).
pub open spec fn digits_value(s: Seq<char>) -> nat
    decreases s.len(),
{
    if s.len() == 0 {
        0
    } else {
        digits_value(s.drop_last()) * 10 + digit_value(s.last())
    }
}

/// `n` zero characters.
pub open spec fn zeros(n: nat) -> Seq<char> {
    Seq::new(n, |i: int| '0')
}

/// `s` followed by zeros up to length `n` (unchanged when already that long).
pub open spec fn pad_zeros(s: Seq<char>, n: nat) -> Seq<char> {
    if s.len() < n {
        s + zeros((n - s.len()) as nat)
    } else {
        s
    }
}

/// `s` without its leading `'0'` characters.
pub open spec fn strip_leading_zeros(s: Seq<char>) -> Seq<char>
    decreases s.len(),
{
    if s.len() > 0 && s[0] == '0' {
        strip_leading_zeros(s.drop_first())
    } else {
        s
    }
}

/// `s` without its trailing `'0'` characters.
pub open spec fn strip_trailing_zeros(s: Seq<char>) -> Seq<char>
    decreases s.len(),
{
    if s.len() > 0 && s.last() == '0' {
        strip_trailing_zeros(s.drop_last())
    } else {
        s
    }
}

/// The decimal rendering of `n` without leading zeros (`"0"` for zero).
pub open spec fn decimal_digits(n: nat) -> Seq<char>
    decreases n,
{
    if n < 10 {
        seq![digit_char(n)]
    } else {
        decimal_digits(n / 10).push(digit_char(n % 10))
    }
}

/// The last `k` decimal digits of `n`, zero-padded to exactly `k` digits.
pub open spec fn padded_digits(n: nat, k: nat) -> Seq<char>
    decreases k,
{
    if k == 0 {
        Seq::empty()
    } else {
        padded_digits(n / 10, (k - 1) as nat).push(digit_char(n % 10))
    }
}

/// An integer part joined to a fractional part, with no point when the
/// fractional part is empty.
pub open spec fn with_point(int_digits: Seq<char>, frac_digits: Seq<char>) -> Seq<char> {
    if frac_digits.len() == 0 {
        int_digits
    } else {
        int_digits + seq!['.'] + frac_digits
    }
}

/// The canonical text of the decimal number `n / 10^k`: no leading zeros in
/// the integer part (which is `"0"` when zero), no trailing zeros in the
/// fractional part, and no point when there is no fractional part.
pub open spec fn canonical_amount(n: nat, k: nat) -> Seq<char> {
    with_point(
        decimal_digits(n / pow10(k)),
        strip_trailing_zeros(padded_digits(n % pow10(k), k)),
    )
}

// ---------------------------------------------------------------------------
// Lemmas
// ---------------------------------------------------------------------------

pub proof fn lemma_pow10_positive(n: nat)
    ensures
        pow10(n) >= 1,
    decreases n,
{
    if n > 0 {
        lemma_pow10_positive((n - 1) as nat);
    }
}

pub proof fn lemma_pow10_add(a: nat, b: nat)
    ensures
        pow10(a + b) == pow10(a) * pow10(b),
    decreases b,
{
    if b > 0 {
        let b1 = (b - 1) as nat;
        lemma_pow10_add(a, b1);
        assert((a + b - 1) as nat == a + b1);
        assert(pow10(a + b) == 10 * pow10(a + b1));
        assert(pow10(b) == 10 * pow10(b1));
        let pa = pow10(a);
        let pb1 = pow10(b1);
        let pab1 = pow10(a + b1);
        assert(pa * (10 * pb1) == 10 * (pa * pb1)) by (nonlinear_arith);
        assert(pow10(a + b) == 10 * pab1);
        assert(pab1 == pa * pb1);
        assert(pow10(a + b) == pa * pow10(b));
    } else {
        assert(a + b == a);
        assert(pow10(0) == 1);
        assert(pow10(a) * 1 == pow10(a));
    }
}

pub proof fn lemma_pow10_monotonic(a: nat, b: nat)
    requires
        a <= b,
    ensures
        pow10(a) <= pow10(b),
    decreases b,
{
    if a < b {
        lemma_pow10_monotonic(a, (b - 1) as nat);
        lemma_pow10_positive((b - 1) as nat);
    }
}

pub proof fn lemma_digit_char(d: nat)
    requires
        d < 10,
    ensures
        is_digit(digit_char(d)),
        digit_value(digit_char(d)) == d,
{
}

pub proof fn lemma_digit_roundtrip(c: char)
    requires
        is_digit(c),
    ensures
        digit_value(c) < 10,
        digit_char(digit_value(c)) == c,
{
}

/// The value of a concatenation.
pub proof fn lemma_concat_value(a: Seq<char>, b: Seq<char>)
    ensures
        digits_value(a + b) == digits_value(a) * pow10(b.len()) + digits_value(b),
    decreases b.len(),
{
    if b.len() == 0 {
        assert(a + b == a);
        assert(digits_value(b) == 0);
        assert(pow10(0) == 1);
    } else {
        let b1 = b.drop_last();
        lemma_concat_value(a, b1);
        assert(b1.len() == (b.len() - 1) as nat);
        assert((a + b).drop_last() == a + b1);
        assert((a + b).last() == b.last());
        let va = digits_value(a);
        let p = pow10(b1.len());
        let v1 = digits_value(b1);
        let d = digit_value(b.last());
        assert(pow10(b.len()) == 10 * p);
        assert((va * p + v1) * 10 + d == va * (10 * p) + (v1 * 10 + d)) by (nonlinear_arith);
    }
}

/// Zeros have value zero.
pub proof fn lemma_zeros_value(n: nat)
    ensures
        digits_value(zeros(n)) == 0,
        all_digits(zeros(n)),
    decreases n,
{
    if n > 0 {
        assert(zeros(n).drop_last() == zeros((n - 1) as nat));
        lemma_zeros_value((n - 1) as nat);
    }
}

/// Appending `m` zeros multiplies the value by `10^m`.
pub proof fn lemma_append_zeros_value(s: Seq<char>, m: nat)
    ensures
        digits_value(s + zeros(m)) == digits_value(s) * pow10(m),
{
    lemma_concat_value(s, zeros(m));
    lemma_zeros_value(m);
}

/// Prepending zeros does not change the value.
pub proof fn lemma_prepend_zeros_value(m: nat, s: Seq<char>)
    ensures
        digits_value(zeros(m) + s) == digits_value(s),
{
    lemma_concat_value(zeros(m), s);
    lemma_zeros_value(m);
}

/// A digit string of length `n` denotes a number below `10^n`.
pub proof fn lemma_value_bound(s: Seq<char>)
    requires
        all_digits(s),
    ensures
        digits_value(s) < pow10(s.len()),
    decreases s.len(),
{
    if s.len() > 0 {
        let s1 = s.drop_last();
        assert(is_digit(s[s.len() - 1]));
        lemma_value_bound(s1);
        let v1 = digits_value(s1);
        let p = pow10(s1.len());
        let d = digit_value(s.last());
        assert(v1 + 1 <= p);
        assert(v1 * 10 + d < 10 * p) by (nonlinear_arith)
            requires
                v1 + 1 <= p,
                d < 10,
        ;
    }
}

/// A digit string whose first digit is not zero denotes at least
/// `10^(n-1)`.
pub proof fn lemma_leading_value(s: Seq<char>)
    requires
        all_digits(s),
        s.len() >= 1,
        s[0] != '0',
    ensures
        digits_value(s) >= pow10((s.len() - 1) as nat),
{
    let head = s.take(1);
    let rest = s.skip(1);
    assert(s == head + rest);
    lemma_concat_value(head, rest);
    lemma_single_value(s[0]);
    assert(head == seq![s[0]]);
    assert(is_digit(s[0]));
    let p = pow10(rest.len());
    let d = digits_value(head);
    assert(d >= 1);
    assert(d * p >= p) by (nonlinear_arith)
        requires
            d >= 1,
    ;
}

/// The value of a digit string split at its last position.
pub proof fn lemma_last_digit(s: Seq<char>)
    requires
        all_digits(s),
        s.len() >= 1,
    ensures
        digits_value(s) / 10 == digits_value(s.drop_last()),
        digits_value(s) % 10 == digit_value(s.last()),
{
    assert(is_digit(s[s.len() - 1]));
    lemma_fundamental_div_mod_converse(
        digits_value(s) as int,
        10,
        digits_value(s.drop_last()) as int,
        digit_value(s.last()) as int,
    );
}

/// A digit string of length `k` is the zero-padded rendering of its value.
pub proof fn lemma_padded_unique(s: Seq<char>)
    requires
        all_digits(s),
    ensures
        padded_digits(digits_value(s), s.len()) == s,
    decreases s.len(),
{
    if s.len() > 0 {
        let s1 = s.drop_last();
        lemma_last_digit(s);
        lemma_padded_unique(s1);
        assert(is_digit(s[s.len() - 1]));
        lemma_digit_roundtrip(s.last());
        assert(s1.push(s.last()) == s);
    }
}

/// A digit string with no superfluous leading zero is the rendering of its
/// value.
pub proof fn lemma_decimal_unique(s: Seq<char>)
    requires
        all_digits(s),
        s.len() >= 1,
        s.len() == 1 || s[0] != '0',
    ensures
        decimal_digits(digits_value(s)) == s,
    decreases s.len(),
{
    assert(is_digit(s[s.len() - 1]));
    lemma_digit_roundtrip(s.last());
    if s.len() == 1 {
        assert(seq![s[0]] == s);
        lemma_single_value(s[0]);
    } else {
        let s1 = s.drop_last();
        lemma_leading_value(s1);
        lemma_pow10_positive((s1.len() - 1) as nat);
        lemma_last_digit(s);
        lemma_decimal_unique(s1);
        assert(s1.push(s.last()) == s);
    }
}

/// The rendering of a number is made of digits.
pub proof fn lemma_decimal_digits(n: nat)
    ensures
        all_digits(decimal_digits(n)),
        decimal_digits(n).len() >= 1,
        decimal_digits(n).len() == 1 || decimal_digits(n)[0] != '0',
        digits_value(decimal_digits(n)) == n,
        n < 10 ==> decimal_digits(n).len() == 1,
        n >= 10 ==> decimal_digits(n).len() >= 2,
    decreases n,
{
    if n < 10 {
        lemma_digit_char(n);
        lemma_single_value(digit_char(n));
    } else {
        lemma_decimal_digits(n / 10);
        lemma_digit_char(n % 10);
        let s = decimal_digits(n);
        assert(s.drop_last() == decimal_digits(n / 10));
        assert(s.last() == digit_char(n % 10));
        if decimal_digits(n / 10).len() == 1 {
            assert(n / 10 >= 1);
            assert(n / 10 < 10);
            assert(decimal_digits(n / 10) == seq![digit_char(n / 10)]);
            assert(decimal_digits(n / 10)[0] != '0');
        }
        assert(s[0] == decimal_digits(n / 10)[0]);
        assert(n == (n / 10) * 10 + n % 10);
    }
}

/// The zero-padded rendering is made of digits and denotes `n mod 10^k`.
pub proof fn lemma_padded_digits(n: nat, k: nat)
    ensures
        all_digits(padded_digits(n, k)),
        padded_digits(n, k).len() == k,
        digits_value(padded_digits(n, k)) == n % pow10(k),
    decreases k,
{
    if k > 0 {
        lemma_padded_digits(n / 10, (k - 1) as nat);
        lemma_digit_char(n % 10);
        lemma_pow10_positive((k - 1) as nat);
        let s = padded_digits(n, k);
        assert(s.drop_last() == padded_digits(n / 10, (k - 1) as nat));
        lemma_mod_breakdown(n as int, 10, pow10((k - 1) as nat) as int);
    }
}

/// Removing leading zeros keeps digits and value, and leaves no leading
/// zero.
pub proof fn lemma_strip_leading_zeros(s: Seq<char>)
    requires
        all_digits(s),
    ensures
        all_digits(strip_leading_zeros(s)),
        digits_value(strip_leading_zeros(s)) == digits_value(s),
        strip_leading_zeros(s).len() == 0 || strip_leading_zeros(s)[0] != '0',
    decreases s.len(),
{
    if s.len() > 0 && s[0] == '0' {
        let rest = s.drop_first();
        lemma_strip_leading_zeros(rest);
        assert(s == seq!['0'] + rest);
        lemma_concat_value(seq!['0'], rest);
        lemma_single_value('0');
        assert(digit_value('0') == 0);
        assert(digits_value(seq!['0']) == 0);
        assert(0 * pow10(rest.len()) == 0);
        assert(strip_leading_zeros(s) == strip_leading_zeros(rest));
    }
}

/// Removing trailing zeros and padding back with zeros restores `s`.
pub proof fn lemma_strip_trailing_zeros(s: Seq<char>)
    ensures
        strip_trailing_zeros(s).len() <= s.len(),
        strip_trailing_zeros(s) + zeros((s.len() - strip_trailing_zeros(s).len()) as nat) == s,
        strip_trailing_zeros(s) == s.take(strip_trailing_zeros(s).len() as int),
        strip_trailing_zeros(s).len() == 0 || strip_trailing_zeros(s).last() != '0',
    decreases s.len(),
{
    if s.len() > 0 && s.last() == '0' {
        let s1 = s.drop_last();
        lemma_strip_trailing_zeros(s1);
        let t = strip_trailing_zeros(s1);
        assert(zeros((s.len() - t.len()) as nat) == zeros((s1.len() - t.len()) as nat).push('0'));
        assert(t + zeros((s.len() - t.len()) as nat) == (t + zeros((s1.len() - t.len()) as nat)).push(
            '0',
        ));
        assert(s1.push('0') == s);
        assert(s1.take(t.len() as int) == s.take(t.len() as int));
    } else {
        assert(zeros(0) == Seq::<char>::empty());
        assert(s + Seq::<char>::empty() == s);
        assert(s.take(s.len() as int) == s);
    }
}

pub proof fn lemma_strip_leading_skip(s: Seq<char>, i: int)
    requires
        0 <= i <= s.len(),
        forall|k: int| 0 <= k < i ==> #[trigger] s[k] == '0',
        i == s.len() || s[i] != '0',
    ensures
        strip_leading_zeros(s) == s.skip(i),
    decreases i,
{
    if i == 0 {
        assert(s.skip(0) == s);
    } else {
        let t = s.drop_first();
        assert forall|k: int| 0 <= k < i - 1 implies #[trigger] t[k] == '0' by {
            assert(t[k] == s[k + 1]);
        }
        if i - 1 < t.len() {
            assert(t[i - 1] == s[i]);
        }
        lemma_strip_leading_skip(t, i - 1);
        assert(t.skip(i - 1) == s.skip(i));
    }
}

pub proof fn lemma_strip_trailing_take(s: Seq<char>, j: int)
    requires
        0 <= j <= s.len(),
        forall|k: int| j <= k < s.len() ==> #[trigger] s[k] == '0',
        j == 0 || s[j - 1] != '0',
    ensures
        strip_trailing_zeros(s) == s.take(j),
    decreases s.len() - j,
{
    if j == s.len() {
        assert(s.take(j) == s);
    } else {
        let t = s.drop_last();
        assert forall|k: int| j <= k < t.len() implies #[trigger] t[k] == '0' by {
            assert(t[k] == s[k]);
        }
        if j > 0 {
            assert(t[j - 1] == s[j - 1]);
        }
        lemma_strip_trailing_take(t, j);
        assert(t.take(j) == s.take(j));
    }
}

/// The canonical text of `n / 10^k` has digits on both sides of its point,
/// a fractional part of at most `k` digits, and it denotes `n` once its
/// fractional part is padded back to `k` digits.
pub proof fn lemma_canonical_parts(n: nat, k: nat)
    ensures
        all_digits(decimal_digits(n / pow10(k))),
        all_digits(strip_trailing_zeros(padded_digits(n % pow10(k), k))),
        strip_trailing_zeros(padded_digits(n % pow10(k), k)).len() <= k,
        digits_value(
            decimal_digits(n / pow10(k)) + pad_zeros(
                strip_trailing_zeros(padded_digits(n % pow10(k), k)),
                k,
            ),
        ) == n,
{
    let p = pow10(k);
    lemma_pow10_positive(k);
    let q = n / p;
    let r = n % p;
    let pd = padded_digits(r, k);
    lemma_padded_digits(r, k);
    lemma_decimal_digits(q);
    lemma_strip_trailing_zeros(pd);
    let f = strip_trailing_zeros(pd);
    assert forall|i: int| 0 <= i < f.len() implies is_digit(#[trigger] f[i]) by {
        assert(f[i] == pd[i]);
    }
    assert(pad_zeros(f, k) == pd);
    lemma_concat_value(decimal_digits(q), pd);
    lemma_pow10_positive(k);
    vstd::arithmetic::div_mod::lemma_fundamental_div_mod(n as int, p as int);
    lemma_mod_small(r, k);
    assert(q * p == p * q) by (nonlinear_arith);
}

proof fn lemma_mod_small(r: nat, k: nat)
    requires
        r < pow10(k),
    ensures
        r % pow10(k) == r,
{
    lemma_pow10_positive(k);
    lemma_fundamental_div_mod_converse(r as int, pow10(k) as int, 0, r as int);
}

/// Shifting a number left by `j` digits appends `j` zeros to its padded
/// rendering.
pub proof fn lemma_padded_shift(r: nat, k: nat, j: nat)
    ensures
        padded_digits(r * pow10(j), k + j) == padded_digits(r, k) + zeros(j),
    decreases j,
{
    if j == 0 {
        assert(pow10(0) == 1);
        assert(r * 1 == r);
        assert(padded_digits(r, k) + zeros(0) == padded_digits(r, k));
    } else {
        let j1 = (j - 1) as nat;
        lemma_padded_shift(r, k, j1);
        let m = r * pow10(j1);
        assert(r * pow10(j) == m * 10) by (nonlinear_arith)
            requires
                pow10(j) == 10 * pow10(j1),
                m == r * pow10(j1),
        ;
        lemma_fundamental_div_mod_converse((m * 10) as int, 10, m as int, 0);
        assert((k + j - 1) as nat == k + j1);
        assert(padded_digits(m * 10, k + j) == padded_digits(m, k + j1).push(digit_char(0)));
        assert(zeros(j) == zeros(j1).push('0'));
        assert((padded_digits(r, k) + zeros(j1)).push('0') == padded_digits(r, k) + zeros(j));
    }
}

/// Trailing zeros appended to `s` are removed again.
pub proof fn lemma_strip_trailing_append_zeros(s: Seq<char>, j: nat)
    ensures
        strip_trailing_zeros(s + zeros(j)) == strip_trailing_zeros(s),
    decreases j,
{
    if j == 0 {
        assert(s + zeros(0) == s);
    } else {
        let j1 = (j - 1) as nat;
        lemma_strip_trailing_append_zeros(s, j1);
        assert((s + zeros(j)).drop_last() == s + zeros(j1));
        assert((s + zeros(j)).last() == '0');
    }
}

/// The canonical text of a number does not depend on the scale it is
/// expressed at.
pub proof fn lemma_canonical_rescale(n: nat, k: nat, j: nat)
    ensures
        canonical_amount(n * pow10(j), k + j) == canonical_amount(n, k),
{
    let pk = pow10(k);
    let pj = pow10(j);
    lemma_pow10_positive(k);
    lemma_pow10_positive(j);
    lemma_pow10_add(k, j);
    let q = n / pk;
    let r = n % pk;
    vstd::arithmetic::div_mod::lemma_fundamental_div_mod(n as int, pk as int);
    assert(0 <= r < pk);
    assert(n * pj == q * (pk * pj) + r * pj) by (nonlinear_arith)
        requires
            n == pk * q + r,
    ;
    assert(r * pj < pk * pj) by (nonlinear_arith)
        requires
            r < pk,
            pj >= 1,
    ;
    assert(r * pj >= 0) by (nonlinear_arith)
        requires
            r >= 0,
            pj >= 1,
    ;
    lemma_fundamental_div_mod_converse(
        (n * pj) as int,
        (pk * pj) as int,
        q as int,
        (r * pj) as int,
    );
    lemma_padded_shift(r, k, j);
    lemma_strip_trailing_append_zeros(padded_digits(r, k), j);
}

// ---------------------------------------------------------------------------
// Executable helpers
// ---------------------------------------------------------------------------

/// The value of a digit character.
pub fn digit_of(c: char) -> (d: u32)
    requires
        is_digit(c),
    ensures
        d == digit_value(c),
        d < 10,
{
    (c as u32) - ('0' as u32)
}

/// The character of a digit value.
pub fn digit_to_char(d: u32) -> (c: char)
    requires
        d < 10,
    ensures
        c == digit_char(d as nat),
        is_digit(c),
        digit_value(c) == d,
{
    if d == 0 {
        '0'
    } else if d == 1 {
        '1'
    } else if d == 2 {
        '2'
    } else if d == 3 {
        '3'
    } else if d == 4 {
        '4'
    } else if d == 5 {
        '5'
    } else if d == 6 {
        '6'
    } else if d == 7 {
        '7'
    } else if d == 8 {
        '8'
    } else {
        '9'
    }
}

/// A vector of `n` zero characters.
pub fn zeros_vec(n: usize) -> (v: Vec<char>)
    ensures
        v@ == zeros(n as nat),
{
    let mut v: Vec<char> = Vec::new();
    let mut i: usize = 0;
    while i < n
        invariant
            i <= n,
            v@ == zeros(i as nat),
        decreases n - i,
    {
        v.push('0');
        assert(zeros((i + 1) as nat) == zeros(i as nat).push('0'));
        i = i + 1;
    }
    v
}

/// `v` padded with zeros on the right up to `n` characters.
pub fn pad_zeros_chars(v: &Vec<char>, n: usize) -> (r: Vec<char>)
    ensures
        r@ == pad_zeros(v@, n as nat),
{
    let mut r = v.clone();
    if v.len() < n {
        let z = zeros_vec(n - v.len());
        extend_chars(&mut r, &z);
    }
    r
}

/// `v` without its leading zeros.
pub fn strip_leading_zero_chars(v: &Vec<char>) -> (r: Vec<char>)
    ensures
        r@ == strip_leading_zeros(v@),
{
    let mut i: usize = 0;
    while i < v.len() && v[i] == '0'
        invariant
            i <= v.len(),
            forall|k: int| 0 <= k < i ==> #[trigger] v@[k] == '0',
        decreases v.len() - i,
    {
        i = i + 1;
    }
    proof {
        lemma_strip_leading_skip(v@, i as int);
    }
    slice_chars(v, i, v.len())
}

/// `v` without its trailing zeros.
pub fn strip_trailing_zero_chars(v: &Vec<char>) -> (r: Vec<char>)
    ensures
        r@ == strip_trailing_zeros(v@),
{
    let mut j: usize = v.len();
    while j > 0 && v[j - 1] == '0'
        invariant
            j <= v.len(),
            forall|k: int| j <= k < v.len() ==> #[trigger] v@[k] == '0',
        decreases j,
    {
        j = j - 1;
    }
    proof {
        lemma_strip_trailing_take(v@, j as int);
    }
    slice_chars(v, 0, j)
}

/// The last `i` characters of `s` (all of `s` when it is shorter).
pub open spec fn last_digits(s: Seq<char>, i: nat) -> Seq<char> {
    if i <= s.len() {
        s.skip(s.len() - i)
    } else {
        s
    }
}

proof fn lemma_last_digits_step(s: Seq<char>, i: nat)
    ensures
        i < s.len() ==> last_digits(s, i + 1) == seq![s[s.len() - 1 - i]] + last_digits(s, i)
            && last_digits(s, i).len() == i,
        i >= s.len() ==> last_digits(s, i + 1) == last_digits(s, i),
{
    if i < s.len() {
        assert(last_digits(s, i + 1) =~= seq![s[s.len() - 1 - i]] + last_digits(s, i));
    } else if i == s.len() {
        assert(s.skip(0) == s);
    }
}

pub proof fn lemma_single_value(c: char)
    ensures
        digits_value(seq![c]) == digit_value(c),
{
    let e = seq![c].drop_last();
    assert(e.len() == 0);
    assert(digits_value(e) == 0);
    assert(seq![c].last() == c);
}

/// The column-wise sum of two digit strings.
pub fn add_digit_strings(a: &Vec<char>, b: &Vec<char>) -> (s: Vec<char>)
    requires
        all_digits(a@),
        all_digits(b@),
    ensures
        all_digits(s@),
        digits_value(s@) == digits_value(a@) + digits_value(b@),
{
    let la = a.len();
    let lb = b.len();
    let n = if la >= lb {
        la
    } else {
        lb
    };
    let mut out: Vec<char> = Vec::new();
    let mut carry: u32 = 0;
    let mut i: usize = 0;
    while i < n
        invariant
            la == a.len(),
            lb == b.len(),
            n == if la >= lb {
                la
            } else {
                lb
            },
            all_digits(a@),
            all_digits(b@),
            i <= n,
            carry <= 1,
            out.len() == i,
            all_digits(out@),
            digits_value(out@) + carry * pow10(i as nat) == digits_value(last_digits(a@, i as nat))
                + digits_value(last_digits(b@, i as nat)),
        decreases n - i,
    {
        let da: u32 = if i < la {
            digit_of(a[la - 1 - i])
        } else {
            0
        };
        let db: u32 = if i < lb {
            digit_of(b[lb - 1 - i])
        } else {
            0
        };
        let t = da + db + carry;
        let d = t % 10;
        let c = digit_to_char(d);
        let ghost old_out = out@;
        let ghost old_carry = carry;
        out.insert(0, c);
        carry = t / 10;
        proof {
            let p = pow10(i as nat);
            assert(out@ == seq![c] + old_out);
            lemma_concat_value(seq![c], old_out);
            lemma_single_value(c);
            lemma_last_digits_step(a@, i as nat);
            lemma_last_digits_step(b@, i as nat);
            if i < la {
                lemma_concat_value(seq![a@[la - 1 - i]], last_digits(a@, i as nat));
                lemma_single_value(a@[la - 1 - i]);
            }
            if i < lb {
                lemma_concat_value(seq![b@[lb - 1 - i]], last_digits(b@, i as nat));
                lemma_single_value(b@[lb - 1 - i]);
            }
            assert(pow10((i + 1) as nat) == 10 * p);
            assert(d * p + carry * (10 * p) == da * p + db * p + old_carry * p) by (nonlinear_arith)
                requires
                    d + 10 * carry == da + db + old_carry,
            ;
            assert forall|k: int| 0 <= k < out@.len() implies is_digit(#[trigger] out@[k]) by {
                if k > 0 {
                    assert(out@[k] == old_out[k - 1]);
                }
            }
        }
        i = i + 1;
    }
    proof {
        assert(last_digits(a@, n as nat) == a@) by {
            if n == la {
                assert(a@.skip(0) == a@);
            }
        }
        assert(last_digits(b@, n as nat) == b@) by {
            if n == lb {
                assert(b@.skip(0) == b@);
            }
        }
    }
    if carry == 1 {
        let ghost old_out = out@;
        out.insert(0, '1');
        proof {
            assert(out@ == seq!['1'] + old_out);
            lemma_concat_value(seq!['1'], old_out);
            lemma_single_value('1');
            assert forall|k: int| 0 <= k < out@.len() implies is_digit(#[trigger] out@[k]) by {
                if k > 0 {
                    assert(out@[k] == old_out[k - 1]);
                }
            }
        }
    }
    out
}

/// The canonical text of `digits_value(s) / 10^k`.
pub fn canonical_from_digits(s: &Vec<char>, k: usize) -> (r: Vec<char>)
    requires
        all_digits(s@),
    ensures
        r@ == canonical_amount(digits_value(s@), k as nat),
{
    let ghost n = digits_value(s@);
    let (int_raw, frac_raw) = if s.len() > k {
        let split = s.len() - k;
        (slice_chars(s, 0, split), slice_chars(s, split, s.len()))
    } else {
        let mut f = zeros_vec(k - s.len());
        extend_chars(&mut f, s);
        (Vec::new(), f)
    };
    proof {
        lemma_pow10_positive(k as nat);
        if s.len() > k {
            assert(s@ == int_raw@ + frac_raw@);
            lemma_concat_value(int_raw@, frac_raw@);
        } else {
            lemma_prepend_zeros_value((k - s.len()) as nat, s@);
            lemma_zeros_value((k - s.len()) as nat);
            assert(digits_value(int_raw@) == 0);
        }
        assert(all_digits(int_raw@));
        assert(all_digits(frac_raw@)) by {
            if s.len() <= k {
                lemma_zeros_value((k - s.len()) as nat);
                assert forall|i: int| 0 <= i < frac_raw@.len() implies is_digit(
                    #[trigger] frac_raw@[i],
                ) by {
                    if i >= (k - s.len()) {
                        assert(frac_raw@[i] == s@[i - (k - s.len())]);
                    } else {
                        assert(frac_raw@[i] == zeros((k - s.len()) as nat)[i]);
                    }
                }
            }
        }
        assert(frac_raw@.len() == k);
        lemma_value_bound(frac_raw@);
        let p = pow10(k as nat);
        assert(n == digits_value(int_raw@) * p + digits_value(frac_raw@));
        lemma_fundamental_div_mod_converse(
            n as int,
            p as int,
            digits_value(int_raw@) as int,
            digits_value(frac_raw@) as int,
        );
        lemma_padded_unique(frac_raw@);
    }
    let stripped = strip_leading_zero_chars(&int_raw);
    let int_digits = if stripped.len() == 0 {
        let mut z: Vec<char> = Vec::new();
        z.push('0');
        z
    } else {
        stripped
    };
    proof {
        lemma_strip_leading_zeros(int_raw@);
        if stripped@.len() == 0 {
            assert(decimal_digits(0) == seq!['0']);
        } else {
            lemma_decimal_unique(stripped@);
        }
        assert(int_digits@ == decimal_digits(n / pow10(k as nat)));
    }
    let frac_digits = strip_trailing_zero_chars(&frac_raw);
    let mut r = int_digits;
    if frac_digits.len() > 0 {
        r.push('.');
        extend_chars(&mut r, &frac_digits);
    }
    r
}

} // verus!
