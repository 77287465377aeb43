//! Decimal amounts as the Zora API reports them (`"900719925474099312345"`,
//! `"7.55"`): splitting, padding, normalising, exact addition and ordering,
//! all on the decimal text so that no precision is lost.

use core::cmp::Ordering;
use vstd::prelude::*;
use crate::decimal::{
    add_digit_strings, all_digits, canonical_amount, decimal_digits, digit_value,
    lemma_append_zeros_value, lemma_canonical_parts, lemma_canonical_rescale, lemma_concat_value,
    lemma_decimal_digits, lemma_leading_value, lemma_pow10_monotonic, lemma_pow10_positive,
    lemma_single_value, lemma_value_bound, padded_digits, pow10, canonical_from_digits, digits_value,
    is_digit, lemma_zeros_value, pad_zeros, pad_zeros_chars, strip_leading_zero_chars,
    strip_leading_zeros, strip_trailing_zero_chars, strip_trailing_zeros, with_point, zeros,
    lemma_strip_leading_zeros, lemma_strip_trailing_zeros,
};
use crate::text::{
    chars_of, compare_chars, extend_chars, find_char, index_of, is_white_space, lemma_index_of, lemma_lex_swap, reversed,
    lemma_trim_end_take, lemma_trim_start_skip, lex_order, slice_chars, string_from_chars,
    trim_chars, trim_ws,
};

verus! {

// ---------------------------------------------------------------------------
// Specification
// ---------------------------------------------------------------------------

/// The integer and fractional texts of an amount: the trimmed text split at
/// its first `'.'` (the fractional text is empty when there is no point).
pub open spec fn amount_parts(s: Seq<char>) -> (Seq<char>, Seq<char>) {
    let t = trim_ws(s);
    match index_of(t, '.') {
        Some(i) => (t.take(i), t.skip(i + 1)),
        None => (t, Seq::empty()),
    }
}

/// The integer text of an amount.
pub open spec fn int_part(s: Seq<char>) -> Seq<char> {
    amount_parts(s).0
}

/// The fractional text of an amount.
pub open spec fn frac_part(s: Seq<char>) -> Seq<char> {
    amount_parts(s).1
}

/// A well-formed amount: optional surrounding whitespace around digits with
/// at most one decimal point.  Either side of the point may be empty.
pub open spec fn is_amount(s: Seq<char>) -> bool {
    all_digits(int_part(s)) && all_digits(frac_part(s))
}

/// The number of fractional digits of an amount.
pub open spec fn frac_len(s: Seq<char>) -> nat {
    frac_part(s).len()
}

/// The common scale of two amounts: the larger of their fractional lengths.
pub open spec fn common_scale(a: Seq<char>, b: Seq<char>) -> nat {
    if frac_len(a) >= frac_len(b) {
        frac_len(a)
    } else {
        frac_len(b)
    }
}

/// The value of an amount times `10^k`, for `k` at least its fractional
/// length: the digits of the integer part followed by the fractional part
/// padded to `k` digits.
pub open spec fn scaled_value(s: Seq<char>, k: nat) -> nat {
    digits_value(int_part(s) + pad_zeros(frac_part(s), k))
}

/// The text `normalize_amount` produces: leading zeros of the integer part
/// removed (leaving `"0"` when nothing remains), trailing zeros of the
/// fractional part removed, and the point dropped when no fraction remains.
pub open spec fn normalized_amount(s: Seq<char>) -> Seq<char> {
    let i = strip_leading_zeros(int_part(s));
    with_point(
        if i.len() == 0 {
            seq!['0']
        } else {
            i
        },
        strip_trailing_zeros(frac_part(s)),
    )
}

/// The order `compare_amounts` computes: first the length of the integer
/// texts, then the integer texts, then the fractional texts padded to the
/// same length, each compared lexicographically.
pub open spec fn amount_order(a: Seq<char>, b: Seq<char>) -> Ordering {
    let ai = int_part(a);
    let bi = int_part(b);
    if ai.len() < bi.len() {
        Ordering::Less
    } else if bi.len() < ai.len() {
        Ordering::Greater
    } else {
        match lex_order(ai, bi) {
            Ordering::Equal => lex_order(
                pad_zeros(frac_part(a), common_scale(a, b)),
                pad_zeros(frac_part(b), common_scale(a, b)),
            ),
            other => other,
        }
    }
}

/// The sign of `x - y` as an ordering.
pub open spec fn order_of(x: nat, y: nat) -> Ordering {
    if x < y {
        Ordering::Less
    } else if x == y {
        Ordering::Equal
    } else {
        Ordering::Greater
    }
}


/// A canonical amount: a well-formed amount whose integer part is present
/// and has no superfluous leading zero.
pub open spec fn is_canonical(s: Seq<char>) -> bool {
    &&& is_amount(s)
    &&& int_part(s).len() >= 1
    &&& (int_part(s).len() == 1 || int_part(s)[0] != '0')
}

/// The parts of a text built from digits and an optional point.
pub proof fn lemma_parts_of_with_point(i: Seq<char>, f: Seq<char>)
    requires
        all_digits(i),
        all_digits(f),
    ensures
        int_part(with_point(i, f)) == i,
        frac_part(with_point(i, f)) == f,
{
    let c = with_point(i, f);
    assert forall|k: int| 0 <= k < c.len() implies !is_white_space(#[trigger] c[k]) by {
        if k < i.len() {
            assert(c[k] == i[k]);
            assert(is_digit(i[k]));
        } else if k > i.len() {
            assert(c[k] == f[k - i.len() - 1]);
            assert(is_digit(f[k - i.len() - 1]));
        }
    }
    lemma_trim_start_skip(c, 0);
    assert(c.skip(0) == c);
    lemma_trim_end_take(c, c.len() as int);
    assert(c.take(c.len() as int) == c);
    assert(trim_ws(c) == c);
    lemma_index_of(c, '.');
    if f.len() == 0 {
        assert(c == i);
        assert forall|k: int| 0 <= k < c.len() implies c[k] != '.' by {
            assert(is_digit(i[k]));
        }
        assert(index_of(c, '.') is None);
    } else {
        assert(c[i.len() as int] == '.');
        match index_of(c, '.') {
            Some(p) => {
                if p < i.len() {
                    assert(is_digit(i[p]));
                    assert(c[p] == i[p]);
                }
                assert(p == i.len());
            },
            None => {},
        }
        assert(c.take(i.len() as int) == i);
        assert(c.skip(i.len() as int + 1) == f);
    }
}

/// The canonical text of `n / 10^k` is a canonical amount with at most `k`
/// fractional digits, worth `n` at scale `k`.
pub proof fn lemma_canonical_amount(n: nat, k: nat)
    ensures
        is_canonical(canonical_amount(n, k)),
        frac_len(canonical_amount(n, k)) <= k,
        scaled_value(canonical_amount(n, k), k) == n,
        int_part(canonical_amount(n, k)) == decimal_digits(n / pow10(k)),
{
    lemma_canonical_parts(n, k);
    lemma_decimal_digits(n / pow10(k));
    lemma_parts_of_with_point(
        decimal_digits(n / pow10(k)),
        strip_trailing_zeros(padded_digits(n % pow10(k), k)),
    );
}

/// Raising the scale by `j` multiplies the scaled value by `10^j`.
pub proof fn lemma_scaled_rescale(s: Seq<char>, k: nat, j: nat)
    requires
        frac_len(s) <= k,
    ensures
        scaled_value(s, k + j) == scaled_value(s, k) * pow10(j),
{
    let i = int_part(s);
    let f = frac_part(s);
    assert(pad_zeros(f, k + j) == pad_zeros(f, k) + zeros(j)) by {
        if f.len() < k {
            assert(f + zeros((k + j - f.len()) as nat) == f + zeros((k - f.len()) as nat) + zeros(j));
        } else if j == 0 {
            assert(f + zeros(0) == f);
        }
    }
    assert(i + pad_zeros(f, k + j) == (i + pad_zeros(f, k)) + zeros(j));
    lemma_append_zeros_value(i + pad_zeros(f, k), j);
}


/// The sum `add_amounts` computes: the canonical text of the exact sum of
/// two amounts at their common scale.
pub open spec fn amount_sum(a: Seq<char>, b: Seq<char>) -> Seq<char> {
    canonical_amount(
        scaled_value(a, common_scale(a, b)) + scaled_value(b, common_scale(a, b)),
        common_scale(a, b),
    )
}

/// The sum of two amounts is the canonical text of their exact sum at any
/// scale that covers both.
pub proof fn lemma_amount_sum_at(a: Seq<char>, b: Seq<char>, k: nat)
    requires
        common_scale(a, b) <= k,
    ensures
        amount_sum(a, b) == canonical_amount(scaled_value(a, k) + scaled_value(b, k), k),
{
    let c = common_scale(a, b);
    let j = (k - c) as nat;
    lemma_scaled_rescale(a, c, j);
    lemma_scaled_rescale(b, c, j);
    let x = scaled_value(a, c);
    let y = scaled_value(b, c);
    assert((x + y) * pow10(j) == x * pow10(j) + y * pow10(j)) by (nonlinear_arith);
    lemma_canonical_rescale(x + y, c, j);
    assert(c + j == k);
}

/// Law: the sum of two amounts is exact.  At any scale `k` covering both
/// amounts, the sum is a canonical amount worth exactly the sum of their
/// values, with no more fractional digits than the longer of the two.
pub proof fn law_amount_sum_exact(a: Seq<char>, b: Seq<char>, k: nat)
    requires
        common_scale(a, b) <= k,
    ensures
        is_canonical(amount_sum(a, b)),
        frac_len(amount_sum(a, b)) <= common_scale(a, b),
        scaled_value(amount_sum(a, b), k) == scaled_value(a, k) + scaled_value(b, k),
{
    let c = common_scale(a, b);
    lemma_canonical_amount(scaled_value(a, c) + scaled_value(b, c), c);
    lemma_amount_sum_at(a, b, k);
    lemma_canonical_amount(scaled_value(a, k) + scaled_value(b, k), k);
}

/// Law: adding amounts is commutative.
pub proof fn law_amount_sum_commutative(a: Seq<char>, b: Seq<char>)
    ensures
        amount_sum(a, b) == amount_sum(b, a),
{
    assert(common_scale(a, b) == common_scale(b, a));
}

/// Law: adding amounts is associative, so a running total does not depend
/// on how the additions are grouped.
pub proof fn law_amount_sum_associative(a: Seq<char>, b: Seq<char>, c: Seq<char>)
    ensures
        amount_sum(amount_sum(a, b), c) == amount_sum(a, amount_sum(b, c)),
{
    let k1 = if frac_len(a) >= frac_len(b) {
        frac_len(a)
    } else {
        frac_len(b)
    };
    let k = if k1 >= frac_len(c) {
        k1
    } else {
        frac_len(c)
    };
    let ab = amount_sum(a, b);
    let bc = amount_sum(b, c);
    law_amount_sum_exact(a, b, k);
    law_amount_sum_exact(b, c, k);
    lemma_amount_sum_at(ab, c, k);
    lemma_amount_sum_at(a, bc, k);
}

/// The scaled value of an amount splits into its integer digits and its
/// padded fractional digits.
pub proof fn lemma_scaled_split(s: Seq<char>, k: nat)
    requires
        is_amount(s),
        frac_len(s) <= k,
    ensures
        all_digits(pad_zeros(frac_part(s), k)),
        pad_zeros(frac_part(s), k).len() == k,
        scaled_value(s, k) == digits_value(int_part(s)) * pow10(k) + digits_value(
            pad_zeros(frac_part(s), k),
        ),
        digits_value(pad_zeros(frac_part(s), k)) < pow10(k),
{
    lemma_pad_digits(frac_part(s), k);
    lemma_concat_value(int_part(s), pad_zeros(frac_part(s), k));
    lemma_value_bound(pad_zeros(frac_part(s), k));
}

/// On digit strings of equal length, lexicographic order is numeric order.
pub proof fn lemma_lex_digits_value(x: Seq<char>, y: Seq<char>)
    requires
        all_digits(x),
        all_digits(y),
        x.len() == y.len(),
    ensures
        lex_order(x, y) == order_of(digits_value(x), digits_value(y)),
    decreases x.len(),
{
    if x.len() > 0 {
        let x1 = x.drop_first();
        let y1 = y.drop_first();
        assert(x == seq![x[0]] + x1);
        assert(y == seq![y[0]] + y1);
        lemma_concat_value(seq![x[0]], x1);
        lemma_concat_value(seq![y[0]], y1);
        lemma_single_value(x[0]);
        lemma_single_value(y[0]);
        assert(is_digit(x[0]) && is_digit(y[0]));
        assert forall|i: int| 0 <= i < x1.len() implies is_digit(#[trigger] x1[i]) by {
            assert(x1[i] == x[i + 1]);
        }
        assert forall|i: int| 0 <= i < y1.len() implies is_digit(#[trigger] y1[i]) by {
            assert(y1[i] == y[i + 1]);
        }
        lemma_value_bound(x1);
        lemma_value_bound(y1);
        lemma_lex_digits_value(x1, y1);
        let p = pow10(x1.len());
        let dx = digit_value(x[0]);
        let dy = digit_value(y[0]);
        let vx = digits_value(x1);
        let vy = digits_value(y1);
        if x[0] < y[0] {
            assert(dx + 1 <= dy);
            lemma_order_by_high(dx, vx, dy, vy, p);
        } else if y[0] < x[0] {
            assert(dy + 1 <= dx);
            lemma_order_by_high(dy, vy, dx, vx, p);
        }
    } else {
        assert(digits_value(x) == 0 && digits_value(y) == 0);
    }
}

/// A smaller high part wins whatever the low parts, when low parts stay
/// below the weight of the high part.
pub proof fn lemma_order_by_high(h1: nat, l1: nat, h2: nat, l2: nat, p: nat)
    requires
        h1 + 1 <= h2,
        l1 < p,
    ensures
        h1 * p + l1 < h2 * p + l2,
{
    assert(h1 * p + l1 < h2 * p + l2) by (nonlinear_arith)
        requires
            h1 + 1 <= h2,
            l1 < p,
    ;
}

/// The numeric facts behind [`law_compare_amounts_by_value`]: how the
/// integer parts and the padded fractional parts decide the scaled values.
proof fn lemma_compare_core(a: Seq<char>, b: Seq<char>, k: nat)
    requires
        is_canonical(a),
        is_canonical(b),
        frac_len(a) <= k,
        frac_len(b) <= k,
    ensures
        int_part(a).len() < int_part(b).len() ==> scaled_value(a, k) < scaled_value(b, k),
        int_part(b).len() < int_part(a).len() ==> scaled_value(b, k) < scaled_value(a, k),
        digits_value(int_part(a)) < digits_value(int_part(b)) ==> scaled_value(a, k)
            < scaled_value(b, k),
        digits_value(int_part(b)) < digits_value(int_part(a)) ==> scaled_value(b, k)
            < scaled_value(a, k),
        pad_zeros(frac_part(a), common_scale(a, b)).len() == common_scale(a, b),
        pad_zeros(frac_part(b), common_scale(a, b)).len() == common_scale(a, b),
        all_digits(pad_zeros(frac_part(a), common_scale(a, b))),
        all_digits(pad_zeros(frac_part(b), common_scale(a, b))),
        digits_value(int_part(a)) == digits_value(int_part(b)) ==> {
            let ma = digits_value(pad_zeros(frac_part(a), common_scale(a, b)));
            let mb = digits_value(pad_zeros(frac_part(b), common_scale(a, b)));
            &&& (ma < mb ==> scaled_value(a, k) < scaled_value(b, k))
            &&& (mb < ma ==> scaled_value(b, k) < scaled_value(a, k))
            &&& (ma == mb ==> scaled_value(a, k) == scaled_value(b, k))
        },
{
    let ai = int_part(a);
    let bi = int_part(b);
    let pk = pow10(k);
    lemma_scaled_split(a, k);
    lemma_scaled_split(b, k);
    let fa = digits_value(pad_zeros(frac_part(a), k));
    let fb = digits_value(pad_zeros(frac_part(b), k));
    let va = digits_value(ai);
    let vb = digits_value(bi);
    lemma_value_bound(ai);
    lemma_value_bound(bi);
    if ai.len() < bi.len() {
        lemma_leading_value(bi);
        lemma_pow10_monotonic(ai.len(), (bi.len() - 1) as nat);
        lemma_order_by_high(va, fa, vb, fb, pk);
    }
    if bi.len() < ai.len() {
        lemma_leading_value(ai);
        lemma_pow10_monotonic(bi.len(), (ai.len() - 1) as nat);
        lemma_order_by_high(vb, fb, va, fa, pk);
    }
    if va < vb {
        lemma_order_by_high(va, fa, vb, fb, pk);
    }
    if vb < va {
        lemma_order_by_high(vb, fb, va, fa, pk);
    }
    let m = common_scale(a, b);
    let j = (k - m) as nat;
    lemma_pad_digits(frac_part(a), m);
    lemma_pad_digits(frac_part(b), m);
    lemma_pad_rescale(frac_part(a), m, j);
    lemma_pad_rescale(frac_part(b), m, j);
    assert(m + j == k);
    let ma = digits_value(pad_zeros(frac_part(a), m));
    let mb = digits_value(pad_zeros(frac_part(b), m));
    let pj = pow10(j);
    lemma_pow10_positive(j);
    assert(ma < mb ==> ma * pj < mb * pj) by (nonlinear_arith)
        requires
            pj >= 1,
    ;
    assert(mb < ma ==> mb * pj < ma * pj) by (nonlinear_arith)
        requires
            pj >= 1,
    ;
}

/// Law: on canonical amounts, `compare_amounts` orders by value.  At any
/// scale `k` covering both amounts, the order it computes is the order of
/// their scaled values.
pub proof fn law_compare_amounts_by_value(a: Seq<char>, b: Seq<char>, k: nat)
    requires
        is_canonical(a),
        is_canonical(b),
        frac_len(a) <= k,
        frac_len(b) <= k,
    ensures
        amount_order(a, b) == order_of(scaled_value(a, k), scaled_value(b, k)),
{
    lemma_compare_core(a, b, k);
    if int_part(a).len() == int_part(b).len() {
        lemma_lex_digits_value(int_part(a), int_part(b));
        lemma_lex_digits_value(
            pad_zeros(frac_part(a), common_scale(a, b)),
            pad_zeros(frac_part(b), common_scale(a, b)),
        );
    }
}

/// Padding further appends zeros, multiplying the value.
pub proof fn lemma_pad_rescale(f: Seq<char>, m: nat, j: nat)
    requires
        f.len() <= m,
    ensures
        digits_value(pad_zeros(f, m + j)) == digits_value(pad_zeros(f, m)) * pow10(j),
{
    assert(pad_zeros(f, m + j) == pad_zeros(f, m) + zeros(j)) by {
        if f.len() < m {
            assert(f + zeros((m + j - f.len()) as nat) == f + zeros((m - f.len()) as nat) + zeros(j));
        } else if j == 0 {
            assert(f + zeros(0) == f);
        }
    }
    lemma_append_zeros_value(pad_zeros(f, m), j);
}

// ---------------------------------------------------------------------------
// Executable functions
// ---------------------------------------------------------------------------

/// The integer and fractional characters of an amount.
pub fn split_amount_chars(v: &Vec<char>) -> (r: (Vec<char>, Vec<char>))
    ensures
        r.0@ == int_part(v@),
        r.1@ == frac_part(v@),
{
    let t = trim_chars(v);
    proof {
        lemma_index_of(t@, '.');
    }
    match find_char(&t, '.') {
        Some(i) => (slice_chars(&t, 0, i), slice_chars(&t, i + 1, t.len())),
        None => (t, Vec::new()),
    }
}

/// Whether every character of `v` is an ASCII digit.
fn all_digit_chars(v: &Vec<char>) -> (b: bool)
    ensures
        b == all_digits(v@),
{
    let mut i: usize = 0;
    while i < v.len()
        invariant
            i <= v.len(),
            forall|k: int| 0 <= k < i ==> is_digit(#[trigger] v@[k]),
        decreases v.len() - i,
    {
        if !('0' <= v[i] && v[i] <= '9') {
            assert(!is_digit(v@[i as int]));
            return false;
        }
        i = i + 1;
    }
    true
}

/// Whether `s` is a well-formed amount (see [`is_amount`]).
pub fn is_amount_text(s: &str) -> (b: bool)
    ensures
        b == is_amount(s@),
{
    let v = chars_of(s);
    let (i, f) = split_amount_chars(&v);
    all_digit_chars(&i) && all_digit_chars(&f)
}

/// Splits an amount into its integer and fractional texts, after trimming
/// surrounding whitespace, at the first `'.'`.
pub fn split_amount(amount: &str) -> (r: (String, String))
    ensures
        r.0@ == int_part(amount@),
        r.1@ == frac_part(amount@),
{
    let v = chars_of(amount);
    let (i, f) = split_amount_chars(&v);
    (string_from_chars(&i), string_from_chars(&f))
}

/// `value` padded on the right with `'0'` up to `len` characters.
pub fn pad_right(value: &str, len: usize) -> (r: String)
    ensures
        r@ == pad_zeros(value@, len as nat),
{
    let v = chars_of(value);
    let p = pad_zeros_chars(&v, len);
    string_from_chars(&p)
}

/// The canonical text of an amount (see [`normalized_amount`]).
pub fn normalize_amount(amount: &str) -> (r: String)
    ensures
        r@ == normalized_amount(amount@),
{
    let v = chars_of(amount);
    let (i, f) = split_amount_chars(&v);
    let stripped = strip_leading_zero_chars(&i);
    let mut out = if stripped.len() == 0 {
        let mut z: Vec<char> = Vec::new();
        z.push('0');
        z
    } else {
        stripped
    };
    let frac = strip_trailing_zero_chars(&f);
    if frac.len() > 0 {
        out.push('.');
        extend_chars(&mut out, &frac);
    }
    string_from_chars(&out)
}

/// The exact sum of two amounts, in canonical form.
///
/// With `k` the larger fractional length of the two, the result is the
/// canonical text of `(scaled_value(left, k) + scaled_value(right, k)) /
/// 10^k`: no digit is lost, however long the amounts are.
pub fn add_amounts(left: &str, right: &str) -> (r: String)
    requires
        is_amount(left@),
        is_amount(right@),
    ensures
        r@ == amount_sum(left@, right@),
{
    let lv = chars_of(left);
    let rv = chars_of(right);
    let (li, lf) = split_amount_chars(&lv);
    let (ri, rf) = split_amount_chars(&rv);
    let k = if lf.len() >= rf.len() {
        lf.len()
    } else {
        rf.len()
    };
    let lp = pad_zeros_chars(&lf, k);
    let rp = pad_zeros_chars(&rf, k);
    let mut a = li;
    extend_chars(&mut a, &lp);
    let mut b = ri;
    extend_chars(&mut b, &rp);
    proof {
        lemma_pad_digits(lf@, k as nat);
        lemma_pad_digits(rf@, k as nat);
        lemma_concat_digits(int_part(left@), lp@);
        lemma_concat_digits(int_part(right@), rp@);
    }
    let s = add_digit_strings(&a, &b);
    let out = canonical_from_digits(&s, k);
    string_from_chars(&out)
}

/// Compares two amounts by integer length, then integer digits, then
/// fractional digits padded to a common length.
pub fn compare_amounts(left: &str, right: &str) -> (r: Ordering)
    requires
        is_amount(left@),
        is_amount(right@),
    ensures
        r == amount_order(left@, right@),
{
    let lv = chars_of(left);
    let rv = chars_of(right);
    let (li, lf) = split_amount_chars(&lv);
    let (ri, rf) = split_amount_chars(&rv);
    if li.len() < ri.len() {
        return Ordering::Less;
    }
    if ri.len() < li.len() {
        return Ordering::Greater;
    }
    match compare_chars(&li, &ri) {
        Ordering::Equal => {
            let m = if lf.len() >= rf.len() {
                lf.len()
            } else {
                rf.len()
            };
            let lp = pad_zeros_chars(&lf, m);
            let rp = pad_zeros_chars(&rf, m);
            compare_chars(&lp, &rp)
        },
        Ordering::Less => Ordering::Less,
        Ordering::Greater => Ordering::Greater,
    }
}

// ---------------------------------------------------------------------------
// Lemmas
// ---------------------------------------------------------------------------

pub proof fn lemma_concat_digits(a: Seq<char>, b: Seq<char>)
    requires
        all_digits(a),
        all_digits(b),
    ensures
        all_digits(a + b),
{
    assert forall|i: int| 0 <= i < (a + b).len() implies is_digit(#[trigger] (a + b)[i]) by {
        if i < a.len() {
            assert((a + b)[i] == a[i]);
        } else {
            assert((a + b)[i] == b[i - a.len()]);
        }
    }
}

pub proof fn lemma_pad_digits(s: Seq<char>, n: nat)
    requires
        all_digits(s),
    ensures
        all_digits(pad_zeros(s, n)),
        pad_zeros(s, n).len() >= n,
        pad_zeros(s, n).len() == if s.len() >= n {
            s.len()
        } else {
            n
        },
{
    if s.len() < n {
        lemma_zeros_value((n - s.len()) as nat);
        lemma_concat_digits(s, zeros((n - s.len()) as nat));
    }
}


/// Law: comparing the other way round gives the reverse order.
pub proof fn law_compare_amounts_reverses(a: Seq<char>, b: Seq<char>)
    ensures
        amount_order(b, a) == reversed(amount_order(a, b)),
{
    lemma_lex_swap(int_part(a), int_part(b));
    assert(common_scale(a, b) == common_scale(b, a));
    lemma_lex_swap(pad_zeros(frac_part(a), common_scale(a, b)), pad_zeros(frac_part(b), common_scale(a, b)));
}


/// Law: normalising keeps an amount's value and gives its canonical text.
/// The result is canonical, has no more fractional digits, is worth the
/// same at every scale covering the amount, and normalising it again
/// changes nothing.
pub proof fn law_normalize_amount(s: Seq<char>, k: nat)
    requires
        is_amount(s),
        frac_len(s) <= k,
    ensures
        is_canonical(normalized_amount(s)),
        frac_len(normalized_amount(s)) <= frac_len(s),
        scaled_value(normalized_amount(s), k) == scaled_value(s, k),
        normalized_amount(normalized_amount(s)) == normalized_amount(s),
{
    let i = int_part(s);
    let f0 = frac_part(s);
    let stripped = strip_leading_zeros(i);
    lemma_strip_leading_zeros(i);
    let ip = if stripped.len() == 0 {
        seq!['0']
    } else {
        stripped
    };
    let f = strip_trailing_zeros(f0);
    lemma_strip_trailing_zeros(f0);
    assert(all_digits(f)) by {
        assert forall|q: int| 0 <= q < f.len() implies is_digit(#[trigger] f[q]) by {
            assert(f[q] == f0[q]);
        }
    }
    assert(all_digits(ip));
    lemma_parts_of_with_point(ip, f);
    let n = normalized_amount(s);
    assert(n == with_point(ip, f));
    // The value of the integer part is kept.
    if stripped.len() == 0 {
        lemma_single_value('0');
        assert(digits_value(ip) == 0);
    }
    assert(digits_value(ip) == digits_value(i));
    // Padding the stripped fraction gives the padded fraction.
    assert(pad_zeros(f, k) == pad_zeros(f0, k)) by {
        let m = (f0.len() - f.len()) as nat;
        assert(f0 == f + zeros(m));
        if f0.len() < k {
            assert(zeros(m) + zeros((k - f0.len()) as nat) == zeros((k - f.len()) as nat));
            assert(f + zeros((k - f.len()) as nat) == f + zeros(m) + zeros((k - f0.len()) as nat));
        } else {
            assert(f0.len() == k);
            assert(f + zeros((k - f.len()) as nat) == f0);
        }
    }
    lemma_pad_digits(f, k);
    lemma_pad_digits(f0, k);
    lemma_concat_value(ip, pad_zeros(f, k));
    lemma_concat_value(i, pad_zeros(f0, k));
    // Normalising again.
    assert(int_part(n) == ip && frac_part(n) == f);
    if stripped.len() == 0 {
        assert(seq!['0'].drop_first() == Seq::<char>::empty());
        assert(strip_leading_zeros(seq!['0']) == strip_leading_zeros(Seq::<char>::empty()));
    } else {
        assert(strip_leading_zeros(ip) == ip);
    }
    assert(strip_trailing_zeros(f) == f);
}

} // verus!
