//! Reading back the text of a number gives the number.

use vstd::prelude::*;
use crate::ascii::{LOWER_E, POINT, ZERO};
use crate::decimal::{
    all_digits, digits_value, int_text, is_digit, lemma_nat_digits, lemma_text_int_of_int_text,
    nat_digits,
};
use crate::double::{
    digits_run, double_text, exponent_text, is_normal, normal_form, plain_text, sci_exponent,
    sign_byte, strip_zeros, text_double, text_exponent, text_magnitude, uses_exponent, zeros,
    DoubleView,
};

verus! {

/// Ten to the power `k`.
pub open spec fn pow10(k: nat) -> nat
    decreases k,
{
    if k == 0 {
        1
    } else {
        10 * pow10((k - 1) as nat)
    }
}

/// A number that the double frame can hold: in normal form, with a mantissa
/// of 64 bits and an exponent of 32 bits.
pub open spec fn representable(d: DoubleView) -> bool {
    &&& is_normal(d)
    &&& d.mantissa <= u64::MAX
    &&& i32::MIN <= d.exponent <= i32::MAX
}

/// A run of digits ends where the first byte that is no digit stands.
pub proof fn lemma_digits_run(s: Seq<u8>, from: int, to: int)
    requires
        0 <= from <= to <= s.len(),
        forall|i: int| from <= i < to ==> is_digit(#[trigger] s[i]),
        to < s.len() ==> !is_digit(s[to]),
    ensures
        digits_run(s, from) == to,
    decreases to - from,
{
    if from < to {
        lemma_digits_run(s, from + 1, to);
    }
}

/// Zeros write zero.
pub proof fn lemma_zeros_value(k: nat)
    ensures
        digits_value(zeros(k)) == 0,
        all_digits(zeros(k)),
    decreases k,
{
    if k > 0 {
        lemma_zeros_value((k - 1) as nat);
        assert(zeros(k).drop_last() =~= zeros((k - 1) as nat));
    }
}

/// Zeros in front of digits do not change what they write.
pub proof fn lemma_leading_zeros(k: nat, s: Seq<u8>)
    requires
        all_digits(s),
    ensures
        digits_value(zeros(k) + s) == digits_value(s),
    decreases s.len(),
{
    if s.len() == 0 {
        lemma_zeros_value(k);
        assert(zeros(k) + s =~= zeros(k));
    } else {
        lemma_leading_zeros(k, s.drop_last());
        assert((zeros(k) + s).drop_last() =~= zeros(k) + s.drop_last());
    }
}

/// Each zero behind digits multiplies what they write by ten.
pub proof fn lemma_trailing_zeros(s: Seq<u8>, k: nat)
    ensures
        digits_value(s + zeros(k)) == digits_value(s) * pow10(k),
    decreases k,
{
    let v = digits_value(s);
    if k == 0 {
        assert(s + zeros(0) =~= s);
        assert(pow10(0) == 1);
        assert(v * 1 == v);
    } else {
        let p = pow10((k - 1) as nat);
        let t = s + zeros(k);
        lemma_trailing_zeros(s, (k - 1) as nat);
        assert(t.drop_last() =~= s + zeros((k - 1) as nat));
        assert(t.last() == ZERO);
        assert(digits_value(t) == digits_value(t.drop_last()) * 10);
        assert(pow10(k) == 10 * p);
        assert(v * (10 * p) == v * p * 10) by (nonlinear_arith);
    }
}

/// The zeros that a power of ten puts behind a mantissa are the ones that
/// the normal form takes away.
pub proof fn lemma_strip_power(m: nat, e: int, k: nat)
    requires
        m > 0,
        m % 10 != 0,
    ensures
        strip_zeros(m * pow10(k), e) == (m, e + k),
    decreases k,
{
    if k == 0 {
        assert(pow10(0) == 1);
        assert(m * 1 == m);
    } else {
        let p = pow10((k - 1) as nat);
        lemma_pow10_positive((k - 1) as nat);
        assert(m * pow10(k) == (m * p) * 10) by (nonlinear_arith)
            requires
                pow10(k) == 10 * p,
        ;
        assert(m * p > 0) by (nonlinear_arith)
            requires
                m > 0,
                p > 0,
        ;
        lemma_strip_power(m, e + 1, (k - 1) as nat);
    }
}

pub proof fn lemma_pow10_positive(k: nat)
    ensures
        pow10(k) > 0,
    decreases k,
{
    if k > 0 {
        lemma_pow10_positive((k - 1) as nat);
    }
}

/// A number is below ten to the power of the count of its digits.
pub proof fn lemma_digits_bound(n: nat)
    ensures
        n < pow10(nat_digits(n).len()),
    decreases n,
{
    if n >= 10 {
        lemma_digits_bound(n / 10);
    } else {
        assert(pow10(1) == 10) by {
            assert(pow10(0) == 1);
        }
    }
}

/// Powers of ten grow with the exponent.
pub proof fn lemma_pow10_monotone(a: nat, b: nat)
    requires
        a <= b,
    ensures
        pow10(a) <= pow10(b),
    decreases b - a,
{
    if a < b {
        lemma_pow10_monotone(a, (b - 1) as nat);
        lemma_pow10_positive((b - 1) as nat);
    }
}

pub proof fn lemma_pow10_add(a: nat, b: nat)
    ensures
        pow10(a + b) == pow10(a) * pow10(b),
    decreases b,
{
    if b == 0 {
        assert(pow10(a) * 1 == pow10(a));
    } else {
        lemma_pow10_add(a, (b - 1) as nat);
        assert(pow10(a) * (10 * pow10((b - 1) as nat)) == 10 * (pow10(a) * pow10((b - 1) as nat)))
            by (nonlinear_arith);
    }
}

/// The normal form of a number in normal form is the number.
pub proof fn lemma_normal_fixed(d: DoubleView)
    requires
        is_normal(d),
    ensures
        normal_form(d.negative, d.mantissa, d.exponent) == d,
{
}

/// The exponent behind a mantissa is read back.
pub proof fn lemma_exponent_read(x: int)
    requires
        i64::MIN <= x <= i64::MAX,
    ensures
        text_exponent(seq![LOWER_E] + int_text(x)) == Some(x),
{
    let s = seq![LOWER_E] + int_text(x);
    assert(s.skip(1) =~= int_text(x));
    lemma_text_int_of_int_text(x);
}

/// What the text without its sign must hold for the number `d` to be read.
pub open spec fn reads_as(
    u: Seq<u8>,
    d: DoubleView,
    whole_end: int,
    fraction: Seq<u8>,
    x: int,
) -> bool {
    let point = whole_end < u.len() && u[whole_end] == POINT;
    let fraction_end = if point {
        digits_run(u, whole_end + 1)
    } else {
        whole_end
    };
    &&& digits_run(u, 0) == whole_end
    &&& whole_end > 0
    &&& fraction == (if point {
        u.subrange(whole_end + 1, fraction_end)
    } else {
        Seq::<u8>::empty()
    })
    &&& point ==> fraction.len() > 0
    &&& digits_value(u.take(whole_end) + fraction) <= u64::MAX
    &&& text_exponent(u.skip(fraction_end)) == Some(x)
    &&& normal_form(d.negative, digits_value(u.take(whole_end) + fraction), x - fraction.len()) == d
    &&& i32::MIN <= d.exponent <= i32::MAX
}

/// A text that holds the parts of `d` is read as `d`.
pub proof fn lemma_reads_as(u: Seq<u8>, d: DoubleView, whole_end: int, fraction: Seq<u8>, x: int)
    requires
        reads_as(u, d, whole_end, fraction, x),
    ensures
        text_magnitude(d.negative, u) == Some(d),
{
}

/// A number written with an exponent is read back.
pub proof fn lemma_exponent_form(d: DoubleView)
    requires
        representable(d),
    ensures
        text_double(exponent_text(d)) == Some(d),
{
    let digits = nat_digits(d.mantissa);
    let n = digits.len() as int;
    let e = sci_exponent(d);
    lemma_nat_digits(d.mantissa);
    crate::double::lemma_digits_len(d.mantissa);
    let t = exponent_text(d);
    let u = t.skip(1);
    assert(t[0] == sign_byte(d.negative));
    lemma_exponent_read(e);
    lemma_normal_fixed(d);
    if n == 1 {
        assert(u =~= seq![digits[0]] + (seq![LOWER_E] + int_text(e)));
        assert(u[0] == digits[0]);
        assert(u[1] == LOWER_E);
        lemma_digits_run(u, 0, 1);
        assert(u.skip(1) =~= seq![LOWER_E] + int_text(e));
        assert(u.take(1) + Seq::<u8>::empty() =~= digits);
        lemma_reads_as(u, d, 1, Seq::empty(), e);
    } else {
        let fraction = digits.skip(1);
        assert(u =~= seq![digits[0]] + seq![POINT] + fraction + (seq![LOWER_E] + int_text(e)));
        assert(u[0] == digits[0]);
        assert(u[1] == POINT);
        lemma_digits_run(u, 0, 1);
        assert forall|i: int| 2 <= i < n + 1 implies is_digit(#[trigger] u[i]) by {
            assert(u[i] == digits[i - 1]);
        }
        assert(u[n + 1] == LOWER_E);
        lemma_digits_run(u, 2, n + 1);
        assert(u.subrange(2, n + 1) =~= fraction);
        assert(u.skip(n + 1) =~= seq![LOWER_E] + int_text(e));
        assert(u.take(1) + fraction =~= digits);
        lemma_reads_as(u, d, 1, fraction, e);
    }
}

/// Nothing behind a mantissa is the exponent zero.
pub proof fn lemma_no_exponent(u: Seq<u8>)
    ensures
        text_exponent(u.skip(u.len() as int)) == Some(0int),
{
    assert(u.skip(u.len() as int).len() == 0);
}

/// A whole number written without an exponent is read back.
pub proof fn lemma_plain_whole(d: DoubleView)
    requires
        representable(d),
        d.mantissa > 0,
        0 <= d.exponent,
        sci_exponent(d) <= 8,
    ensures
        text_double(plain_text(d)) == Some(d),
{
    let digits = nat_digits(d.mantissa);
    let n = digits.len() as int;
    let k = d.exponent as nat;
    lemma_nat_digits(d.mantissa);
    let t = plain_text(d);
    let u = t.skip(1);
    assert(t[0] == sign_byte(d.negative));
    assert(u =~= digits + zeros(k));
    lemma_zeros_value(k);
    assert forall|i: int| 0 <= i < u.len() implies is_digit(#[trigger] u[i]) by {
        if i < n {
            assert(u[i] == digits[i]);
        } else {
            assert(u[i] == zeros(k)[i - n]);
        }
    }
    lemma_digits_run(u, 0, u.len() as int);
    lemma_no_exponent(u);
    assert(u.take(u.len() as int) + Seq::<u8>::empty() =~= u);
    lemma_trailing_zeros(digits, k);
    lemma_strip_power(d.mantissa, 0, k);
    // the number is below ten to the power nine
    lemma_digits_bound(d.mantissa);
    lemma_pow10_add(n as nat, k);
    lemma_pow10_monotone((n + k) as nat, 9);
    lemma_pow10_positive(k);
    assert(d.mantissa * pow10(k) <= pow10(n as nat) * pow10(k)) by (nonlinear_arith)
        requires
            d.mantissa < pow10(n as nat),
            pow10(k) > 0,
    ;
    assert(pow10(9) == 1000000000) by {
        reveal_with_fuel(pow10, 10);
    }
    lemma_reads_as(u, d, u.len() as int, Seq::empty(), 0);
}

/// A number with digits on both sides of the point is read back.
pub proof fn lemma_plain_split(d: DoubleView)
    requires
        representable(d),
        d.mantissa > 0,
        d.exponent < 0,
        nat_digits(d.mantissa).len() + d.exponent > 0,
    ensures
        text_double(plain_text(d)) == Some(d),
{
    let digits = nat_digits(d.mantissa);
    let n = digits.len() as int;
    let w = n + d.exponent;
    lemma_nat_digits(d.mantissa);
    let t = plain_text(d);
    let u = t.skip(1);
    assert(t[0] == sign_byte(d.negative));
    assert(u =~= digits.take(w) + seq![POINT] + digits.skip(w));
    assert forall|i: int| 0 <= i < w implies is_digit(#[trigger] u[i]) by {
        assert(u[i] == digits[i]);
    }
    assert(u[w] == POINT);
    lemma_digits_run(u, 0, w);
    assert forall|i: int| w + 1 <= i < n + 1 implies is_digit(#[trigger] u[i]) by {
        assert(u[i] == digits[i - 1]);
    }
    lemma_digits_run(u, w + 1, n + 1);
    lemma_no_exponent(u);
    let fraction = digits.skip(w);
    assert(u.subrange(w + 1, n + 1) =~= fraction);
    assert(u.take(w) + fraction =~= digits);
    lemma_normal_fixed(d);
    lemma_reads_as(u, d, w, fraction, 0);
}

/// A number below one written without an exponent is read back.
pub proof fn lemma_plain_small(d: DoubleView)
    requires
        representable(d),
        d.mantissa > 0,
        d.exponent < 0,
        nat_digits(d.mantissa).len() + d.exponent <= 0,
    ensures
        text_double(plain_text(d)) == Some(d),
{
    let digits = nat_digits(d.mantissa);
    let n = digits.len() as int;
    let g = (-(n + d.exponent)) as nat;
    lemma_nat_digits(d.mantissa);
    let t = plain_text(d);
    let u = t.skip(1);
    assert(t[0] == sign_byte(d.negative));
    assert(u =~= seq![ZERO, POINT] + zeros(g) + digits);
    assert(u[0] == ZERO);
    assert(u[1] == POINT);
    lemma_digits_run(u, 0, 1);
    lemma_zeros_value(g);
    assert forall|i: int| 2 <= i < u.len() implies is_digit(#[trigger] u[i]) by {
        if i < 2 + g {
            assert(u[i] == zeros(g)[i - 2]);
        } else {
            assert(u[i] == digits[i - 2 - g]);
        }
    }
    lemma_digits_run(u, 2, u.len() as int);
    lemma_no_exponent(u);
    let fraction = zeros(g) + digits;
    assert(u.subrange(2, u.len() as int) =~= fraction);
    assert(u.take(1) + fraction =~= zeros(g + 1) + digits);
    lemma_leading_zeros(g + 1, digits);
    lemma_normal_fixed(d);
    lemma_reads_as(u, d, 1, fraction, 0);
}

/// Reading back the text of a number gives the number.
pub proof fn lemma_double_read_back(d: DoubleView)
    requires
        representable(d),
    ensures
        text_double(double_text(d)) == Some(d),
{
    if uses_exponent(d) {
        lemma_exponent_form(d);
    } else if d.exponent >= 0 {
        lemma_plain_whole(d);
    } else if nat_digits(d.mantissa).len() + d.exponent > 0 {
        lemma_plain_split(d);
    } else {
        lemma_plain_small(d);
    }
}

} // verus!
