//! Decimal numbers of the double frame: their normal form and their text.

use vstd::prelude::*;
use vstd::slice::slice_subrange;
use crate::ascii::{LOWER_E, MINUS, PLUS, POINT, UPPER_E, ZERO};
use crate::decimal::{
    all_digits, digits_value, fold_digits, int_text, is_digit, lemma_digits_value_monotone,
    lemma_nat_digits, nat_digits, push_int, push_nat, read_digits, read_i64, text_i64,
};

verus! {

/// A decimal number: `mantissa` times ten to the power `exponent`, negated
/// when `negative` is set.
pub struct DoubleView {
    pub negative: bool,
    pub mantissa: nat,
    pub exponent: int,
}

/// A decimal number in normal form: the mantissa of a number other than zero
/// does not end in a zero digit, and zero has exponent zero.
#[derive(Debug, Clone, Copy, PartialEq, Eq)]
pub struct RespDouble {
    negative: bool,
    mantissa: u64,
    exponent: i32,
}

impl View for RespDouble {
    type V = DoubleView;

    closed spec fn view(&self) -> DoubleView {
        DoubleView {
            negative: self.negative,
            mantissa: self.mantissa as nat,
            exponent: self.exponent as int,
        }
    }
}

/// `k` zero digits.
pub open spec fn zeros(k: nat) -> Seq<u8> {
    Seq::new(k, |i: int| ZERO)
}

/// Removes the zero digits at the end of a mantissa, raising the exponent by
/// one for each; zero becomes zero with exponent zero.
pub open spec fn strip_zeros(m: nat, e: int) -> (nat, int)
    decreases m,
{
    if m == 0 {
        (0, 0)
    } else if m % 10 == 0 {
        strip_zeros(m / 10, e + 1)
    } else {
        (m, e)
    }
}

/// The normal form of a decimal number.
pub open spec fn normal_form(negative: bool, m: nat, e: int) -> DoubleView {
    DoubleView { negative, mantissa: strip_zeros(m, e).0, exponent: strip_zeros(m, e).1 }
}

/// `v` is in normal form.
pub open spec fn is_normal(v: DoubleView) -> bool {
    if v.mantissa == 0 {
        v.exponent == 0
    } else {
        v.mantissa % 10 != 0
    }
}

/// The power of ten of the first digit of `v`.
pub open spec fn sci_exponent(v: DoubleView) -> int {
    v.exponent + nat_digits(v.mantissa).len() - 1
}

/// The magnitude of `v`, a number in normal form, lies outside the range from
/// 1e-8 to 1e8, so `v` is written with an exponent.
pub open spec fn uses_exponent(v: DoubleView) -> bool {
    ||| v.mantissa == 0
    ||| sci_exponent(v) < -8
    ||| sci_exponent(v) > 8
    ||| (sci_exponent(v) == 8 && v.mantissa != 1)
}

/// The sign character: every number is written with one.
pub open spec fn sign_byte(negative: bool) -> u8 {
    if negative {
        MINUS
    } else {
        PLUS
    }
}

/// `v` with an exponent: the first digit, the others behind a point, `e` and
/// the power of ten of the first digit.
pub open spec fn exponent_text(v: DoubleView) -> Seq<u8> {
    let digits = nat_digits(v.mantissa);
    let fraction = if digits.len() > 1 {
        seq![POINT] + digits.skip(1)
    } else {
        Seq::<u8>::empty()
    };
    seq![sign_byte(v.negative), digits[0]] + fraction + seq![LOWER_E] + int_text(sci_exponent(v))
}

/// `v` without an exponent.
pub open spec fn plain_text(v: DoubleView) -> Seq<u8> {
    let digits = nat_digits(v.mantissa);
    let whole = digits.len() + v.exponent;
    let body = if v.exponent >= 0 {
        digits + zeros(v.exponent as nat)
    } else if whole > 0 {
        digits.take(whole) + seq![POINT] + digits.skip(whole)
    } else {
        seq![ZERO, POINT] + zeros((-whole) as nat) + digits
    };
    seq![sign_byte(v.negative)] + body
}

/// The text of a double frame's number.
pub open spec fn double_text(v: DoubleView) -> Seq<u8> {
    if uses_exponent(v) {
        exponent_text(v)
    } else {
        plain_text(v)
    }
}

/// The end of the run of digits of `s` that starts at `from`.
pub open spec fn digits_run(s: Seq<u8>, from: int) -> int
    decreases s.len() - from,
{
    if 0 <= from < s.len() && is_digit(s[from]) {
        digits_run(s, from + 1)
    } else {
        from
    }
}

/// The exponent that the end of a number's text writes: nothing for zero, or
/// `e` or `E` and a signed number that fits in 64 bits.
pub open spec fn text_exponent(s: Seq<u8>) -> Option<int> {
    if s.len() == 0 {
        Some(0)
    } else if s[0] == LOWER_E || s[0] == UPPER_E {
        match text_i64(s.skip(1)) {
            Some(x) => Some(x as int),
            None => None,
        }
    } else {
        None
    }
}

/// The number that the unsigned text `s` writes: digits, then optionally a
/// point and more digits, then optionally an exponent. All the digits
/// together must write a number that fits in 64 bits, and the exponent of the
/// normal form must fit in 32 bits.
pub open spec fn text_magnitude(negative: bool, s: Seq<u8>) -> Option<DoubleView> {
    let whole_end = digits_run(s, 0);
    let point = whole_end < s.len() && s[whole_end] == POINT;
    let fraction_end = if point {
        digits_run(s, whole_end + 1)
    } else {
        whole_end
    };
    let fraction = if point {
        s.subrange(whole_end + 1, fraction_end)
    } else {
        Seq::<u8>::empty()
    };
    let digits = s.take(whole_end) + fraction;
    if whole_end == 0 || (point && fraction.len() == 0) || digits_value(digits) > u64::MAX {
        None
    } else {
        match text_exponent(s.skip(fraction_end)) {
            None => None,
            Some(x) => {
                let v = normal_form(negative, digits_value(digits), x - fraction.len());
                if i32::MIN <= v.exponent <= i32::MAX {
                    Some(v)
                } else {
                    None
                }
            },
        }
    }
}

/// The number that `s` writes: an optional sign, then the magnitude.
pub open spec fn text_double(s: Seq<u8>) -> Option<DoubleView> {
    if s.len() > 0 && (s[0] == PLUS || s[0] == MINUS) {
        text_magnitude(s[0] == MINUS, s.skip(1))
    } else {
        text_magnitude(false, s)
    }
}

/// The end of the run of digits of `t` that starts at `from`.
fn scan_digits(t: &[u8], from: usize) -> (r: usize)
    requires
        from <= t@.len(),
    ensures
        r == digits_run(t@, from as int),
        from <= r <= t@.len(),
        all_digits(t@.subrange(from as int, r as int)),
{
    let mut i: usize = from;
    while i < t.len() && 48 <= t[i] && t[i] <= 57
        invariant
            from <= i <= t@.len(),
            digits_run(t@, from as int) == digits_run(t@, i as int),
            forall|j: int| from <= j < i ==> is_digit(#[trigger] t@[j]),
        decreases t@.len() - i,
    {
        i = i + 1;
    }
    i
}

/// The normal form of `m` times ten to the power `e`, where its exponent
/// fits in 32 bits.
fn normalize(negative: bool, m: u64, e: i128) -> (r: Option<RespDouble>)
    requires
        -0x1_0000_0000_0000_0000_0000 <= e <= 0x1_0000_0000_0000_0000_0000,
    ensures
        match r {
            Some(d) => d@ == normal_form(negative, m as nat, e as int) && is_normal(d@),
            None => !(i32::MIN <= normal_form(negative, m as nat, e as int).exponent <= i32::MAX),
        },
{
    if m == 0 {
        return Some(RespDouble { negative, mantissa: 0, exponent: 0 });
    }
    let m0: u64 = m;
    let e0: i128 = e;
    let mut m: u64 = m0;
    let mut e: i128 = e0;
    let mut steps: u8 = 0;
    while m % 10 == 0
        invariant
            m > 0,
            strip_zeros(m as nat, e as int) == strip_zeros(m0 as nat, e0 as int),
            e == e0 + steps,
            -0x1_0000_0000_0000_0000_0000 <= e0 <= 0x1_0000_0000_0000_0000_0000,
            steps <= 64,
            (m as int) * pow2_bound(steps as nat) <= u64::MAX,
        decreases m,
    {
        proof {
            lemma_pow2_bound_step(m as int, steps as nat);
        }
        m = m / 10;
        e = e + 1;
        steps = steps + 1;
    }
    if e < -2147483648 || e > 2147483647 {
        None
    } else {
        Some(RespDouble { negative, mantissa: m, exponent: e as i32 })
    }
}

/// The exponent that `t[from..]` writes.
fn read_exponent(t: &[u8], from: usize) -> (r: Option<i64>)
    requires
        from <= t@.len(),
    ensures
        match r {
            Some(x) => text_exponent(t@.skip(from as int)) == Some(x as int),
            None => text_exponent(t@.skip(from as int)) is None,
        },
{
    let n: usize = t.len();
    if from == n {
        return Some(0);
    }
    proof {
        assert(t@.skip(from as int)[0] == t@[from as int]);
        assert(t@.skip(from as int).skip(1) =~= t@.subrange(from + 1, n as int));
    }
    if t[from] == LOWER_E || t[from] == UPPER_E {
        read_i64(t, from + 1, n)
    } else {
        None
    }
}

/// The number that the unsigned text `t` writes.
fn read_magnitude(negative: bool, t: &[u8]) -> (r: Option<RespDouble>)
    ensures
        match r {
            Some(d) => text_magnitude(negative, t@) == Some(d@) && is_normal(d@),
            None => text_magnitude(negative, t@) is None,
        },
{
    let n: usize = t.len();
    let whole_end: usize = scan_digits(t, 0);
    let point: bool = whole_end < n && t[whole_end] == POINT;
    let fraction_end: usize = if point {
        scan_digits(t, whole_end + 1)
    } else {
        whole_end
    };
    let fraction_start: usize = if point {
        whole_end + 1
    } else {
        whole_end
    };
    if whole_end == 0 || (point && fraction_end == fraction_start) {
        return None;
    }
    let ghost whole = t@.take(whole_end as int);
    let ghost fraction = t@.subrange(fraction_start as int, fraction_end as int);
    proof {
        assert(t@.subrange(0, whole_end as int) =~= whole);
        if !point {
            assert(fraction =~= Seq::<u8>::empty());
        }
    }
    let w: u64 = match read_digits(t, 0, whole_end) {
        Some(w) => w,
        None => {
            proof {
                assert((whole + fraction).take(whole_end as int) =~= whole);
                assert(all_digits(whole + fraction));
                lemma_digits_value_monotone(whole + fraction, whole_end as int);
            }
            return None;
        },
    };
    let m: u64 = match fold_digits(w, t, fraction_start, fraction_end, Ghost(whole)) {
        Some(m) => m,
        None => {
            return None;
        },
    };
    let x: i64 = match read_exponent(t, fraction_end) {
        Some(x) => x,
        None => {
            return None;
        },
    };
    normalize(negative, m, x as i128 - (fraction_end - fraction_start) as i128)
}

/// The number that the text `t` writes.
pub fn read_double(t: &[u8]) -> (r: Option<RespDouble>)
    ensures
        match r {
            Some(d) => text_double(t@) == Some(d@) && is_normal(d@),
            None => text_double(t@) is None,
        },
{
    let n: usize = t.len();
    if n > 0 && (t[0] == PLUS || t[0] == MINUS) {
        let rest = slice_subrange(t, 1, n);
        assert(rest@ =~= t@.skip(1));
        read_magnitude(t[0] == MINUS, rest)
    } else {
        read_magnitude(false, t)
    }
}

impl RespDouble {
    /// The number `mantissa` times ten to the power `exponent`, negated when
    /// `negative` is set, in normal form.
    pub fn new(negative: bool, mantissa: u64, exponent: i16) -> (r: Self)
        ensures
            r@ == normal_form(negative, mantissa as nat, exponent as int),
            is_normal(r@),
    {
        proof {
            lemma_strip_zeros_exponent(mantissa as nat, exponent as int);
        }
        match normalize(negative, mantissa, exponent as i128) {
            Some(d) => d,
            None => RespDouble { negative, mantissa: 0, exponent: 0 },
        }
    }

    /// Whether the number carries a minus sign.
    pub fn is_negative(&self) -> (r: bool)
        ensures
            r == self@.negative,
    {
        self.negative
    }

    /// The digits of the number as an integer.
    pub fn mantissa(&self) -> (r: u64)
        ensures
            r == self@.mantissa,
    {
        self.mantissa
    }

    /// The power of ten by which the mantissa is multiplied.
    pub fn exponent(&self) -> (r: i32)
        ensures
            r == self@.exponent,
    {
        self.exponent
    }
}

/// Appends `k` zero digits to `out`.
pub(crate) fn push_zeros(out: &mut Vec<u8>, k: usize)
    ensures
        final(out)@ == old(out)@ + zeros(k as nat),
{
    let mut i: usize = 0;
    while i < k
        invariant
            i <= k,
            out@ == old(out)@ + zeros(i as nat),
        decreases k - i,
    {
        out.push(ZERO);
        i = i + 1;
        assert(out@ =~= old(out)@ + zeros(i as nat));
    }
}

/// Appends the bytes `src[from..to]` to `out`.
pub(crate) fn push_range(out: &mut Vec<u8>, src: &[u8], from: usize, to: usize)
    requires
        from <= to <= src@.len(),
    ensures
        final(out)@ == old(out)@ + src@.subrange(from as int, to as int),
{
    let mut i: usize = from;
    while i < to
        invariant
            from <= i <= to <= src@.len(),
            out@ == old(out)@ + src@.subrange(from as int, i as int),
        decreases to - i,
    {
        out.push(src[i]);
        i = i + 1;
        assert(out@ =~= old(out)@ + src@.subrange(from as int, i as int));
    }
    assert(out@ =~= old(out)@ + src@.subrange(from as int, to as int));
}

/// Appends the digits `digits` with the sign and the exponent `sci` to `out`.
fn push_exponent_form(out: &mut Vec<u8>, negative: bool, digits: &[u8], sci: i64)
    requires
        digits@.len() >= 1,
    ensures
        final(out)@ == old(out)@ + (seq![sign_byte(negative), digits@[0]] + (if digits@.len() > 1 {
            seq![POINT] + digits@.skip(1)
        } else {
            Seq::<u8>::empty()
        }) + seq![LOWER_E] + int_text(sci as int)),
{
    let d: usize = digits.len();
    out.push(if negative { MINUS } else { PLUS });
    out.push(digits[0]);
    if d > 1 {
        out.push(POINT);
        push_range(out, digits, 1, d);
        assert(digits@.subrange(1, d as int) =~= digits@.skip(1));
    }
    out.push(LOWER_E);
    let ghost before = out@;
    push_int(out, sci);
    assert(final(out)@ =~= old(out)@ + (seq![sign_byte(negative), digits@[0]] + (if digits@.len()
        > 1 {
        seq![POINT] + digits@.skip(1)
    } else {
        Seq::<u8>::empty()
    }) + seq![LOWER_E] + int_text(sci as int)));
}

/// Appends the digits `digits`, scaled by ten to the power `exponent`, to
/// `out`, with the sign and without an exponent.
fn push_plain_form(out: &mut Vec<u8>, negative: bool, digits: &[u8], exponent: i32)
    requires
        1 <= digits@.len() <= 20,
        -64 <= exponent <= 64,
    ensures
        final(out)@ == old(out)@ + (seq![sign_byte(negative)] + (if exponent >= 0 {
            digits@ + zeros(exponent as nat)
        } else if digits@.len() + exponent > 0 {
            digits@.take(digits@.len() + exponent) + seq![POINT] + digits@.skip(
                digits@.len() + exponent,
            )
        } else {
            seq![ZERO, POINT] + zeros((-(digits@.len() + exponent)) as nat) + digits@
        })),
{
    let d: usize = digits.len();
    out.push(if negative { MINUS } else { PLUS });
    assert(digits@.subrange(0, d as int) =~= digits@);
    if exponent >= 0 {
        push_range(out, digits, 0, d);
        push_zeros(out, exponent as usize);
        assert(final(out)@ =~= old(out)@ + (seq![sign_byte(negative)] + (digits@ + zeros(
            exponent as nat,
        ))));
    } else if d as i64 + exponent as i64 > 0 {
        let whole: usize = (d as i64 + exponent as i64) as usize;
        push_range(out, digits, 0, whole);
        out.push(POINT);
        push_range(out, digits, whole, d);
        assert(digits@.subrange(0, whole as int) =~= digits@.take(whole as int));
        assert(digits@.subrange(whole as int, d as int) =~= digits@.skip(whole as int));
        assert(final(out)@ =~= old(out)@ + (seq![sign_byte(negative)] + (digits@.take(
            whole as int,
        ) + seq![POINT] + digits@.skip(whole as int))));
    } else {
        let gap: usize = (-(d as i64 + exponent as i64)) as usize;
        out.push(ZERO);
        out.push(POINT);
        push_zeros(out, gap);
        push_range(out, digits, 0, d);
        assert(final(out)@ =~= old(out)@ + (seq![sign_byte(negative)] + (seq![ZERO, POINT] + zeros(
            gap as nat,
        ) + digits@)));
    }
}

/// Appends the text of `v` to `out`.
pub fn push_double(out: &mut Vec<u8>, v: &RespDouble)
    ensures
        final(out)@ == old(out)@ + double_text(v@),
{
    let mut digits: Vec<u8> = Vec::new();
    push_nat(&mut digits, v.mantissa);
    proof {
        lemma_nat_digits(v.mantissa as nat);
        lemma_digits_len(v.mantissa as nat);
        assert(digits@ =~= nat_digits(v.mantissa as nat));
    }
    let d: usize = digits.len();
    let sci: i64 = v.exponent as i64 + d as i64 - 1;
    let with_exponent: bool = v.mantissa == 0 || sci < -8 || sci > 8 || (sci == 8 && v.mantissa
        != 1);
    if with_exponent {
        push_exponent_form(out, v.negative, digits.as_slice(), sci);
    } else {
        push_plain_form(out, v.negative, digits.as_slice(), v.exponent);
    }
}

/// A 64-bit number has at most twenty digits.
pub proof fn lemma_digits_len(n: nat)
    requires
        n <= u64::MAX,
    ensures
        nat_digits(n).len() <= 20,
{
    reveal_with_fuel(nat_digits, 21);
}

/// Removing the zeros at the end of a 64-bit mantissa raises the exponent by
/// no more than 64.
pub proof fn lemma_strip_zeros_exponent(m: nat, e: int)
    requires
        m <= u64::MAX,
    ensures
        e <= strip_zeros(m, e).1 <= e + 64 || m == 0,
{
    lemma_strip_zeros_steps(m, e, 0);
}

/// Each zero removed from the end leaves room for one more doubling.
pub proof fn lemma_strip_zeros_steps(m: nat, e: int, k: nat)
    requires
        m * pow2_bound(k) <= u64::MAX,
        k <= 64,
    ensures
        m > 0 ==> e <= strip_zeros(m, e).1 <= e + 64 - k,
    decreases m,
{
    if m > 0 && m % 10 == 0 {
        lemma_pow2_bound_step(m as int, k);
        lemma_strip_zeros_steps(m / 10, e + 1, k + 1);
    } else if m > 0 {
        lemma_pow2_bound_positive(k);
        if k > 64 {
        }
    }
}

/// Two to the power `k`.
pub open spec fn pow2_bound(k: nat) -> int
    decreases k,
{
    if k == 0 {
        1
    } else {
        2 * pow2_bound((k - 1) as nat)
    }
}

/// Dividing a multiple of ten by ten leaves room for one more doubling, and
/// no 64-bit number can be doubled 64 times.
pub proof fn lemma_pow2_bound_step(m: int, k: nat)
    requires
        m > 0,
        m % 10 == 0,
        m * pow2_bound(k) <= u64::MAX,
        k <= 64,
    ensures
        (m / 10) * pow2_bound(k + 1) <= u64::MAX,
        k < 64,
        m / 10 > 0,
{
    let p = pow2_bound(k);
    assert(pow2_bound(k + 1) == 2 * p);
    lemma_pow2_bound_positive(k);
    assert((m / 10) * (2 * p) <= m * p) by (nonlinear_arith)
        requires
            m > 0,
            m % 10 == 0,
            p >= 1,
    ;
    if k == 64 {
        lemma_pow2_bound_64();
        assert(m * p >= p) by (nonlinear_arith)
            requires
                m >= 1,
                p >= 1,
        ;
    }
}

pub proof fn lemma_pow2_bound_positive(k: nat)
    ensures
        pow2_bound(k) >= 1,
    decreases k,
{
    if k > 0 {
        lemma_pow2_bound_positive((k - 1) as nat);
    }
}

pub proof fn lemma_pow2_bound_64()
    ensures
        pow2_bound(64) > u64::MAX,
{
    reveal_with_fuel(pow2_bound, 65);
}

} // verus!
