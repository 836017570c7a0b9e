//! Decimal numbers as they stand on the wire: ASCII digits with an optional sign.

use vstd::prelude::*;
use crate::ascii::{CR, LF, MINUS, PLUS, ZERO};

verus! {

/// `b` is one of the ASCII digits `0` to `9`.
pub open spec fn is_digit(b: u8) -> bool {
    48 <= b <= 57
}

/// Every byte of `s` is an ASCII digit.
pub open spec fn all_digits(s: Seq<u8>) -> bool {
    forall|i: int| 0 <= i < s.len() ==> is_digit(#[trigger] s[i])
}

/// The number that the digits of `s` write, most significant digit first.
pub open spec fn digits_value(s: Seq<u8>) -> nat
    decreases s.len(),
{
    if s.len() == 0 {
        0
    } else {
        (digits_value(s.drop_last()) * 10 + (s.last() - 48)) as nat
    }
}

/// The digits of `n`, without leading zeros (`0` itself is one digit).
pub open spec fn nat_digits(n: nat) -> Seq<u8>
    decreases n,
{
    if n < 10 {
        seq![(48 + n) as u8]
    } else {
        nat_digits(n / 10).push((48 + n % 10) as u8)
    }
}

/// The text of a signed number: a minus sign for negative ones, no sign otherwise.
pub open spec fn int_text(v: int) -> Seq<u8> {
    if v < 0 {
        seq![MINUS] + nat_digits((-v) as nat)
    } else {
        nat_digits(v as nat)
    }
}

/// The number that `s` writes: an optional `+` or `-`, then at least one digit.
pub open spec fn text_int(s: Seq<u8>) -> Option<int> {
    if s.len() == 0 {
        None
    } else if s[0] == MINUS || s[0] == PLUS {
        let d = s.skip(1);
        if d.len() > 0 && all_digits(d) {
            Some(
                if s[0] == MINUS {
                    -(digits_value(d) as int)
                } else {
                    digits_value(d) as int
                },
            )
        } else {
            None
        }
    } else if all_digits(s) {
        Some(digits_value(s) as int)
    } else {
        None
    }
}

/// The signed 64-bit number that `s` writes, if it writes one that fits.
pub open spec fn text_i64(s: Seq<u8>) -> Option<i64> {
    match text_int(s) {
        Some(v) => if i64::MIN <= v <= i64::MAX {
            Some(v as i64)
        } else {
            None
        },
        None => None,
    }
}

pub proof fn lemma_nat_digits(n: nat)
    ensures
        all_digits(nat_digits(n)),
        nat_digits(n).len() >= 1,
        digits_value(nat_digits(n)) == n,
        n > 0 ==> nat_digits(n)[0] != ZERO,
    decreases n,
{
    if n < 10 {
        let s = nat_digits(n);
        assert(s.drop_last() =~= Seq::<u8>::empty());
        assert(digits_value(s.drop_last()) == 0);
    } else {
        lemma_nat_digits(n / 10);
        let p = nat_digits(n / 10);
        let s = nat_digits(n);
        assert(s.drop_last() =~= p);
        assert(s.last() == (48 + n % 10) as u8);
        assert(s[0] == p[0]);
    }
}

/// One more digit multiplies the number by ten and adds the digit.
pub proof fn lemma_digits_value_push(s: Seq<u8>, b: u8)
    requires
        is_digit(b),
    ensures
        digits_value(s.push(b)) == digits_value(s) * 10 + (b - 48),
{
    assert(s.push(b).drop_last() =~= s);
}

/// Reading back the text of a number gives the number.
pub proof fn lemma_text_int_of_int_text(v: int)
    ensures
        text_int(int_text(v)) == Some(v),
{
    if v < 0 {
        let n = (-v) as nat;
        lemma_nat_digits(n);
        let s = int_text(v);
        assert(s.skip(1) =~= nat_digits(n));
    } else {
        lemma_nat_digits(v as nat);
    }
}

/// The text of a number holds no byte of a line terminator.
pub proof fn lemma_int_text_bytes(v: int)
    ensures
        forall|i: int|
            0 <= i < int_text(v).len() ==> #[trigger] int_text(v)[i] != CR && int_text(v)[i] != LF,
        int_text(v).len() >= 1,
{
    if v < 0 {
        lemma_nat_digits((-v) as nat);
    } else {
        lemma_nat_digits(v as nat);
    }
}

/// Appends the digits of `n` to `out`.
pub fn push_nat(out: &mut Vec<u8>, n: u64)
    ensures
        final(out)@ == old(out)@ + nat_digits(n as nat),
    decreases n,
{
    if n >= 10 {
        push_nat(out, n / 10);
    }
    let d: u8 = (48 + n % 10) as u8;
    out.push(d);
    proof {
        if n >= 10 {
            assert(final(out)@ =~= old(out)@ + nat_digits(n as nat));
        } else {
            assert(final(out)@ =~= old(out)@ + nat_digits(n as nat));
        }
    }
}

/// Appends the text of `v` to `out`.
pub fn push_int(out: &mut Vec<u8>, v: i64)
    ensures
        final(out)@ == old(out)@ + int_text(v as int),
{
    if v < 0 {
        out.push(MINUS);
        let m: u64 = if v == i64::MIN {
            9223372036854775808u64
        } else {
            (-v) as u64
        };
        push_nat(out, m);
        assert(final(out)@ =~= old(out)@ + int_text(v as int));
    } else {
        push_nat(out, v as u64);
    }
}

/// The number that the digits `buf[from..to]` write, or `None` when it does
/// not fit in 64 bits.
pub(crate) fn read_digits(buf: &[u8], from: usize, to: usize) -> (r: Option<u64>)
    requires
        from <= to <= buf@.len(),
        all_digits(buf@.subrange(from as int, to as int)),
    ensures
        match r {
            Some(v) => v == digits_value(buf@.subrange(from as int, to as int)),
            None => digits_value(buf@.subrange(from as int, to as int)) > u64::MAX,
        },
{
    let mut acc: u64 = 0;
    let mut i: usize = from;
    let ghost s = buf@.subrange(from as int, to as int);
    while i < to
        invariant
            from <= i <= to <= buf@.len(),
            s == buf@.subrange(from as int, to as int),
            all_digits(s),
            acc == digits_value(s.take(i - from)),
        decreases to - i,
    {
        let b: u8 = buf[i];
        proof {
            assert(s[i - from] == b);
            assert(s.take(i - from + 1) =~= s.take(i - from).push(b));
            lemma_digits_value_push(s.take(i - from), b);
            lemma_digits_value_monotone(s, i - from + 1);
        }
        let d: u64 = (b - 48) as u64;
        if acc > (u64::MAX - d) / 10 {
            return None;
        }
        acc = acc * 10 + d;
        i = i + 1;
    }
    proof {
        assert(s.take(to - from) =~= s);
    }
    Some(acc)
}

/// A prefix of a digit string writes no more than the whole string.
pub proof fn lemma_digits_value_monotone(s: Seq<u8>, k: int)
    requires
        all_digits(s),
        0 <= k <= s.len(),
    ensures
        digits_value(s.take(k)) <= digits_value(s),
    decreases s.len() - k,
{
    if k == s.len() {
        assert(s.take(k) =~= s);
    } else {
        lemma_digits_value_monotone(s, k + 1);
        assert(s.take(k + 1) =~= s.take(k).push(s[k]));
        lemma_digits_value_push(s.take(k), s[k]);
    }
}

/// Tells whether every byte of `buf[from..to]` is a digit.
pub(crate) fn check_digits(buf: &[u8], from: usize, to: usize) -> (r: bool)
    requires
        from <= to <= buf@.len(),
    ensures
        r == all_digits(buf@.subrange(from as int, to as int)),
{
    let mut i: usize = from;
    let ghost s = buf@.subrange(from as int, to as int);
    while i < to
        invariant
            from <= i <= to <= buf@.len(),
            s == buf@.subrange(from as int, to as int),
            forall|j: int| 0 <= j < i - from ==> is_digit(#[trigger] s[j]),
        decreases to - i,
    {
        if buf[i] < 48 || buf[i] > 57 {
            assert(!is_digit(s[i - from]));
            return false;
        }
        i = i + 1;
    }
    true
}

/// The sign and the magnitude that `buf[from..to]` writes, as `text_int`
/// reads them. The magnitude is `None` when it does not fit in 64 bits.
pub(crate) fn read_int(buf: &[u8], from: usize, to: usize) -> (r: Option<(bool, Option<u64>)>)
    requires
        from <= to <= buf@.len(),
    ensures
        match r {
            None => text_int(buf@.subrange(from as int, to as int)) is None,
            Some((negative, magnitude)) => match text_int(buf@.subrange(from as int, to as int)) {
                None => false,
                Some(v) => {
                    &&& negative ==> v <= 0
                    &&& !negative ==> v >= 0
                    &&& match magnitude {
                        Some(m) => m == (if negative { -v } else { v }),
                        None => (if negative { -v } else { v }) > u64::MAX,
                    }
                },
            },
        },
{
    let ghost s = buf@.subrange(from as int, to as int);
    if from == to {
        return None;
    }
    assert(s[0] == buf@[from as int]);
    let signed: bool = buf[from] == MINUS || buf[from] == PLUS;
    let negative: bool = buf[from] == MINUS;
    let start: usize = if signed { from + 1 } else { from };
    proof {
        if signed {
            assert(s.skip(1) =~= buf@.subrange(start as int, to as int));
        }
    }
    if start == to || !check_digits(buf, start, to) {
        return None;
    }
    Some((negative, read_digits(buf, start, to)))
}

/// The signed 64-bit number that `buf[from..to]` writes.
pub(crate) fn read_i64(buf: &[u8], from: usize, to: usize) -> (r: Option<i64>)
    requires
        from <= to <= buf@.len(),
    ensures
        r == text_i64(buf@.subrange(from as int, to as int)),
{
    match read_int(buf, from, to) {
        None => None,
        Some((negative, magnitude)) => match magnitude {
            None => None,
            Some(m) => {
                if negative {
                    if m > 9223372036854775808u64 {
                        None
                    } else if m == 9223372036854775808u64 {
                        Some(i64::MIN)
                    } else {
                        Some(-(m as i64))
                    }
                } else if m > 9223372036854775807u64 {
                    None
                } else {
                    Some(m as i64)
                }
            },
        },
    }
}

/// What the length in a header says.
pub enum HeaderLength {
    /// Not a number, or a negative one other than `-1`.
    Invalid,
    /// `-1`, the mark of a null value.
    Null,
    /// A length that a buffer could hold.
    Count(usize),
    /// A length beyond what any buffer holds.
    Beyond,
}

/// What a header with the text `s` says of the length.
pub open spec fn header_length(s: Seq<u8>) -> HeaderLength {
    match text_int(s) {
        None => HeaderLength::Invalid,
        Some(v) => if v == -1 {
            HeaderLength::Null
        } else if v < 0 {
            HeaderLength::Invalid
        } else if v <= usize::MAX {
            HeaderLength::Count(v as usize)
        } else {
            HeaderLength::Beyond
        },
    }
}

/// Reads the length that the header text `buf[from..to]` holds.
pub(crate) fn read_length(buf: &[u8], from: usize, to: usize) -> (r: HeaderLength)
    requires
        from <= to <= buf@.len(),
    ensures
        r == header_length(buf@.subrange(from as int, to as int)),
{
    match read_int(buf, from, to) {
        None => HeaderLength::Invalid,
        Some((negative, magnitude)) => match magnitude {
            None => if negative {
                HeaderLength::Invalid
            } else {
                HeaderLength::Beyond
            },
            Some(m) => {
                if negative {
                    if m == 1 {
                        HeaderLength::Null
                    } else if m == 0 {
                        HeaderLength::Count(0)
                    } else {
                        HeaderLength::Invalid
                    }
                } else if m > usize::MAX as u64 {
                    HeaderLength::Beyond
                } else {
                    HeaderLength::Count(m as usize)
                }
            },
        },
    }
}

/// Reads the digits `buf[from..to]` behind digits already read, whose value
/// is `acc`: the value of all of them, or `None` when it does not fit in 64 bits.
pub(crate) fn fold_digits(
    acc: u64,
    buf: &[u8],
    from: usize,
    to: usize,
    Ghost(prior): Ghost<Seq<u8>>,
) -> (r: Option<u64>)
    requires
        from <= to <= buf@.len(),
        all_digits(prior),
        all_digits(buf@.subrange(from as int, to as int)),
        acc == digits_value(prior),
    ensures
        match r {
            Some(v) => v == digits_value(prior + buf@.subrange(from as int, to as int)),
            None => digits_value(prior + buf@.subrange(from as int, to as int)) > u64::MAX,
        },
{
    let mut acc: u64 = acc;
    let mut i: usize = from;
    let ghost s = prior + buf@.subrange(from as int, to as int);
    let ghost p = prior.len() as int;
    assert(s.take(p) =~= prior);
    while i < to
        invariant
            from <= i <= to <= buf@.len(),
            s == prior + buf@.subrange(from as int, to as int),
            p == prior.len(),
            all_digits(s),
            acc == digits_value(s.take(p + i - from)),
        decreases to - i,
    {
        let b: u8 = buf[i];
        proof {
            assert(s[p + i - from] == b);
            assert(s.take(p + i - from + 1) =~= s.take(p + i - from).push(b));
            lemma_digits_value_push(s.take(p + i - from), b);
            lemma_digits_value_monotone(s, p + i - from + 1);
        }
        let d: u64 = (b - 48) as u64;
        if acc > (u64::MAX - d) / 10 {
            return None;
        }
        acc = acc * 10 + d;
        i = i + 1;
    }
    proof {
        assert(s.take(p + to - from) =~= s);
    }
    Some(acc)
}

} // verus!
