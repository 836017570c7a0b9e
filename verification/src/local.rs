//! Locality: the span and the value of a frame depend on the bytes of the
//! frame alone, not on what follows them.

use vstd::prelude::*;
use crate::ascii::{DOLLAR, PERCENT, STAR, TILDE};
use crate::decimal::text_int;
use crate::frame::FrameView;
use crate::grammar::{
    decoded, entries_span, entries_value, frame_span, frame_value, header_line, items_span,
    items_value, key_span, key_value,
};
use crate::line::{lemma_line_end_is_first, lemma_line_end_local};
use crate::span::{
    lemma_entries_span_bounds, lemma_entries_step, lemma_frame_span_bounds, lemma_header_line,
    lemma_items_span_bounds, lemma_items_step, lemma_key_span_bounds,
};

verus! {

/// `s` and `t` hold the same first `n` bytes.
pub open spec fn same_start(s: Seq<u8>, t: Seq<u8>, n: nat) -> bool {
    n <= s.len() && n <= t.len() && s.take(n as int) == t.take(n as int)
}

/// Sequences with the same start have the same shorter starts, and the same
/// bytes there.
pub proof fn lemma_same_start(s: Seq<u8>, t: Seq<u8>, n: nat)
    requires
        same_start(s, t, n),
    ensures
        forall|k: nat| k <= n ==> same_start(s, t, k),
        forall|i: int| 0 <= i < n ==> s[i] == t[i],
        forall|i: int, j: int| 0 <= i <= j <= n ==> #[trigger] s.subrange(i, j) == t.subrange(i, j),
        forall|k: nat, m: nat|
            k + m <= n ==> #[trigger] same_start(s.skip(k as int), t.skip(k as int), m),
{
    assert forall|i: int| 0 <= i < n implies s[i] == t[i] by {
        assert(s[i] == s.take(n as int)[i]);
        assert(t[i] == t.take(n as int)[i]);
    }
    assert forall|k: nat| k <= n implies same_start(s, t, k) by {
        assert(s.take(k as int) =~= t.take(k as int));
    }
    assert forall|i: int, j: int| 0 <= i <= j <= n implies #[trigger] s.subrange(i, j)
        == t.subrange(i, j) by {
        assert(s.subrange(i, j) =~= t.subrange(i, j));
    }
    assert forall|k: nat, m: nat| k + m <= n implies #[trigger] same_start(
        s.skip(k as int),
        t.skip(k as int),
        m,
    ) by {
        assert(s.skip(k as int).take(m as int) =~= t.skip(k as int).take(m as int));
    }
}

/// A header line of `s` that ends within the common start is the header line of `t`.
pub proof fn lemma_header_line_local(s: Seq<u8>, t: Seq<u8>, n: nat)
    requires
        same_start(s, t, n),
        header_line(s) matches Some((_, body)) && body <= n,
    ensures
        header_line(t) == header_line(s),
{
    lemma_header_line(s);
    lemma_same_start(s, t, n);
    let body = header_line(s).unwrap().1;
    let e = body - 2;
    lemma_line_end_is_first(s, 1);
    assert(s.subrange(0, e + 2) == t.subrange(0, e + 2));
    lemma_line_end_local(s, t, 1, e);
    assert(s.subrange(1, e) == t.subrange(1, e));
}

/// The key of a map entry of `s` is the key of the entry of `t`.
pub proof fn lemma_key_local(s: Seq<u8>, t: Seq<u8>, n: nat)
    requires
        same_start(s, t, n),
        key_span(s) matches Ok(k) && k <= n,
    ensures
        key_span(t) == key_span(s),
        key_value(t) == key_value(s),
{
    lemma_key_span_bounds(s);
    lemma_same_start(s, t, n);
    lemma_header_line_local(s, t, n);
}

/// A frame of `s` that ends within the common start is the frame of `t`.
pub proof fn lemma_frame_local(s: Seq<u8>, t: Seq<u8>, n: nat)
    requires
        same_start(s, t, n),
        frame_span(s) matches Ok(m) && m <= n,
    ensures
        frame_span(t) == frame_span(s),
        frame_value(t) == frame_value(s),
    decreases s.len(), 0nat,
{
    reveal(frame_span);
    reveal(frame_value);
    lemma_frame_span_bounds(s);
    lemma_header_line(s);
    lemma_same_start(s, t, n);
    let m = frame_span(s).unwrap();
    let (head, body) = header_line(s).unwrap();
    assert(body <= m) by {
        lemma_body_within_span(s);
    }
    lemma_header_line_local(s, t, n);
    assert(s[0] == t[0]);
    if s[0] == DOLLAR {
        let len = text_int(head).unwrap();
        if len >= 0 {
            assert(s[body + len] == t[body + len]);
            assert(s[body + len + 1] == t[body + len + 1]);
            assert(s.subrange(body as int, body + len) == t.subrange(body as int, body + len));
        }
    } else if s[0] == STAR || s[0] == TILDE {
        let len = text_int(head).unwrap();
        if len >= 0 {
            let inner = (m - body) as nat;
            assert(same_start(s.skip(body as int), t.skip(body as int), inner));
            lemma_items_local(
                s.skip(body as int),
                t.skip(body as int),
                inner,
                len as nat,
                Seq::empty(),
            );
        }
    } else if s[0] == PERCENT {
        let len = text_int(head).unwrap();
        if len >= 0 {
            let inner = (m - body) as nat;
            assert(same_start(s.skip(body as int), t.skip(body as int), inner));
            lemma_entries_local(
                s.skip(body as int),
                t.skip(body as int),
                inner,
                len as nat,
                Seq::empty(),
            );
        }
    }
}

/// The header line of a frame lies within its span.
pub proof fn lemma_body_within_span(s: Seq<u8>)
    requires
        frame_span(s) is Ok,
    ensures
        header_line(s) matches Some((_, body)) && body <= frame_span(s).unwrap(),
{
    reveal(frame_span);
    lemma_header_line(s);
    let (head, body) = header_line(s).unwrap();
    if let Some(len) = text_int(head) {
        if len >= 0 {
            lemma_items_span_bounds(s.skip(body as int), len as nat);
            lemma_entries_span_bounds(s.skip(body as int), len as nat);
        }
    }
}

/// A run of frames of `s` that ends within the common start is the run of `t`.
pub proof fn lemma_items_local(s: Seq<u8>, t: Seq<u8>, n: nat, count: nat, acc: Seq<FrameView>)
    requires
        same_start(s, t, n),
        items_span(s, count) matches Ok(m) && m <= n,
    ensures
        items_span(t, count) == items_span(s, count),
        items_value(t, count, acc) == items_value(s, count, acc),
    decreases s.len(), count + 1,
{
    if count > 0 {
        lemma_items_step(s, count, acc);
        lemma_items_step(t, count, acc);
        lemma_same_start(s, t, n);
        let first = frame_span(s).unwrap();
        lemma_frame_span_bounds(s);
        lemma_items_span_bounds(s.skip(first as int), (count - 1) as nat);
        lemma_frame_local(s, t, n);
        assert(same_start(s.skip(first as int), t.skip(first as int), (n - first) as nat));
        if let Ok(f) = frame_value(s) {
            lemma_items_local(
                s.skip(first as int),
                t.skip(first as int),
                (n - first) as nat,
                (count - 1) as nat,
                acc.push(f),
            );
        } else {
            lemma_items_local(
                s.skip(first as int),
                t.skip(first as int),
                (n - first) as nat,
                (count - 1) as nat,
                acc,
            );
        }
    }
}

/// A run of map entries of `s` that ends within the common start is the run of `t`.
pub proof fn lemma_entries_local(
    s: Seq<u8>,
    t: Seq<u8>,
    n: nat,
    count: nat,
    acc: Seq<(Seq<u8>, FrameView)>,
)
    requires
        same_start(s, t, n),
        entries_span(s, count) matches Ok(m) && m <= n,
    ensures
        entries_span(t, count) == entries_span(s, count),
        entries_value(t, count, acc) == entries_value(s, count, acc),
    decreases s.len(), count + 1,
{
    if count > 0 {
        lemma_entries_step(s, count, acc);
        lemma_entries_step(t, count, acc);
        lemma_same_start(s, t, n);
        lemma_key_span_bounds(s);
        let k = key_span(s).unwrap();
        lemma_frame_span_bounds(s.skip(k as int));
        let v = frame_span(s.skip(k as int)).unwrap();
        lemma_entries_span_bounds(s.skip((k + v) as int), (count - 1) as nat);
        lemma_key_local(s, t, n);
        assert(same_start(s.skip(k as int), t.skip(k as int), (n - k) as nat));
        lemma_frame_local(s.skip(k as int), t.skip(k as int), (n - k) as nat);
        assert(same_start(s.skip((k + v) as int), t.skip((k + v) as int), (n - k - v) as nat));
        let next = match (key_value(s), frame_value(s.skip(k as int))) {
            (Ok(key), Ok(f)) => crate::assoc::put(acc, key, f),
            _ => acc,
        };
        lemma_entries_local(
            s.skip((k + v) as int),
            t.skip((k + v) as int),
            (n - k - v) as nat,
            (count - 1) as nat,
            next,
        );
    }
}

/// Decoding reads the bytes of the first frame alone: a sequence that starts
/// with the same frame decodes to the same frame.
pub proof fn lemma_decoded_local(s: Seq<u8>, t: Seq<u8>)
    requires
        frame_span(s) matches Ok(n) && same_start(s, t, n),
    ensures
        decoded(t) == decoded(s),
{
    lemma_frame_local(s, t, frame_span(s).unwrap());
}

} // verus!
