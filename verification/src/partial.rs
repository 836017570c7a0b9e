//! Partial input: a buffer that ends before its first frame does is never
//! taken for a frame, nor for a malformed one.

use vstd::prelude::*;
use crate::ascii::{DOLLAR, PERCENT, STAR, TILDE};
use crate::decimal::text_int;
use crate::frame::{FrameView, RespError};
use crate::grammar::{decoded, entries_span, frame_span, header_line, items_span, key_span};
use crate::line::{lemma_line_end_cut, lemma_line_end_is_first};
use crate::local::{lemma_frame_local, lemma_header_line_local, lemma_key_local, same_start};
use crate::roundtrip::{faithful, lemma_frame_read};
use crate::span::{
    lemma_entries_span_bounds, lemma_entries_step, lemma_frame_span_bounds, lemma_header_line,
    lemma_items_span_bounds, lemma_items_step, lemma_key_span_bounds,
};
use crate::wire::wire;

verus! {

/// A sequence and its first `k` bytes start with the same `k` bytes.
pub proof fn lemma_take_same_start(s: Seq<u8>, k: nat)
    requires
        k <= s.len(),
    ensures
        same_start(s, s.take(k as int), k),
{
    assert(s.take(k as int).take(k as int) =~= s.take(k as int));
}

/// A header line that is cut before its end is no header line yet.
pub proof fn lemma_header_cut(s: Seq<u8>, k: nat)
    requires
        header_line(s) matches Some((_, body)) && k < body,
        k <= s.len(),
    ensures
        header_line(s.take(k as int)) is None,
{
    lemma_header_line(s);
    lemma_line_end_is_first(s, 1);
    let body = header_line(s).unwrap().1;
    lemma_line_end_cut(s, 1, body - 2, k as int);
}

/// The key of a map entry that is cut before its end is not complete.
pub proof fn lemma_key_cut(s: Seq<u8>, k: nat)
    requires
        key_span(s) matches Ok(n) && k < n,
    ensures
        key_span(s.take(k as int)) == Err::<nat, RespError>(RespError::NotComplete),
{
    lemma_key_span_bounds(s);
    if k > 0 {
        assert(s.take(k as int)[0] == s[0]);
        lemma_header_cut(s, k);
    }
}

/// A frame that is cut before its end is not complete.
pub proof fn lemma_frame_cut(s: Seq<u8>, k: nat)
    requires
        frame_span(s) matches Ok(n) && k < n,
    ensures
        frame_span(s.take(k as int)) == Err::<nat, RespError>(RespError::NotComplete),
    decreases s.len(), 0nat,
{
    reveal(frame_span);
    lemma_frame_span_bounds(s);
    lemma_header_line(s);
    let t = s.take(k as int);
    let n = frame_span(s).unwrap();
    if k > 0 {
        assert(t[0] == s[0]);
        let (head, body) = header_line(s).unwrap();
        if k < body {
            lemma_header_cut(s, k);
        } else {
            lemma_take_same_start(s, k);
            lemma_header_line_local(s, t, k);
            if s[0] == DOLLAR {
            } else if s[0] == STAR || s[0] == TILDE {
                let len = text_int(head).unwrap();
                if len >= 0 {
                    assert(t.skip(body as int) =~= s.skip(body as int).take(k - body));
                    lemma_items_cut(s.skip(body as int), len as nat, (k - body) as nat);
                }
            } else if s[0] == PERCENT {
                let len = text_int(head).unwrap();
                if len >= 0 {
                    assert(t.skip(body as int) =~= s.skip(body as int).take(k - body));
                    lemma_entries_cut(s.skip(body as int), len as nat, (k - body) as nat);
                }
            }
        }
    }
}

/// A run of frames that is cut before its end is not complete.
pub proof fn lemma_items_cut(s: Seq<u8>, count: nat, k: nat)
    requires
        items_span(s, count) matches Ok(m) && k < m,
    ensures
        items_span(s.take(k as int), count) == Err::<nat, RespError>(RespError::NotComplete),
    decreases s.len(), count + 1,
{
    let t = s.take(k as int);
    lemma_items_span_bounds(s, count);
    if count > 0 {
        lemma_items_step(s, count, Seq::empty());
        lemma_items_step(t, count, Seq::empty());
        lemma_frame_span_bounds(s);
        let first = frame_span(s).unwrap();
        lemma_items_span_bounds(s.skip(first as int), (count - 1) as nat);
        if k < first {
            lemma_frame_cut(s, k);
        } else {
            lemma_take_same_start(s, k);
            lemma_frame_local(s, t, k);
            assert(t.skip(first as int) =~= s.skip(first as int).take(k - first));
            lemma_items_cut(s.skip(first as int), (count - 1) as nat, (k - first) as nat);
        }
    }
}

/// A run of map entries that is cut before its end is not complete.
pub proof fn lemma_entries_cut(s: Seq<u8>, count: nat, k: nat)
    requires
        entries_span(s, count) matches Ok(m) && k < m,
    ensures
        entries_span(s.take(k as int), count) == Err::<nat, RespError>(RespError::NotComplete),
    decreases s.len(), count + 1,
{
    let t = s.take(k as int);
    lemma_entries_span_bounds(s, count);
    if count > 0 {
        lemma_entries_step(s, count, Seq::empty());
        lemma_entries_step(t, count, Seq::empty());
        lemma_key_span_bounds(s);
        let key = key_span(s).unwrap();
        lemma_frame_span_bounds(s.skip(key as int));
        let value = frame_span(s.skip(key as int)).unwrap();
        lemma_entries_span_bounds(s.skip((key + value) as int), (count - 1) as nat);
        if k < key {
            lemma_key_cut(s, k);
        } else {
            lemma_take_same_start(s, k);
            lemma_key_local(s, t, k);
            assert(t.skip(key as int) =~= s.skip(key as int).take(k - key));
            if k < key + value {
                lemma_frame_cut(s.skip(key as int), (k - key) as nat);
            } else {
                lemma_take_same_start(s.skip(key as int), (k - key) as nat);
                lemma_frame_local(s.skip(key as int), t.skip(key as int), (k - key) as nat);
                assert(t.skip((key + value) as int) =~= s.skip((key + value) as int).take(
                    k - key - value,
                ));
                lemma_entries_cut(
                    s.skip((key + value) as int),
                    (count - 1) as nat,
                    (k - key - value) as nat,
                );
            }
        }
    }
}

/// Every proper start of a frame's bytes decodes as `NotComplete`.
pub proof fn lemma_decoded_cut(s: Seq<u8>, k: nat)
    requires
        frame_span(s) matches Ok(n) && k < n,
    ensures
        decoded(s.take(k as int)) == Err::<(FrameView, nat), RespError>(RespError::NotComplete),
{
    lemma_frame_cut(s, k);
}

/// Partial feed: of the encoding of a frame, every start that is shorter
/// than the whole decodes as `NotComplete`, and the whole decodes as the
/// frame and is taken to its last byte.
pub proof fn lemma_partial_feed(f: FrameView, k: nat)
    requires
        faithful(f),
        k <= wire(f).len(),
    ensures
        decoded(wire(f).take(k as int)) == (if k < wire(f).len() {
            Err::<(FrameView, nat), RespError>(RespError::NotComplete)
        } else {
            Ok((f, k))
        }),
{
    lemma_frame_read(f, Seq::empty());
    assert(wire(f) + Seq::<u8>::empty() =~= wire(f));
    if k < wire(f).len() {
        lemma_frame_cut(wire(f), k);
    } else {
        assert(wire(f).take(k as int) =~= wire(f));
    }
}

} // verus!
