//! Facts about spans: their bounds, and counts that no sequence can satisfy.

use vstd::prelude::*;
use crate::ascii::{CR, LF};
use crate::assoc::put;
use crate::frame::{FrameView, RespError};
use crate::grammar::{
    entries_span, entries_value, frame_span, frame_value, header_line, items_span, items_value,
    key_span, key_value, shifted,
};
use crate::line::lemma_line_end_is_first;

verus! {

/// A header line ends within the sequence, behind the prefix byte and the
/// terminator.
pub proof fn lemma_header_line(s: Seq<u8>)
    ensures
        match header_line(s) {
            Some((head, body)) => 3 <= body <= s.len() && head == s.subrange(1, body - 2) && s[body
                - 2] == CR && s[body - 1] == LF,
            None => true,
        },
{
    lemma_line_end_is_first(s, 1);
}

/// A frame spans at least three bytes, all of them within the sequence.
pub proof fn lemma_frame_span_bounds(s: Seq<u8>)
    ensures
        match frame_span(s) {
            Ok(n) => 3 <= n <= s.len(),
            Err(_) => true,
        },
    decreases s.len(), 0nat,
{
    reveal(frame_span);
    lemma_header_line(s);
    if s.len() > 0 {
        match header_line(s) {
            Some((head, body)) => {
                lemma_items_span_bounds(s.skip(body as int), 0);
                match crate::decimal::text_int(head) {
                    Some(len) => {
                        if len >= 0 {
                            lemma_items_span_bounds(s.skip(body as int), len as nat);
                            lemma_entries_span_bounds(s.skip(body as int), len as nat);
                        }
                    },
                    None => {},
                }
            },
            None => {},
        }
    }
}

/// A number of frames spans at least as many bytes, all of them within the
/// sequence.
pub proof fn lemma_items_span_bounds(s: Seq<u8>, count: nat)
    ensures
        match items_span(s, count) {
            Ok(m) => count <= m <= s.len(),
            Err(_) => true,
        },
    decreases s.len(), count + 1,
{
    reveal(frame_span);
    reveal(frame_value);
    if count > 0 {
        lemma_frame_span_bounds(s);
        match frame_span(s) {
            Ok(n) => {
                lemma_items_span_bounds(s.skip(n as int), (count - 1) as nat);
            },
            Err(_) => {},
        }
    }
}

/// The key of a map entry spans at least three bytes, within the sequence.
pub proof fn lemma_key_span_bounds(s: Seq<u8>)
    ensures
        match key_span(s) {
            Ok(k) => 3 <= k <= s.len(),
            Err(_) => true,
        },
{
    lemma_header_line(s);
}

/// A number of map entries spans at least as many bytes, all of them within
/// the sequence.
pub proof fn lemma_entries_span_bounds(s: Seq<u8>, count: nat)
    ensures
        match entries_span(s, count) {
            Ok(m) => count <= m <= s.len(),
            Err(_) => true,
        },
    decreases s.len(), count + 1,
{
    reveal(frame_span);
    reveal(frame_value);
    if count > 0 {
        lemma_key_span_bounds(s);
        match key_span(s) {
            Ok(k) => {
                lemma_frame_span_bounds(s.skip(k as int));
                match frame_span(s.skip(k as int)) {
                    Ok(n) => {
                        lemma_entries_span_bounds(s.skip((k + n) as int), (count - 1) as nat);
                    },
                    Err(_) => {},
                }
            },
            Err(_) => {},
        }
    }
}

/// A sequence cannot hold more frames than bytes: every count above its
/// length fails, and fails in the same way.
pub proof fn lemma_items_span_excess(s: Seq<u8>, c1: nat, c2: nat)
    requires
        c1 > s.len(),
        c2 > s.len(),
    ensures
        items_span(s, c1) is Err,
        items_span(s, c1) == items_span(s, c2),
    decreases s.len(),
{
    reveal(frame_span);
    reveal(frame_value);
    lemma_frame_span_bounds(s);
    match frame_span(s) {
        Ok(n) => {
            lemma_items_span_excess(s.skip(n as int), (c1 - 1) as nat, (c2 - 1) as nat);
        },
        Err(_) => {},
    }
}

/// A sequence cannot hold more map entries than bytes: every count above its
/// length fails, and fails in the same way.
pub proof fn lemma_entries_span_excess(s: Seq<u8>, c1: nat, c2: nat)
    requires
        c1 > s.len(),
        c2 > s.len(),
    ensures
        entries_span(s, c1) is Err,
        entries_span(s, c1) == entries_span(s, c2),
    decreases s.len(),
{
    reveal(frame_span);
    reveal(frame_value);
    lemma_key_span_bounds(s);
    match key_span(s) {
        Ok(k) => {
            lemma_frame_span_bounds(s.skip(k as int));
            match frame_span(s.skip(k as int)) {
                Ok(n) => {
                    lemma_entries_span_excess(
                        s.skip((k + n) as int),
                        (c1 - 1) as nat,
                        (c2 - 1) as nat,
                    );
                },
                Err(_) => {},
            }
        },
        Err(_) => {},
    }
}

/// One step of a run of frames: the first frame, then the others.
pub proof fn lemma_items_step(s: Seq<u8>, count: nat, acc: Seq<FrameView>)
    requires
        count > 0,
    ensures
        match frame_span(s) {
            Ok(n) => n <= s.len() && items_span(s, count) == shifted(
                items_span(s.skip(n as int), (count - 1) as nat),
                n,
            ) && items_value(s, count, acc) == match frame_value(s) {
                Ok(f) => items_value(s.skip(n as int), (count - 1) as nat, acc.push(f)),
                Err(e) => Err(e),
            },
            Err(e) => items_span(s, count) == Err::<nat, RespError>(e) && items_value(s, count, acc)
                == Err::<Seq<FrameView>, RespError>(e),
        },
{
    reveal(frame_span);
    reveal(frame_value);
    lemma_frame_span_bounds(s);
}

/// One step of a run of map entries: the first key and its frame, then the
/// other entries.
pub proof fn lemma_entries_step(s: Seq<u8>, count: nat, acc: Seq<(Seq<u8>, FrameView)>)
    requires
        count > 0,
    ensures
        match key_span(s) {
            Ok(k) => k <= s.len() && match frame_span(s.skip(k as int)) {
                Ok(n) => k + n <= s.len() && entries_span(s, count) == shifted(
                    entries_span(s.skip((k + n) as int), (count - 1) as nat),
                    k + n,
                ) && entries_value(s, count, acc) == match key_value(s) {
                    Ok(key) => match frame_value(s.skip(k as int)) {
                        Ok(f) => entries_value(
                            s.skip((k + n) as int),
                            (count - 1) as nat,
                            put(acc, key, f),
                        ),
                        Err(e) => Err(e),
                    },
                    Err(e) => Err(e),
                },
                Err(e) => entries_span(s, count) == Err::<nat, RespError>(e) && entries_value(
                    s,
                    count,
                    acc,
                ) == Err::<Seq<(Seq<u8>, FrameView)>, RespError>(e),
            },
            Err(e) => entries_span(s, count) == Err::<nat, RespError>(e) && entries_value(
                s,
                count,
                acc,
            ) == Err::<Seq<(Seq<u8>, FrameView)>, RespError>(e),
        },
{
    reveal(frame_span);
    reveal(frame_value);
    lemma_key_span_bounds(s);
    if let Ok(k) = key_span(s) {
        lemma_frame_span_bounds(s.skip(k as int));
    }
}

} // verus!
