//! What decoding gives can be given back: every decoded frame is one that
//! an encoding gives back.

use vstd::prelude::*;
use crate::ascii::{DOLLAR, MINUS, PERCENT, PLUS, STAR, TILDE};
use crate::assoc::{has_key, lemma_lower_bound, lemma_put_sorted, put, slot, sorted};
use crate::decimal::text_int;
use crate::double::{is_normal, strip_zeros, text_double, text_magnitude, DoubleView};
use crate::double_trip::representable;
use crate::frame::FrameView;
use crate::grammar::{
    decoded, entries_value, frame_span, frame_value, header_line, items_value, key_span, key_value,
    line_value,
};
use crate::line::{crlf_at, lemma_line_end_is_first};
use crate::roundtrip::{faithful, line_text, no_crlf};
use crate::span::{
    lemma_entries_step, lemma_frame_span_bounds, lemma_header_line, lemma_items_step,
    lemma_key_span_bounds,
};

verus! {

/// The text of a header line holds no line terminator.
pub proof fn lemma_header_text(s: Seq<u8>)
    ensures
        header_line(s) matches Some((head, _)) ==> no_crlf(head),
{
    lemma_header_line(s);
    lemma_line_end_is_first(s, 1);
    if let Some((head, body)) = header_line(s) {
        assert forall|j: int| !crlf_at(head, j) by {
            if crlf_at(head, j) {
                assert(head[j] == s[j + 1]);
                assert(head[j + 1] == s[j + 2]);
                assert(crlf_at(s, j + 1));
            }
        }
    }
}

/// The normal form is in normal form, and its mantissa is no more than the
/// one it was made of.
pub proof fn lemma_strip_zeros_normal(m: nat, e: int)
    ensures
        strip_zeros(m, e).0 <= m,
        is_normal(
            DoubleView {
                negative: false,
                mantissa: strip_zeros(m, e).0,
                exponent: strip_zeros(m, e).1,
            },
        ),
    decreases m,
{
    if m != 0 && m % 10 == 0 {
        lemma_strip_zeros_normal(m / 10, e + 1);
    }
}

/// A number that was read is one that the double frame can hold.
pub proof fn lemma_double_given(t: Seq<u8>)
    ensures
        text_double(t) matches Some(d) ==> representable(d),
{
    if let Some(d) = text_double(t) {
        let u = if t.len() > 0 && (t[0] == PLUS || t[0] == MINUS) {
            t.skip(1)
        } else {
            t
        };
        assert(text_magnitude(d.negative, u) == Some(d));
        assert forall|m: nat, e: int| #[trigger] strip_zeros(m, e).0 <= m && is_normal(
            DoubleView {
                negative: false,
                mantissa: strip_zeros(m, e).0,
                exponent: strip_zeros(m, e).1,
            },
        ) by {
            lemma_strip_zeros_normal(m, e);
        }
    }
}

/// The frame of one line that was read is faithful.
pub proof fn lemma_line_given(prefix: u8, head: Seq<u8>)
    requires
        no_crlf(head),
    ensures
        line_value(prefix, head) matches Ok(f) ==> faithful(f),
{
    lemma_double_given(head);
}

/// Every entry of `es` has a line text as its key and a faithful value.
pub open spec fn entries_faithful(es: Seq<(Seq<u8>, FrameView)>) -> bool {
    forall|i: int|
        0 <= i < es.len() ==> line_text((#[trigger] es[i]).0) && faithful(es[i].1)
}

/// Setting a faithful entry keeps the entries faithful.
pub proof fn lemma_put_faithful(es: Seq<(Seq<u8>, FrameView)>, k: Seq<u8>, v: FrameView)
    requires
        entries_faithful(es),
        line_text(k),
        faithful(v),
    ensures
        entries_faithful(put(es, k, v)),
{
    lemma_lower_bound(es, k, 0);
    let p = slot(es, k);
    let r = put(es, k, v);
    assert forall|i: int| 0 <= i < r.len() implies line_text((#[trigger] r[i]).0) && faithful(
        r[i].1,
    ) by {
        if i == p {
        } else if has_key(es, k) {
            assert(r[i] == es[i]);
        } else if i < p {
            assert(r[i] == es[i]);
        } else {
            assert(r[i] == es[i - 1]);
        }
    }
}

/// The frames of a run that was read are faithful.
pub proof fn lemma_items_given(s: Seq<u8>, count: nat, acc: Seq<FrameView>)
    requires
        forall|i: int| 0 <= i < acc.len() ==> faithful(#[trigger] acc[i]),
    ensures
        items_value(s, count, acc) matches Ok(items) ==> forall|i: int|
            0 <= i < items.len() ==> faithful(#[trigger] items[i]),
    decreases s.len(), count + 1,
{
    if count > 0 {
        lemma_items_step(s, count, acc);
        lemma_frame_span_bounds(s);
        if let Ok(n) = frame_span(s) {
            lemma_frame_given(s);
            if let Ok(f) = frame_value(s) {
                let next = acc.push(f);
                assert forall|i: int| 0 <= i < next.len() implies faithful(#[trigger] next[i]) by {
                    if i < acc.len() {
                        assert(next[i] == acc[i]);
                    }
                }
                lemma_items_given(s.skip(n as int), (count - 1) as nat, next);
            }
        }
    }
}

/// The entries of a map that was read are faithful, and in ascending order.
pub proof fn lemma_entries_given(s: Seq<u8>, count: nat, acc: Seq<(Seq<u8>, FrameView)>)
    requires
        sorted(acc),
        entries_faithful(acc),
    ensures
        entries_value(s, count, acc) matches Ok(entries) ==> sorted(entries) && entries_faithful(
            entries,
        ),
    decreases s.len(), count + 1,
{
    if count > 0 {
        lemma_entries_step(s, count, acc);
        lemma_key_span_bounds(s);
        if let Ok(k) = key_span(s) {
            lemma_frame_span_bounds(s.skip(k as int));
            if let Ok(n) = frame_span(s.skip(k as int)) {
                lemma_header_text(s);
                lemma_frame_given(s.skip(k as int));
                if let Ok(key) = key_value(s) {
                    if let Ok(f) = frame_value(s.skip(k as int)) {
                        lemma_put_sorted(acc, key, f);
                        lemma_put_faithful(acc, key, f);
                        lemma_entries_given(
                            s.skip((k + n) as int),
                            (count - 1) as nat,
                            put(acc, key, f),
                        );
                    }
                }
            }
        }
    }
}

/// A frame that was read is faithful.
pub proof fn lemma_frame_given(s: Seq<u8>)
    ensures
        frame_value(s) matches Ok(f) ==> faithful(f),
    decreases s.len(), 0nat,
{
    reveal(frame_value);
    lemma_header_line(s);
    lemma_header_text(s);
    if s.len() > 0 {
        if let Some((head, body)) = header_line(s) {
            if s[0] == DOLLAR {
            } else if s[0] == STAR || s[0] == TILDE {
                if let Some(len) = text_int(head) {
                    if len >= 0 {
                        lemma_items_given(s.skip(body as int), len as nat, Seq::empty());
                    }
                }
            } else if s[0] == PERCENT {
                if let Some(len) = text_int(head) {
                    if len >= 0 {
                        lemma_entries_given(s.skip(body as int), len as nat, Seq::empty());
                    }
                }
            } else {
                lemma_line_given(s[0], head);
            }
        }
    }
}

/// Every frame that decoding gives is faithful: encoding it and decoding
/// the encoding gives it back.
pub proof fn lemma_decoded_faithful(s: Seq<u8>)
    ensures
        decoded(s) matches Ok((f, _)) ==> faithful(f),
{
    lemma_frame_given(s);
}

} // verus!
