//! Decoding an encoding gives the frame back.

use vstd::prelude::*;
use vstd::utf8::valid_utf8;
use crate::ascii::{
    COLON, COMMA, CR, DOLLAR, HASH, LF, LOWER_F, LOWER_T, MINUS, ONE, PERCENT, PLUS, STAR, TILDE,
    UNDERSCORE,
};
use crate::assoc::{lemma_put_last, sorted};
use crate::decimal::{int_text, lemma_nat_digits, lemma_text_int_of_int_text, nat_digits, text_int};
use crate::double::{double_text, DoubleView};
use crate::double_trip::{lemma_double_read_back, representable};
use crate::frame::{FrameView, RespError};
use crate::grammar::{
    decoded, entries_span, entries_value, frame_span, frame_value, header_line, items_span,
    items_value, key_span, key_value,
};
use crate::line::{crlf, crlf_at, lemma_line_end_found};
use crate::span::{lemma_entries_step, lemma_items_step};
use crate::wire::{bulk_wire, header, wire, wire_entries_from, wire_from};

verus! {

/// `t` holds no line terminator.
pub open spec fn no_crlf(t: Seq<u8>) -> bool {
    forall|j: int| !crlf_at(t, j)
}

/// `t` is a text that a header line can hold: valid UTF-8 without a line
/// terminator.
pub open spec fn line_text(t: Seq<u8>) -> bool {
    valid_utf8(t) && no_crlf(t)
}

/// `f` is a value that an encoding can give back: its texts are line texts,
/// its numbers are in normal form and within the limits of the double frame,
/// and the keys of its maps are in ascending order.
pub open spec fn faithful(f: FrameView) -> bool
    decreases f,
{
    match f {
        FrameView::SimpleString(t) => line_text(t),
        FrameView::Error(t) => line_text(t),
        FrameView::Double(d) => representable(d),
        FrameView::Array(items) => forall|i: int|
            0 <= i < items.len() ==> faithful(#[trigger] items[i]),
        FrameView::SetOf(items) => forall|i: int|
            0 <= i < items.len() ==> faithful(#[trigger] items[i]),
        FrameView::MapOf(entries) => sorted(entries) && forall|i: int|
            0 <= i < entries.len() ==> line_text((#[trigger] entries[i]).0) && faithful(
                entries[i].1,
            ),
        _ => true,
    }
}

/// The header line of an encoding is read back as it was written.
pub proof fn lemma_header_read(prefix: u8, content: Seq<u8>, rest: Seq<u8>)
    requires
        no_crlf(content),
    ensures
        header_line(header(prefix, content) + rest) == Some((content, (content.len() + 3) as nat)),
        (header(prefix, content) + rest)[0] == prefix,
        (header(prefix, content) + rest).skip(content.len() as int + 3) == rest,
{
    let s = header(prefix, content) + rest;
    let e = content.len() as int + 1;
    assert(s[e] == CR && s[e + 1] == LF);
    assert forall|j: int| 1 <= j < e implies !crlf_at(s, j) by {
        if crlf_at(s, j) {
            assert(s[j] == content[j - 1]);
            if j + 1 < e {
                assert(s[j + 1] == content[j]);
                assert(crlf_at(content, j - 1));
            }
        }
    }
    lemma_line_end_found(s, 1, e);
    assert(s.subrange(1, e) =~= content);
    assert(s.skip(content.len() as int + 3) =~= rest);
}

/// Digits hold no line terminator.
pub proof fn lemma_digits_no_crlf(t: Seq<u8>)
    requires
        forall|i: int| 0 <= i < t.len() ==> #[trigger] t[i] != CR,
    ensures
        no_crlf(t),
{
}

/// The count in a header is read back as it was written.
pub proof fn lemma_count_read(n: nat)
    ensures
        text_int(nat_digits(n)) == Some(n as int),
        no_crlf(nat_digits(n)),
{
    lemma_nat_digits(n);
    lemma_digits_no_crlf(nat_digits(n));
}

/// The number of a frame is read back as it was written.
pub proof fn lemma_int_read(v: int)
    ensures
        text_int(int_text(v)) == Some(v),
        no_crlf(int_text(v)),
{
    lemma_text_int_of_int_text(v);
    crate::decimal::lemma_int_text_bytes(v);
    lemma_digits_no_crlf(int_text(v));
}

/// The frames of an encoded run are read back, whatever follows the run.
pub proof fn lemma_items_read(items: Seq<FrameView>, i: nat, tail: Seq<u8>, acc: Seq<FrameView>)
    requires
        i <= items.len(),
        forall|j: int| 0 <= j < items.len() ==> faithful(#[trigger] items[j]),
    ensures
        items_span(wire_from(items, i) + tail, (items.len() - i) as nat) == Ok::<nat, RespError>(
            wire_from(items, i).len(),
        ),
        items_value(wire_from(items, i) + tail, (items.len() - i) as nat, acc) == Ok::<
            Seq<FrameView>,
            RespError,
        >(acc + items.skip(i as int)),
    decreases items, items.len() - i,
{
    let s = wire_from(items, i) + tail;
    if i >= items.len() {
        assert(acc + items.skip(i as int) =~= acc);
    } else {
        let first = wire(items[i as int]);
        let rest = wire_from(items, i + 1) + tail;
        assert(s =~= first + rest);
        lemma_frame_read(items[i as int], rest);
        lemma_items_step(s, (items.len() - i) as nat, acc);
        assert(s.skip(first.len() as int) =~= rest);
        lemma_items_read(items, i + 1, tail, acc.push(items[i as int]));
        assert(acc.push(items[i as int]) + items.skip(i as int + 1) =~= acc + items.skip(i as int));
    }
}

/// The entries of an encoded map are read back, whatever follows them.
pub proof fn lemma_entries_read(entries: Seq<(Seq<u8>, FrameView)>, i: nat, tail: Seq<u8>)
    requires
        i <= entries.len(),
        sorted(entries),
        forall|j: int|
            0 <= j < entries.len() ==> line_text((#[trigger] entries[j]).0) && faithful(
                entries[j].1,
            ),
    ensures
        entries_span(wire_entries_from(entries, i) + tail, (entries.len() - i) as nat) == Ok::<
            nat,
            RespError,
        >(wire_entries_from(entries, i).len()),
        entries_value(
            wire_entries_from(entries, i) + tail,
            (entries.len() - i) as nat,
            entries.take(i as int),
        ) == Ok::<Seq<(Seq<u8>, FrameView)>, RespError>(entries),
    decreases entries, entries.len() - i,
{
    let s = wire_entries_from(entries, i) + tail;
    let acc = entries.take(i as int);
    if i >= entries.len() {
        assert(acc =~= entries);
    } else {
        let key = entries[i as int].0;
        let value = entries[i as int].1;
        let rest = wire_entries_from(entries, i + 1) + tail;
        let k = key.len() + 3;
        assert(s =~= header(PLUS, key) + (wire(value) + rest));
        lemma_header_read(PLUS, key, wire(value) + rest);
        assert(key_span(s) == Ok::<nat, RespError>(k as nat));
        assert(key_value(s) == Ok::<Seq<u8>, RespError>(key));
        lemma_frame_read(value, rest);
        lemma_entries_step(s, (entries.len() - i) as nat, acc);
        assert(s.skip(k as int + wire(value).len()) =~= rest);
        assert forall|j: int| 0 <= j < acc.len() implies crate::order::bytes_lt(
            #[trigger] acc[j].0,
            key,
        ) by {
            assert(acc[j] == entries[j]);
        }
        lemma_put_last(acc, key, value);
        assert(acc.push((key, value)) =~= entries.take(i as int + 1));
        lemma_entries_read(entries, i + 1, tail);
    }
}

/// An encoded text frame is read back, whatever follows it.
pub proof fn lemma_text_read(f: FrameView, tail: Seq<u8>)
    requires
        faithful(f),
        f is SimpleString || f is Error,
    ensures
        frame_span(wire(f) + tail) == Ok::<nat, RespError>(wire(f).len()),
        frame_value(wire(f) + tail) == Ok::<FrameView, RespError>(f),
{
    reveal(frame_span);
    reveal(frame_value);
    match f {
        FrameView::SimpleString(t) => {
            lemma_header_read(PLUS, t, tail);
        },
        FrameView::Error(t) => {
            lemma_header_read(MINUS, t, tail);
        },
        _ => {},
    }
}

/// An encoded integer is read back, whatever follows it.
pub proof fn lemma_integer_read(v: i64, tail: Seq<u8>)
    ensures
        frame_span(wire(FrameView::Integer(v)) + tail) == Ok::<nat, RespError>(
            wire(FrameView::Integer(v)).len(),
        ),
        frame_value(wire(FrameView::Integer(v)) + tail) == Ok::<FrameView, RespError>(
            FrameView::Integer(v),
        ),
{
    reveal(frame_span);
    reveal(frame_value);
    lemma_int_read(v as int);
    lemma_header_read(COLON, int_text(v as int), tail);
}

/// An encoded null or boolean is read back, whatever follows it.
pub proof fn lemma_mark_read(f: FrameView, tail: Seq<u8>)
    requires
        f is Null || f is Boolean,
    ensures
        frame_span(wire(f) + tail) == Ok::<nat, RespError>(wire(f).len()),
        frame_value(wire(f) + tail) == Ok::<FrameView, RespError>(f),
{
    reveal(frame_span);
    reveal(frame_value);
    match f {
        FrameView::Null => {
            assert(no_crlf(Seq::<u8>::empty()));
            lemma_header_read(UNDERSCORE, Seq::empty(), tail);
        },
        FrameView::Boolean(b) => {
            let content = if b {
                seq![LOWER_T]
            } else {
                seq![LOWER_F]
            };
            assert(no_crlf(content));
            lemma_header_read(HASH, content, tail);
            assert(seq![LOWER_T] != seq![LOWER_F]) by {
                assert(seq![LOWER_T][0] != seq![LOWER_F][0]);
            }
        },
        _ => {},
    }
}

/// An encoded number is read back, whatever follows it.
pub proof fn lemma_double_read(d: DoubleView, tail: Seq<u8>)
    requires
        representable(d),
    ensures
        frame_span(wire(FrameView::Double(d)) + tail) == Ok::<nat, RespError>(
            wire(FrameView::Double(d)).len(),
        ),
        frame_value(wire(FrameView::Double(d)) + tail) == Ok::<FrameView, RespError>(
            FrameView::Double(d),
        ),
{
    reveal(frame_span);
    reveal(frame_value);
    lemma_double_read_back(d);
    lemma_double_text_no_crlf(d);
    lemma_header_read(COMMA, double_text(d), tail);
}

/// An encoded bulk string is read back, whatever follows it.
pub proof fn lemma_bulk_read(b: Seq<u8>, tail: Seq<u8>)
    ensures
        frame_span(bulk_wire(b) + tail) == Ok::<nat, RespError>(bulk_wire(b).len()),
        frame_value(bulk_wire(b) + tail) == Ok::<FrameView, RespError>(FrameView::BulkString(b)),
{
    reveal(frame_span);
    reveal(frame_value);
    let s = bulk_wire(b) + tail;
    if b.len() == 0 {
        lemma_int_read(-1);
        lemma_header_read(DOLLAR, int_text(-1), tail);
        assert(b =~= Seq::<u8>::empty());
    } else {
        let digits = nat_digits(b.len());
        lemma_count_read(b.len());
        assert(s =~= header(DOLLAR, digits) + (b + crlf() + tail));
        lemma_header_read(DOLLAR, digits, b + crlf() + tail);
        let body = digits.len() as int + 3;
        assert(s[body + b.len()] == CR);
        assert(s[body + b.len() + 1] == LF);
        assert(s.subrange(body, body + b.len()) =~= b);
    }
}

/// The header of an encoded collection is read back: the count, and behind
/// the header line what the collection holds.
pub proof fn lemma_collection_header(prefix: u8, count: nat, inner: Seq<u8>, tail: Seq<u8>)
    ensures
        header_line(header(prefix, nat_digits(count)) + inner + tail) == Some(
            (nat_digits(count), (nat_digits(count).len() + 3) as nat),
        ),
        (header(prefix, nat_digits(count)) + inner + tail)[0] == prefix,
        (header(prefix, nat_digits(count)) + inner + tail).skip(nat_digits(count).len() as int + 3)
            == inner + tail,
        text_int(nat_digits(count)) == Some(count as int),
{
    lemma_count_read(count);
    let s = header(prefix, nat_digits(count)) + inner + tail;
    assert(s =~= header(prefix, nat_digits(count)) + (inner + tail));
    lemma_header_read(prefix, nat_digits(count), inner + tail);
}

/// An encoded frame is read back, whatever follows it.
pub proof fn lemma_frame_read(f: FrameView, tail: Seq<u8>)
    requires
        faithful(f),
    ensures
        frame_span(wire(f) + tail) == Ok::<nat, RespError>(wire(f).len()),
        frame_value(wire(f) + tail) == Ok::<FrameView, RespError>(f),
    decreases f, 0nat,
{
    let s = wire(f) + tail;
    match f {
        FrameView::SimpleString(_) => {
            lemma_text_read(f, tail);
        },
        FrameView::Error(_) => {
            lemma_text_read(f, tail);
        },
        FrameView::Integer(v) => {
            lemma_integer_read(v, tail);
        },
        FrameView::BulkString(b) => {
            lemma_bulk_read(b, tail);
        },
        FrameView::Null => {
            lemma_mark_read(f, tail);
        },
        FrameView::Boolean(_) => {
            lemma_mark_read(f, tail);
        },
        FrameView::Double(d) => {
            lemma_double_read(d, tail);
        },
        FrameView::Array(items) => {
            if items.len() == 0 {
                lemma_null_array_read(tail);
                assert(items =~= Seq::<FrameView>::empty());
            } else {
                lemma_collection_header(STAR, items.len(), wire_from(items, 0), tail);
                lemma_items_read(items, 0, tail, Seq::empty());
                assert(Seq::<FrameView>::empty() + items.skip(0) =~= items);
                lemma_sequence_unfold(s, STAR);
            }
        },
        FrameView::MapOf(entries) => {
            lemma_collection_header(PERCENT, entries.len(), wire_entries_from(entries, 0), tail);
            lemma_entries_read(entries, 0, tail);
            assert(entries.take(0) =~= Seq::<(Seq<u8>, FrameView)>::empty());
            lemma_map_unfold(s);
        },
        FrameView::SetOf(items) => {
            lemma_collection_header(TILDE, items.len(), wire_from(items, 0), tail);
            lemma_items_read(items, 0, tail, Seq::empty());
            assert(Seq::<FrameView>::empty() + items.skip(0) =~= items);
            lemma_sequence_unfold(s, TILDE);
        },
    }
}

/// The null form of an array is read back as the empty array.
pub proof fn lemma_null_array_read(tail: Seq<u8>)
    ensures
        frame_span(header(STAR, int_text(-1)) + tail) == Ok::<nat, RespError>(
            header(STAR, int_text(-1)).len(),
        ),
        frame_value(header(STAR, int_text(-1)) + tail) == Ok::<FrameView, RespError>(
            FrameView::Array(Seq::empty()),
        ),
{
    reveal(frame_span);
    reveal(frame_value);
    lemma_int_read(-1);
    lemma_header_read(STAR, int_text(-1), tail);
}

/// The span and the value of an array or a set with a count in its header
/// are those of its frames.
pub proof fn lemma_sequence_unfold(s: Seq<u8>, prefix: u8)
    requires
        prefix == STAR || prefix == TILDE,
        s.len() > 0 && s[0] == prefix,
        header_line(s) matches Some((head, body)) && text_int(head) matches Some(len) && len >= 0,
    ensures
        ({
            let (head, body) = header_line(s).unwrap();
            let len = text_int(head).unwrap() as nat;
            &&& frame_span(s) == crate::grammar::shifted(
                items_span(s.skip(body as int), len),
                body,
            )
            &&& frame_value(s) == match items_value(s.skip(body as int), len, Seq::empty()) {
                Ok(items) => Ok::<FrameView, RespError>(
                    if prefix == STAR {
                        FrameView::Array(items)
                    } else {
                        FrameView::SetOf(items)
                    },
                ),
                Err(e) => Err(e),
            }
        }),
{
    reveal(frame_span);
    reveal(frame_value);
}

/// The span and the value of a map are those of its entries.
pub proof fn lemma_map_unfold(s: Seq<u8>)
    requires
        s.len() > 0 && s[0] == PERCENT,
        header_line(s) matches Some((head, body)) && text_int(head) matches Some(len) && len >= 0,
    ensures
        ({
            let (head, body) = header_line(s).unwrap();
            let len = text_int(head).unwrap() as nat;
            &&& frame_span(s) == crate::grammar::shifted(
                entries_span(s.skip(body as int), len),
                body,
            )
            &&& frame_value(s) == match entries_value(s.skip(body as int), len, Seq::empty()) {
                Ok(entries) => Ok::<FrameView, RespError>(FrameView::MapOf(entries)),
                Err(e) => Err(e),
            }
        }),
{
    reveal(frame_span);
    reveal(frame_value);
}

/// The text of a number holds no line terminator.
pub proof fn lemma_double_text_no_crlf(d: DoubleView)
    ensures
        no_crlf(double_text(d)),
{
    let t = double_text(d);
    let digits = nat_digits(d.mantissa);
    lemma_nat_digits(d.mantissa);
    crate::decimal::lemma_int_text_bytes(crate::double::sci_exponent(d));
    assert forall|i: int| 0 <= i < t.len() implies #[trigger] t[i] != CR by {}
    lemma_digits_no_crlf(t);
}

/// Round trip: decoding the encoding of a frame gives the frame back, and
/// takes the whole encoding.
pub proof fn lemma_round_trip(f: FrameView)
    requires
        faithful(f),
    ensures
        decoded(wire(f)) == Ok::<(FrameView, nat), RespError>((f, wire(f).len())),
{
    lemma_frame_read(f, Seq::empty());
    assert(wire(f) + Seq::<u8>::empty() =~= wire(f));
}

/// Decoding a buffer that starts with the encoding of a frame gives that
/// frame, and takes its encoding only.
pub proof fn lemma_round_trip_before(f: FrameView, tail: Seq<u8>)
    requires
        faithful(f),
    ensures
        decoded(wire(f) + tail) == Ok::<(FrameView, nat), RespError>((f, wire(f).len())),
{
    lemma_frame_read(f, tail);
}

/// The null forms: a bulk string without bytes and an array without frames
/// are written with the length `-1`, and are read back as the empty values.
pub proof fn lemma_null_forms()
    ensures
        wire(FrameView::BulkString(Seq::empty())) == seq![DOLLAR, MINUS, ONE, CR, LF],
        wire(FrameView::Array(Seq::empty())) == seq![STAR, MINUS, ONE, CR, LF],
        decoded(seq![DOLLAR, MINUS, ONE, CR, LF]) == Ok::<(FrameView, nat), RespError>(
            (FrameView::BulkString(Seq::empty()), 5),
        ),
        decoded(seq![STAR, MINUS, ONE, CR, LF]) == Ok::<(FrameView, nat), RespError>(
            (FrameView::Array(Seq::empty()), 5),
        ),
{
    assert(int_text(-1) =~= seq![MINUS, ONE]);
    assert(wire(FrameView::BulkString(Seq::empty())) =~= seq![DOLLAR, MINUS, ONE, CR, LF]);
    assert(wire(FrameView::Array(Seq::empty())) =~= seq![STAR, MINUS, ONE, CR, LF]);
    lemma_round_trip(FrameView::BulkString(Seq::empty()));
    lemma_round_trip(FrameView::Array(Seq::empty()));
}

} // verus!
