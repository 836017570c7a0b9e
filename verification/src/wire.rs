//! Encoding: the one byte string that each frame value is written as.

use vstd::prelude::*;
use crate::ascii::{
    COLON, COMMA, CR, DOLLAR, HASH, LF, LOWER_F, LOWER_T, MINUS, PERCENT, PLUS, STAR, TILDE,
    UNDERSCORE,
};
use crate::decimal::{int_text, nat_digits, push_int, push_nat};
use crate::double::{double_text, push_double, push_range};
use crate::frame::{entries_view, frames_view, BulkString, FrameView, RespFrame, SimpleString};
use crate::line::crlf;

verus! {

/// A header line: the prefix byte, the content and the line terminator.
pub open spec fn header(prefix: u8, content: Seq<u8>) -> Seq<u8> {
    seq![prefix] + content + crlf()
}

/// The encoding of a bulk string: the null form for an empty one.
pub open spec fn bulk_wire(b: Seq<u8>) -> Seq<u8> {
    if b.len() == 0 {
        header(DOLLAR, int_text(-1))
    } else {
        header(DOLLAR, nat_digits(b.len())) + b + crlf()
    }
}

/// The encodings of the frames `items[i..]`, one after the other.
pub open spec fn wire_from(items: Seq<FrameView>, i: nat) -> Seq<u8>
    decreases items, items.len() - i,
{
    if i >= items.len() {
        Seq::empty()
    } else {
        wire(items[i as int]) + wire_from(items, i + 1)
    }
}

/// The encodings of the entries `entries[i..]`: each key as a simple string,
/// followed by its value.
pub open spec fn wire_entries_from(entries: Seq<(Seq<u8>, FrameView)>, i: nat) -> Seq<u8>
    decreases entries, entries.len() - i,
{
    if i >= entries.len() {
        Seq::empty()
    } else {
        header(PLUS, entries[i as int].0) + wire(entries[i as int].1) + wire_entries_from(
            entries,
            i + 1,
        )
    }
}

/// The encoding of a frame. An empty bulk string and an empty array are
/// written in the null form, with length `-1`.
pub open spec fn wire(f: FrameView) -> Seq<u8>
    decreases f, 0nat,
{
    match f {
        FrameView::SimpleString(t) => header(PLUS, t),
        FrameView::Error(t) => header(MINUS, t),
        FrameView::Integer(v) => header(COLON, int_text(v as int)),
        FrameView::BulkString(b) => bulk_wire(b),
        FrameView::Array(items) => if items.len() == 0 {
            header(STAR, int_text(-1))
        } else {
            header(STAR, nat_digits(items.len())) + wire_from(items, 0)
        },
        FrameView::Null => header(UNDERSCORE, Seq::empty()),
        FrameView::Boolean(b) => header(HASH, if b { seq![LOWER_T] } else { seq![LOWER_F] }),
        FrameView::Double(d) => header(COMMA, double_text(d)),
        FrameView::MapOf(entries) => header(PERCENT, nat_digits(entries.len())) + wire_entries_from(
            entries,
            0,
        ),
        FrameView::SetOf(items) => header(TILDE, nat_digits(items.len())) + wire_from(items, 0),
    }
}

/// Appends a header line with the text `content` to `out`.
fn push_header(out: &mut Vec<u8>, prefix: u8, content: &[u8])
    ensures
        final(out)@ == old(out)@ + header(prefix, content@),
{
    out.push(prefix);
    push_range(out, content, 0, content.len());
    out.push(CR);
    out.push(LF);
    assert(content@.subrange(0, content@.len() as int) =~= content@);
    assert(final(out)@ =~= old(out)@ + header(prefix, content@));
}

/// Appends a header line that holds the count `n` to `out`.
fn push_count_header(out: &mut Vec<u8>, prefix: u8, n: usize)
    ensures
        final(out)@ == old(out)@ + header(prefix, nat_digits(n as nat)),
{
    out.push(prefix);
    push_nat(out, n as u64);
    out.push(CR);
    out.push(LF);
    assert(final(out)@ =~= old(out)@ + header(prefix, nat_digits(n as nat)));
}

/// Appends the null form of the frame type with the given prefix to `out`.
fn push_null_form(out: &mut Vec<u8>, prefix: u8)
    ensures
        final(out)@ == old(out)@ + header(prefix, int_text(-1)),
{
    out.push(prefix);
    push_int(out, -1);
    out.push(CR);
    out.push(LF);
    assert(final(out)@ =~= old(out)@ + header(prefix, int_text(-1)));
}

/// Appends the encodings of the frames of `items` to `out`.
#[verifier::loop_isolation(false)]
fn push_frames(out: &mut Vec<u8>, items: &Vec<RespFrame>)
    ensures
        final(out)@ == old(out)@ + wire_from(frames_view(*items), 0),
    decreases *items, 1nat,
{
    let ghost views = frames_view(*items);
    let mut i: usize = 0;
    while i < items.len()
        invariant
            i <= items.len(),
            views == frames_view(*items),
            out@ + wire_from(views, i as nat) == old(out)@ + wire_from(views, 0),
        decreases items.len() - i,
    {
        let ghost before = out@;
        proof {
            let ghost e = items[i as int];
        }
        push_frame(out, &items[i]);
        proof {
            assert(views[i as int] == items[i as int].view());
            assert(out@ + wire_from(views, (i + 1) as nat) =~= before + wire_from(views, i as nat));
        }
        i = i + 1;
    }
    assert(out@ =~= out@ + wire_from(views, i as nat));
}

/// Appends the encodings of `entries` to `out`, in the order in which they stand.
#[verifier::loop_isolation(false)]
fn push_entries(out: &mut Vec<u8>, entries: &Vec<(String, RespFrame)>)
    ensures
        final(out)@ == old(out)@ + wire_entries_from(entries_view(*entries), 0),
    decreases *entries, 1nat,
{
    let ghost views = entries_view(*entries);
    let mut i: usize = 0;
    while i < entries.len()
        invariant
            i <= entries.len(),
            views == entries_view(*entries),
            out@ + wire_entries_from(views, i as nat) == old(out)@ + wire_entries_from(views, 0),
        decreases entries.len() - i,
    {
        let ghost before = out@;
        proof {
            let ghost e = entries[i as int];
        }
        push_header(out, PLUS, entries[i].0.as_str().as_bytes());
        push_frame(out, &entries[i].1);
        proof {
            assert(views[i as int] == (
                crate::frame::text_bytes(entries[i as int].0@),
                entries[i as int].1.view(),
            ));
            assert(out@ + wire_entries_from(views, (i + 1) as nat) =~= before + wire_entries_from(
                views,
                i as nat,
            ));
        }
        i = i + 1;
    }
    assert(out@ =~= out@ + wire_entries_from(views, i as nat));
}

/// Appends the encoding of `f` to `out`.
pub fn push_frame(out: &mut Vec<u8>, f: &RespFrame)
    ensures
        final(out)@ == old(out)@ + wire(f@),
    decreases *f, 0nat,
{
    match f {
        RespFrame::SimpleString(s) => push_header(out, PLUS, s.0.as_str().as_bytes()),
        RespFrame::Error(s) => push_header(out, MINUS, s.0.as_str().as_bytes()),
        RespFrame::Integer(v) => {
            out.push(COLON);
            push_int(out, *v);
            out.push(CR);
            out.push(LF);
            assert(final(out)@ =~= old(out)@ + wire(f@));
        },
        RespFrame::BulkString(b) => {
            if b.0.len() == 0 {
                push_null_form(out, DOLLAR);
            } else {
                push_count_header(out, DOLLAR, b.0.len());
                push_range(out, b.0.as_slice(), 0, b.0.len());
                out.push(CR);
                out.push(LF);
                assert(b.0@.subrange(0, b.0@.len() as int) =~= b.0@);
                assert(final(out)@ =~= old(out)@ + wire(f@));
            }
        },
        RespFrame::Array(a) => {
            if a.0.len() == 0 {
                push_null_form(out, STAR);
            } else {
                push_count_header(out, STAR, a.0.len());
                push_frames(out, &a.0);
                assert(final(out)@ =~= old(out)@ + wire(f@));
            }
        },
        RespFrame::Null(_) => {
            out.push(UNDERSCORE);
            out.push(CR);
            out.push(LF);
            assert(final(out)@ =~= old(out)@ + wire(f@));
        },
        RespFrame::Boolean(b) => {
            out.push(HASH);
            out.push(if *b { LOWER_T } else { LOWER_F });
            out.push(CR);
            out.push(LF);
            assert(final(out)@ =~= old(out)@ + wire(f@));
        },
        RespFrame::Double(d) => {
            out.push(COMMA);
            push_double(out, d);
            out.push(CR);
            out.push(LF);
            assert(final(out)@ =~= old(out)@ + wire(f@));
        },
        RespFrame::MapOf(m) => {
            push_count_header(out, PERCENT, m.entries.len());
            push_entries(out, &m.entries);
            assert(final(out)@ =~= old(out)@ + wire(f@));
        },
        RespFrame::SetOf(s) => {
            push_count_header(out, TILDE, s.0.len());
            push_frames(out, &s.0);
            assert(final(out)@ =~= old(out)@ + wire(f@));
        },
    }
}

} // verus!
