//! Building frames: the recursive descent over a span that the probe has
//! found complete.

use vstd::prelude::*;
use vstd::slice::{slice_subrange, slice_to_vec};
use crate::ascii::{
    COLON, COMMA, DOLLAR, HASH, LOWER_F, LOWER_T, MINUS, PERCENT, PLUS, STAR, TILDE, UNDERSCORE,
};
use crate::decimal::{header_length, read_i64, read_length, text_int, HeaderLength};
use crate::double::read_double;
use crate::frame::{
    frames_view, BulkString, FrameView, RespArray, RespError, RespFrame, RespMap, RespNull, RespSet,
    SimpleError, SimpleString,
};
use crate::grammar::{
    bulk_span, bulk_value, decoded, entries_span, entries_value, frame_span, frame_value,
    items_span, items_value, line_value, shifted,
};
use crate::probe::{header_at, probe_frame, probe_key};
use crate::span::{
    lemma_entries_span_bounds, lemma_entries_step, lemma_items_span_bounds, lemma_items_step,
};
use crate::text::text_of;

verus! {

/// A built frame or an error, as a value of the grammar.
pub open spec fn as_value(r: Result<RespFrame, RespError>) -> Result<FrameView, RespError> {
    match r {
        Ok(f) => Ok(f@),
        Err(e) => Err(e),
    }
}

/// A built frame with its span, or an error, as a result of the grammar.
pub open spec fn as_decoded(r: Result<(RespFrame, usize), RespError>) -> Result<
    (FrameView, nat),
    RespError,
> {
    match r {
        Ok((f, n)) => Ok((f@, n as nat)),
        Err(e) => Err(e),
    }
}

/// The frame of one line with the prefix byte `prefix` and the header text `head`.
fn build_line(prefix: u8, head: &[u8]) -> (r: Result<RespFrame, RespError>)
    ensures
        as_value(r) == line_value(prefix, head@),
{
    if prefix == PLUS {
        match text_of(head) {
            Some(t) => Ok(RespFrame::SimpleString(SimpleString(t))),
            None => Err(RespError::Utf8Error),
        }
    } else if prefix == MINUS {
        match text_of(head) {
            Some(t) => Ok(RespFrame::Error(SimpleError(t))),
            None => Err(RespError::Utf8Error),
        }
    } else if prefix == COLON {
        assert(head@.subrange(0, head@.len() as int) =~= head@);
        match read_i64(head, 0, head.len()) {
            Some(v) => Ok(RespFrame::Integer(v)),
            None => Err(RespError::ParseIntError),
        }
    } else if prefix == UNDERSCORE {
        if head.len() == 0 {
            Ok(RespFrame::Null(RespNull))
        } else {
            Err(RespError::InvalidFrame)
        }
    } else if prefix == HASH {
        if head.len() == 1 && head[0] == LOWER_T {
            assert(head@ =~= seq![LOWER_T]);
            Ok(RespFrame::Boolean(true))
        } else if head.len() == 1 && head[0] == LOWER_F {
            assert(head@ =~= seq![LOWER_F]);
            Ok(RespFrame::Boolean(false))
        } else {
            assert(head@ == seq![LOWER_T] ==> head@.len() == 1 && head@[0] == LOWER_T);
            assert(head@ == seq![LOWER_F] ==> head@.len() == 1 && head@[0] == LOWER_F);
            Err(RespError::InvalidFrame)
        }
    } else if prefix == COMMA {
        match read_double(head) {
            Some(d) => Ok(RespFrame::Double(d)),
            None => Err(RespError::ParseFloatError),
        }
    } else {
        Err(RespError::InvalidFrameType)
    }
}

/// The frames of `count` frames that start at `pos`, and the bytes they span.
#[verifier::loop_isolation(false)]
fn build_items(buf: &[u8], pos: usize, count: usize) -> (r: Result<
    (Vec<RespFrame>, usize),
    RespError,
>)
    requires
        pos <= buf@.len(),
        items_span(buf@.skip(pos as int), count as nat) is Ok,
    ensures
        match r {
            Ok((v, n)) => items_value(buf@.skip(pos as int), count as nat, Seq::empty()) == Ok::<
                Seq<FrameView>,
                RespError,
            >(frames_view(v)) && items_span(buf@.skip(pos as int), count as nat) == Ok::<
                nat,
                RespError,
            >(n as nat) && pos + n <= buf@.len(),
            Err(e) => items_value(buf@.skip(pos as int), count as nat, Seq::empty()) == Err::<
                Seq<FrameView>,
                RespError,
            >(e),
        },
    decreases buf@.len() - pos, 1nat,
{
    let ghost s = buf@;
    let total: usize = buf.len();
    let mut acc: Vec<RespFrame> = Vec::new();
    let mut cur: usize = pos;
    let mut i: usize = 0;
    assert(s.skip(pos as int).skip(0) =~= s.skip(pos as int));
    assert(frames_view(acc) =~= Seq::<FrameView>::empty());
    while i < count
        invariant
            i <= count,
            pos <= cur <= buf@.len(),
            s == buf@,
            items_span(s.skip(cur as int), (count - i) as nat) is Ok,
            items_span(s.skip(pos as int), count as nat) == shifted(
                items_span(s.skip(cur as int), (count - i) as nat),
                (cur - pos) as nat,
            ),
            items_value(s.skip(pos as int), count as nat, Seq::empty()) == items_value(
                s.skip(cur as int),
                (count - i) as nat,
                frames_view(acc),
            ),
        decreases count - i,
    {
        let ghost before = frames_view(acc);
        proof {
            lemma_items_step(s.skip(cur as int), (count - i) as nat, before);
        }
        match build_frame(buf, cur) {
            Ok((f, n)) => {
                proof {
                    assert(s.skip(cur as int).skip(n as int) =~= s.skip(cur + n));
                }
                let ghost fv = f@;
                acc.push(f);
                proof {
                    assert(frames_view(acc) =~= before.push(fv));
                }
                cur = cur + n;
                i = i + 1;
            },
            Err(e) => {
                return Err(e);
            },
        }
    }
    Ok((acc, cur - pos))
}

/// The entries of `count` map entries that start at `pos`, and the bytes
/// they span.
#[verifier::loop_isolation(false)]
fn build_entries(buf: &[u8], pos: usize, count: usize) -> (r: Result<(RespMap, usize), RespError>)
    requires
        pos <= buf@.len(),
        entries_span(buf@.skip(pos as int), count as nat) is Ok,
    ensures
        match r {
            Ok((m, n)) => entries_value(buf@.skip(pos as int), count as nat, Seq::empty()) == Ok::<
                Seq<(Seq<u8>, FrameView)>,
                RespError,
            >(m@) && entries_span(buf@.skip(pos as int), count as nat) == Ok::<nat, RespError>(
                n as nat,
            ) && pos + n <= buf@.len() && m.wf(),
            Err(e) => entries_value(buf@.skip(pos as int), count as nat, Seq::empty()) == Err::<
                Seq<(Seq<u8>, FrameView)>,
                RespError,
            >(e),
        },
    decreases buf@.len() - pos, 1nat,
{
    let ghost s = buf@;
    let total: usize = buf.len();
    let mut acc: RespMap = RespMap::new();
    let mut cur: usize = pos;
    let mut i: usize = 0;
    assert(s.skip(pos as int).skip(0) =~= s.skip(pos as int));
    while i < count
        invariant
            i <= count,
            pos <= cur <= buf@.len(),
            s == buf@,
            acc.wf(),
            entries_span(s.skip(cur as int), (count - i) as nat) is Ok,
            entries_span(s.skip(pos as int), count as nat) == shifted(
                entries_span(s.skip(cur as int), (count - i) as nat),
                (cur - pos) as nat,
            ),
            entries_value(s.skip(pos as int), count as nat, Seq::empty()) == entries_value(
                s.skip(cur as int),
                (count - i) as nat,
                acc@,
            ),
        decreases count - i,
    {
        proof {
            lemma_entries_step(s.skip(cur as int), (count - i) as nat, acc@);
        }
        let k: usize = match probe_key(buf, cur) {
            Ok(k) => k,
            Err(e) => {
                return Err(e);
            },
        };
        proof {
            assert(s.skip(cur as int).skip(k as int) =~= s.skip(cur + k));
        }
        let key: String = match text_of(slice_subrange(buf, cur + 1, cur + k - 2)) {
            Some(t) => t,
            None => {
                return Err(RespError::Utf8Error);
            },
        };
        match build_frame(buf, cur + k) {
            Ok((f, n)) => {
                proof {
                    assert(s.skip(cur as int).skip((k + n) as int) =~= s.skip(cur + k + n));
                }
                acc.insert(key, f);
                cur = cur + k + n;
                i = i + 1;
            },
            Err(e) => {
                return Err(e);
            },
        }
    }
    Ok((acc, cur - pos))
}

/// The bulk string whose header line ends before `body` and announces `length`.
fn build_bulk(
    buf: &[u8],
    pos: usize,
    body: usize,
    length: HeaderLength,
    Ghost(head): Ghost<Seq<u8>>,
) -> (r: Result<(RespFrame, usize), RespError>)
    requires
        pos < body <= buf@.len(),
        length == header_length(head),
        text_int(head) matches Some(len) && bulk_span(
            buf@.skip(pos as int),
            (body - pos) as nat,
            len,
        ) is Ok,
    ensures
        match r {
            Ok((f, n)) => bulk_value(
                buf@.skip(pos as int),
                (body - pos) as nat,
                text_int(head).unwrap(),
            ) == Ok::<FrameView, RespError>(f@) && bulk_span(
                buf@.skip(pos as int),
                (body - pos) as nat,
                text_int(head).unwrap(),
            ) == Ok::<nat, RespError>(n as nat) && pos + n <= buf@.len(),
            Err(e) => false,
        },
{
    let total: usize = buf.len();
    match length {
        HeaderLength::Count(count) => {
            let data = slice_to_vec(slice_subrange(buf, body, body + count));
            assert(data@ =~= buf@.skip(pos as int).subrange(body - pos, body - pos + count));
            Ok((RespFrame::BulkString(BulkString(data)), body - pos + count + 2))
        },
        _ => Ok((RespFrame::BulkString(BulkString(Vec::new())), body - pos)),
    }
}

/// The array or the set of `count` frames that start at `body`.
fn build_sequence(buf: &[u8], body: usize, count: usize, array: bool) -> (r: Result<
    (RespFrame, usize),
    RespError,
>)
    requires
        body <= buf@.len(),
        items_span(buf@.skip(body as int), count as nat) is Ok,
    ensures
        match r {
            Ok((f, n)) => {
                &&& match items_value(buf@.skip(body as int), count as nat, Seq::empty()) {
                    Ok(items) => f@ == (if array {
                        FrameView::Array(items)
                    } else {
                        FrameView::SetOf(items)
                    }),
                    Err(_) => false,
                }
                &&& items_span(buf@.skip(body as int), count as nat) == Ok::<nat, RespError>(
                    n as nat,
                )
                &&& body + n <= buf@.len()
            },
            Err(e) => items_value(buf@.skip(body as int), count as nat, Seq::empty()) == Err::<
                Seq<FrameView>,
                RespError,
            >(e),
        },
    decreases buf@.len() - body, 2nat,
{
    match build_items(buf, body, count) {
        Ok((items, n)) => {
            if array {
                Ok((RespFrame::Array(RespArray(items)), n))
            } else {
                Ok((RespFrame::SetOf(RespSet(items)), n))
            }
        },
        Err(e) => Err(e),
    }
}

/// The map of `count` entries that start at `body`.
fn build_map(buf: &[u8], body: usize, count: usize) -> (r: Result<(RespFrame, usize), RespError>)
    requires
        body <= buf@.len(),
        entries_span(buf@.skip(body as int), count as nat) is Ok,
    ensures
        match r {
            Ok((f, n)) => {
                &&& match entries_value(buf@.skip(body as int), count as nat, Seq::empty()) {
                    Ok(entries) => f@ == FrameView::MapOf(entries),
                    Err(_) => false,
                }
                &&& entries_span(buf@.skip(body as int), count as nat) == Ok::<nat, RespError>(
                    n as nat,
                )
                &&& body + n <= buf@.len()
            },
            Err(e) => entries_value(buf@.skip(body as int), count as nat, Seq::empty()) == Err::<
                Seq<(Seq<u8>, FrameView)>,
                RespError,
            >(e),
        },
    decreases buf@.len() - body, 2nat,
{
    match build_entries(buf, body, count) {
        Ok((m, n)) => Ok((RespFrame::MapOf(m), n)),
        Err(e) => Err(e),
    }
}

/// The frame that starts at `pos`, where the probe has found it complete,
/// and the bytes it spans.
pub(crate) fn build_frame(buf: &[u8], pos: usize) -> (r: Result<(RespFrame, usize), RespError>)
    requires
        pos <= buf@.len(),
        frame_span(buf@.skip(pos as int)) is Ok,
    ensures
        match r {
            Ok((f, n)) => frame_value(buf@.skip(pos as int)) == Ok::<FrameView, RespError>(f@)
                && frame_span(buf@.skip(pos as int)) == Ok::<nat, RespError>(n as nat) && pos + n
                <= buf@.len(),
            Err(e) => frame_value(buf@.skip(pos as int)) == Err::<FrameView, RespError>(e),
        },
    decreases buf@.len() - pos, 0nat,
{
    let ghost s = buf@.skip(pos as int);
    let total: usize = buf.len();
    proof {
        reveal(frame_span);
        reveal(frame_value);
    }
    if pos >= total {
        return Err(RespError::NotComplete);
    }
    let prefix: u8 = buf[pos];
    assert(s[0] == prefix);
    let e: usize = match header_at(buf, pos) {
        Some(e) => e,
        None => {
            return Err(RespError::NotComplete);
        },
    };
    let body: usize = e + 2;
    let ghost head = buf@.subrange(pos + 1, e as int);
    if prefix == DOLLAR {
        let length = read_length(buf, pos + 1, e);
        return build_bulk(buf, pos, body, length, Ghost(head));
    }
    if prefix == STAR || prefix == TILDE || prefix == PERCENT {
        let length = read_length(buf, pos + 1, e);
        let ghost rest = buf@.skip(body as int);
        proof {
            assert(s.skip((body - pos) as int) =~= rest);
            if let Some(len) = text_int(head) {
                if len >= 0 {
                    lemma_items_span_bounds(rest, len as nat);
                    lemma_entries_span_bounds(rest, len as nat);
                }
            }
        }
        let count: usize = match length {
            HeaderLength::Count(count) => count,
            HeaderLength::Null => {
                let items: Vec<RespFrame> = Vec::new();
                assert(frames_view(items) =~= Seq::<FrameView>::empty());
                return Ok((RespFrame::Array(RespArray(items)), body - pos));
            },
            _ => {
                return Err(RespError::InvalidFrameLength);
            },
        };
        let inner = if prefix == PERCENT {
            build_map(buf, body, count)
        } else {
            build_sequence(buf, body, count, prefix == STAR)
        };
        return match inner {
            Ok((f, n)) => Ok((f, body - pos + n)),
            Err(e) => Err(e),
        };
    }
    match build_line(prefix, slice_subrange(buf, pos + 1, e)) {
        Ok(f) => Ok((f, body - pos)),
        Err(e) => Err(e),
    }
}

/// Decodes the frame at the start of `buf`: the frame and the number of
/// bytes it spans. `NotComplete` says that `buf` ends before the frame does.
pub fn decode_frame(buf: &[u8]) -> (r: Result<(RespFrame, usize), RespError>)
    ensures
        as_decoded(r) == decoded(buf@),
        r matches Ok((_, n)) ==> n <= buf@.len(),
{
    assert(buf@.skip(0) =~= buf@);
    match probe_frame(buf, 0) {
        Ok(_) => build_frame(buf, 0),
        Err(e) => Err(e),
    }
}

} // verus!
