//! The length probe: how many bytes the next frame of a buffer spans, found
//! without building the frame.

use vstd::prelude::*;
use crate::ascii::{
    COLON, COMMA, CR, DOLLAR, HASH, LF, MINUS, PERCENT, PLUS, STAR, TILDE, UNDERSCORE,
};
use crate::decimal::{header_length, read_length, text_int, HeaderLength};
use crate::frame::RespError;
use crate::grammar::{
    bulk_span, entries_span, frame_span, header_line, is_prefix, items_span, key_span, shifted,
};
use crate::line::{find_line_end, lemma_line_end_skip};
use crate::span::{
    lemma_entries_span_excess, lemma_entries_step, lemma_frame_span_bounds, lemma_items_span_excess,
    lemma_items_step,
};

verus! {

/// What a probe of `count` bytes or an error says, as a span of the grammar.
pub open spec fn as_span(r: Result<usize, RespError>) -> Result<nat, RespError> {
    match r {
        Ok(n) => Ok(n as nat),
        Err(e) => Err(e),
    }
}

/// The position of the terminator of the header line that starts at `pos`.
pub(crate) fn header_at(buf: &[u8], pos: usize) -> (r: Option<usize>)
    requires
        pos < buf@.len(),
    ensures
        match r {
            Some(e) => pos + 1 <= e && e + 2 <= buf@.len() && header_line(buf@.skip(pos as int))
                == Some((buf@.subrange(pos + 1, e as int), (e + 2 - pos) as nat)),
            None => header_line(buf@.skip(pos as int)) is None,
        },
{
    let total: usize = buf.len();
    let r = find_line_end(buf, pos + 1);
    proof {
        lemma_line_end_skip(buf@, pos as int, 1);
        crate::line::lemma_line_end_is_first(buf@, pos + 1);
        if let Some(e) = r {
            assert(buf@.skip(pos as int).subrange(1, e - pos) =~= buf@.subrange(pos + 1, e as int));
        }
    }
    r
}

/// Whether `b` opens a frame.
pub(crate) fn is_prefix_byte(b: u8) -> (r: bool)
    ensures
        r == is_prefix(b),
{
    b == PLUS || b == MINUS || b == COLON || b == DOLLAR || b == STAR || b == UNDERSCORE
        || b == HASH || b == COMMA || b == PERCENT || b == TILDE
}

/// The span of a bulk string whose header line ends before `body` and
/// announces `length`.
fn probe_bulk(buf: &[u8], pos: usize, body: usize, length: HeaderLength, Ghost(head): Ghost<
    Seq<u8>,
>) -> (r: Result<usize, RespError>)
    requires
        pos < body <= buf@.len(),
        length == header_length(head),
    ensures
        as_span(r) == match text_int(head) {
            Some(len) => bulk_span(buf@.skip(pos as int), (body - pos) as nat, len),
            None => Err(RespError::InvalidFrameLength),
        },
        r matches Ok(n) ==> pos + n <= buf@.len(),
{
    let ghost s = buf@.skip(pos as int);
    let total: usize = buf.len();
    match length {
        HeaderLength::Invalid => Err(RespError::InvalidFrameLength),
        HeaderLength::Null => Ok(body - pos),
        HeaderLength::Beyond => Err(RespError::NotComplete),
        HeaderLength::Count(len) => {
            let rest: usize = total - body;
            proof {
                if rest >= 2 && rest - 2 >= len {
                    assert(s[(body - pos) + len] == buf@[body + len]);
                    assert(s[(body - pos) + len + 1] == buf@[body + len + 1]);
                }
            }
            if rest < 2 || rest - 2 < len {
                Err(RespError::NotComplete)
            } else if buf[body + len] == CR && buf[body + len + 1] == LF {
                Ok(body - pos + len + 2)
            } else {
                Err(RespError::InvalidFrame)
            }
        },
    }
}

/// The bytes that `count` frames starting at `pos` span together.
#[verifier::loop_isolation(false)]
pub(crate) fn probe_items(buf: &[u8], pos: usize, count: usize) -> (r: Result<usize, RespError>)
    requires
        pos <= buf@.len(),
    ensures
        as_span(r) == items_span(buf@.skip(pos as int), count as nat),
        r matches Ok(n) ==> pos + n <= buf@.len(),
    decreases buf@.len() - pos, 1nat,
{
    let ghost s = buf@;
    let total: usize = buf.len();
    let mut cur: usize = pos;
    let mut i: usize = 0;
    assert(s.skip(pos as int).skip(0) =~= s.skip(pos as int));
    while i < count
        invariant
            i <= count,
            pos <= cur <= buf@.len(),
            s == buf@,
            items_span(s.skip(pos as int), count as nat) == shifted(
                items_span(s.skip(cur as int), (count - i) as nat),
                (cur - pos) as nat,
            ),
        decreases count - i,
    {
        proof {
            lemma_items_step(s.skip(cur as int), (count - i) as nat, Seq::empty());
        }
        match probe_frame(buf, cur) {
            Ok(n) => {
                proof {
                    assert(s.skip(cur as int).skip(n as int) =~= s.skip(cur + n));
                }
                cur = cur + n;
                i = i + 1;
            },
            Err(e) => {
                return Err(e);
            },
        }
    }
    Ok(cur - pos)
}

/// The bytes that the key of a map entry at `pos` spans.
pub(crate) fn probe_key(buf: &[u8], pos: usize) -> (r: Result<usize, RespError>)
    requires
        pos <= buf@.len(),
    ensures
        as_span(r) == key_span(buf@.skip(pos as int)),
        r matches Ok(n) ==> pos + n <= buf@.len() && header_line(buf@.skip(pos as int)) == Some(
            (buf@.subrange(pos + 1, pos + n - 2), n as nat),
        ),
{
    if pos >= buf.len() {
        return Err(RespError::NotComplete);
    }
    if buf[pos] != PLUS {
        return Err(RespError::InvalidFrame);
    }
    match header_at(buf, pos) {
        Some(e) => Ok(e + 2 - pos),
        None => Err(RespError::NotComplete),
    }
}

/// The bytes that `count` map entries starting at `pos` span together.
#[verifier::loop_isolation(false)]
pub(crate) fn probe_entries(buf: &[u8], pos: usize, count: usize) -> (r: Result<usize, RespError>)
    requires
        pos <= buf@.len(),
    ensures
        as_span(r) == entries_span(buf@.skip(pos as int), count as nat),
        r matches Ok(n) ==> pos + n <= buf@.len(),
    decreases buf@.len() - pos, 1nat,
{
    let ghost s = buf@;
    let total: usize = buf.len();
    let mut cur: usize = pos;
    let mut i: usize = 0;
    assert(s.skip(pos as int).skip(0) =~= s.skip(pos as int));
    while i < count
        invariant
            i <= count,
            pos <= cur <= buf@.len(),
            s == buf@,
            entries_span(s.skip(pos as int), count as nat) == shifted(
                entries_span(s.skip(cur as int), (count - i) as nat),
                (cur - pos) as nat,
            ),
        decreases count - i,
    {
        proof {
            lemma_entries_step(s.skip(cur as int), (count - i) as nat, Seq::empty());
        }
        let k: usize = match probe_key(buf, cur) {
            Ok(k) => k,
            Err(e) => {
                return Err(e);
            },
        };
        proof {
            assert(s.skip(cur as int).skip(k as int) =~= s.skip(cur + k));
        }
        match probe_frame(buf, cur + k) {
            Ok(n) => {
                proof {
                    assert(s.skip(cur as int).skip((k + n) as int) =~= s.skip(cur + k + n));
                }
                cur = cur + k + n;
                i = i + 1;
            },
            Err(e) => {
                return Err(e);
            },
        }
    }
    Ok(cur - pos)
}

/// The bytes that the frame at `pos` spans.
pub(crate) fn probe_frame(buf: &[u8], pos: usize) -> (r: Result<usize, RespError>)
    requires
        pos <= buf@.len(),
    ensures
        as_span(r) == frame_span(buf@.skip(pos as int)),
        r matches Ok(n) ==> pos + n <= buf@.len() && n >= 3,
    decreases buf@.len() - pos, 0nat,
{
    let ghost s = buf@.skip(pos as int);
    proof {
        reveal(frame_span);
        lemma_frame_span_bounds(s);
    }
    if pos >= buf.len() {
        return Err(RespError::NotComplete);
    }
    let prefix: u8 = buf[pos];
    assert(s[0] == prefix);
    if !is_prefix_byte(prefix) {
        return Err(RespError::InvalidFrameType);
    }
    let e: usize = match header_at(buf, pos) {
        Some(e) => e,
        None => {
            return Err(RespError::NotComplete);
        },
    };
    let body: usize = e + 2;
    let ghost head = buf@.subrange(pos + 1, e as int);
    if prefix == DOLLAR || prefix == STAR || prefix == TILDE || prefix == PERCENT {
        let length = read_length(buf, pos + 1, e);
        if prefix == DOLLAR {
            return probe_bulk(buf, pos, body, length, Ghost(head));
        }
        if prefix == STAR {
            if let HeaderLength::Null = length {
                return Ok(body - pos);
            }
        }
        // No buffer holds more frames than bytes: a count beyond every
        // buffer fails as the largest count does.
        let count: usize = match length {
            HeaderLength::Count(n) => n,
            HeaderLength::Beyond => usize::MAX,
            _ => {
                return Err(RespError::InvalidFrameLength);
            },
        };
        let ghost len = text_int(head).unwrap();
        proof {
            assert(s.skip((body - pos) as int) =~= buf@.skip(body as int));
            if count != len {
                lemma_items_span_excess(buf@.skip(body as int), count as nat, len as nat);
                lemma_entries_span_excess(buf@.skip(body as int), count as nat, len as nat);
            }
        }
        let inner = if prefix == PERCENT {
            probe_entries(buf, body, count)
        } else {
            probe_items(buf, body, count)
        };
        match inner {
            Ok(n) => Ok(body - pos + n),
            Err(e) => Err(e),
        }
    } else {
        Ok(body - pos)
    }
}

} // verus!
