//! The wire grammar, as functions on byte sequences: how many bytes the frame
//! at the start of a sequence spans, and which value it holds.

use vstd::prelude::*;
use vstd::utf8::valid_utf8;
use crate::ascii::{
    COLON, COMMA, CR, DOLLAR, HASH, LF, LOWER_F, LOWER_T, MINUS, PERCENT, PLUS, STAR, TILDE,
    UNDERSCORE,
};
use crate::assoc::put;
use crate::decimal::{text_i64, text_int};
use crate::double::text_double;
use crate::frame::{FrameView, RespError};
use crate::line::line_end;

verus! {

/// The bytes that open a frame, one for each frame type.
pub open spec fn is_prefix(b: u8) -> bool {
    b == PLUS || b == MINUS || b == COLON || b == DOLLAR || b == STAR || b == UNDERSCORE
        || b == HASH || b == COMMA || b == PERCENT || b == TILDE
}

/// The header line of the frame at the start of `s`: the text between the
/// prefix byte and the first line terminator, and the position behind that
/// terminator. `None` while `s` holds no terminator.
pub open spec fn header_line(s: Seq<u8>) -> Option<(Seq<u8>, nat)> {
    match line_end(s, 1) {
        Some(e) => if 1 <= e && e + 2 <= s.len() {
            Some((s.subrange(1, e), (e + 2) as nat))
        } else {
            None
        },
        None => None,
    }
}

/// A span moved `by` bytes to the right.
pub open spec fn shifted(r: Result<nat, RespError>, by: nat) -> Result<nat, RespError> {
    match r {
        Ok(n) => Ok(n + by),
        Err(e) => Err(e),
    }
}

/// The number of bytes of a bulk string's frame whose header ends at `body`
/// and announces the length `len`.
pub open spec fn bulk_span(s: Seq<u8>, body: nat, len: int) -> Result<nat, RespError> {
    if len == -1 {
        Ok(body)
    } else if len < 0 {
        Err(RespError::InvalidFrameLength)
    } else if s.len() < body + len + 2 {
        Err(RespError::NotComplete)
    } else if s[body + len] == CR && s[body + len + 1] == LF {
        Ok((body + len + 2) as nat)
    } else {
        Err(RespError::InvalidFrame)
    }
}

/// The number of bytes that `count` frames at the start of `s` span together.
pub open spec fn items_span(s: Seq<u8>, count: nat) -> Result<nat, RespError>
    decreases s.len(), count + 1,
{
    if count == 0 {
        Ok(0)
    } else {
        match frame_span(s) {
            Ok(n) => if n <= s.len() {
                shifted(items_span(s.skip(n as int), (count - 1) as nat), n)
            } else {
                Err(RespError::NotComplete)
            },
            Err(e) => Err(e),
        }
    }
}

/// The number of bytes of a map's key: a simple string frame.
pub open spec fn key_span(s: Seq<u8>) -> Result<nat, RespError> {
    if s.len() == 0 {
        Err(RespError::NotComplete)
    } else if s[0] != PLUS {
        Err(RespError::InvalidFrame)
    } else {
        match header_line(s) {
            Some((_, body)) => Ok(body),
            None => Err(RespError::NotComplete),
        }
    }
}

/// The number of bytes that `count` map entries at the start of `s` span
/// together; each entry is a key and a frame.
pub open spec fn entries_span(s: Seq<u8>, count: nat) -> Result<nat, RespError>
    decreases s.len(), count + 1,
{
    if count == 0 {
        Ok(0)
    } else {
        match key_span(s) {
            Ok(k) => match frame_span(s.skip(k as int)) {
                Ok(n) => if k + n <= s.len() {
                    shifted(entries_span(s.skip((k + n) as int), (count - 1) as nat), k + n)
                } else {
                    Err(RespError::NotComplete)
                },
                Err(e) => Err(e),
            },
            Err(e) => Err(e),
        }
    }
}

/// The number of bytes of the frame at the start of `s`. `NotComplete` says
/// that `s` ends before the frame does; every other error says that no
/// continuation of `s` starts with a frame. Only the structure is read here:
/// prefix bytes, header lines, lengths and counts.
#[verifier::opaque]
pub open spec fn frame_span(s: Seq<u8>) -> Result<nat, RespError>
    decreases s.len(), 0nat,
{
    if s.len() == 0 {
        Err(RespError::NotComplete)
    } else if !is_prefix(s[0]) {
        Err(RespError::InvalidFrameType)
    } else {
        match header_line(s) {
            None => Err(RespError::NotComplete),
            Some((head, body)) => {
                if s[0] == DOLLAR {
                    match text_int(head) {
                        Some(len) => bulk_span(s, body, len),
                        None => Err(RespError::InvalidFrameLength),
                    }
                } else if s[0] == STAR {
                    match text_int(head) {
                        Some(len) => if len == -1 {
                            Ok(body)
                        } else if len < 0 {
                            Err(RespError::InvalidFrameLength)
                        } else {
                            shifted(items_span(s.skip(body as int), len as nat), body)
                        },
                        None => Err(RespError::InvalidFrameLength),
                    }
                } else if s[0] == TILDE {
                    match text_int(head) {
                        Some(len) => if len < 0 {
                            Err(RespError::InvalidFrameLength)
                        } else {
                            shifted(items_span(s.skip(body as int), len as nat), body)
                        },
                        None => Err(RespError::InvalidFrameLength),
                    }
                } else if s[0] == PERCENT {
                    match text_int(head) {
                        Some(len) => if len < 0 {
                            Err(RespError::InvalidFrameLength)
                        } else {
                            shifted(entries_span(s.skip(body as int), len as nat), body)
                        },
                        None => Err(RespError::InvalidFrameLength),
                    }
                } else {
                    Ok(body)
                }
            },
        }
    }
}

/// The values of `count` frames at the start of `s`, added to `acc` in order.
pub open spec fn items_value(s: Seq<u8>, count: nat, acc: Seq<FrameView>) -> Result<
    Seq<FrameView>,
    RespError,
>
    decreases s.len(), count + 1,
{
    if count == 0 {
        Ok(acc)
    } else {
        match frame_span(s) {
            Ok(n) => if n <= s.len() {
                match frame_value(s) {
                    Ok(f) => items_value(s.skip(n as int), (count - 1) as nat, acc.push(f)),
                    Err(e) => Err(e),
                }
            } else {
                Err(RespError::NotComplete)
            },
            Err(e) => Err(e),
        }
    }
}

/// The text of a map's key, which must be valid UTF-8.
pub open spec fn key_value(s: Seq<u8>) -> Result<Seq<u8>, RespError> {
    match header_line(s) {
        Some((head, _)) => if valid_utf8(head) {
            Ok(head)
        } else {
            Err(RespError::Utf8Error)
        },
        None => Err(RespError::NotComplete),
    }
}

/// The entries of `count` map entries at the start of `s`, set in `acc` one
/// after the other: of two entries with one key the later one stays.
pub open spec fn entries_value(s: Seq<u8>, count: nat, acc: Seq<(Seq<u8>, FrameView)>) -> Result<
    Seq<(Seq<u8>, FrameView)>,
    RespError,
>
    decreases s.len(), count + 1,
{
    if count == 0 {
        Ok(acc)
    } else {
        match key_span(s) {
            Ok(k) => match frame_span(s.skip(k as int)) {
                Ok(n) => if k + n <= s.len() {
                    match key_value(s) {
                        Ok(key) => match frame_value(s.skip(k as int)) {
                            Ok(f) => entries_value(
                                s.skip((k + n) as int),
                                (count - 1) as nat,
                                put(acc, key, f),
                            ),
                            Err(e) => Err(e),
                        },
                        Err(e) => Err(e),
                    }
                } else {
                    Err(RespError::NotComplete)
                },
                Err(e) => Err(e),
            },
            Err(e) => Err(e),
        }
    }
}

/// The value of a bulk string whose header ends at `body` and announces the
/// length `len`.
pub open spec fn bulk_value(s: Seq<u8>, body: nat, len: int) -> Result<FrameView, RespError> {
    if len == -1 {
        Ok(FrameView::BulkString(Seq::empty()))
    } else if len < 0 || s.len() < body + len {
        Err(RespError::InvalidFrameLength)
    } else {
        Ok(FrameView::BulkString(s.subrange(body as int, body + len)))
    }
}

/// The value of a frame of one line, with the prefix byte `prefix` and the
/// header text `head`.
pub open spec fn line_value(prefix: u8, head: Seq<u8>) -> Result<FrameView, RespError> {
    if prefix == PLUS {
        if valid_utf8(head) {
            Ok(FrameView::SimpleString(head))
        } else {
            Err(RespError::Utf8Error)
        }
    } else if prefix == MINUS {
        if valid_utf8(head) {
            Ok(FrameView::Error(head))
        } else {
            Err(RespError::Utf8Error)
        }
    } else if prefix == COLON {
        match text_i64(head) {
            Some(v) => Ok(FrameView::Integer(v)),
            None => Err(RespError::ParseIntError),
        }
    } else if prefix == UNDERSCORE {
        if head.len() == 0 {
            Ok(FrameView::Null)
        } else {
            Err(RespError::InvalidFrame)
        }
    } else if prefix == HASH {
        if head == seq![LOWER_T] {
            Ok(FrameView::Boolean(true))
        } else if head == seq![LOWER_F] {
            Ok(FrameView::Boolean(false))
        } else {
            Err(RespError::InvalidFrame)
        }
    } else if prefix == COMMA {
        match text_double(head) {
            Some(d) => Ok(FrameView::Double(d)),
            None => Err(RespError::ParseFloatError),
        }
    } else {
        Err(RespError::InvalidFrameType)
    }
}

/// The value of the frame at the start of `s`, for a sequence that holds the
/// whole frame. The first part of the frame that does not write a value of
/// its type gives the error.
#[verifier::opaque]
pub open spec fn frame_value(s: Seq<u8>) -> Result<FrameView, RespError>
    decreases s.len(), 0nat,
{
    if s.len() == 0 {
        Err(RespError::NotComplete)
    } else {
        match header_line(s) {
            None => Err(RespError::NotComplete),
            Some((head, body)) => {
                if s[0] == DOLLAR {
                    match text_int(head) {
                        Some(len) => bulk_value(s, body, len),
                        None => Err(RespError::InvalidFrameLength),
                    }
                } else if s[0] == STAR {
                    match text_int(head) {
                        Some(len) => if len == -1 {
                            Ok(FrameView::Array(Seq::empty()))
                        } else if len < 0 {
                            Err(RespError::InvalidFrameLength)
                        } else {
                            match items_value(s.skip(body as int), len as nat, Seq::empty()) {
                                Ok(items) => Ok(FrameView::Array(items)),
                                Err(e) => Err(e),
                            }
                        },
                        None => Err(RespError::InvalidFrameLength),
                    }
                } else if s[0] == TILDE {
                    match text_int(head) {
                        Some(len) => if len < 0 {
                            Err(RespError::InvalidFrameLength)
                        } else {
                            match items_value(s.skip(body as int), len as nat, Seq::empty()) {
                                Ok(items) => Ok(FrameView::SetOf(items)),
                                Err(e) => Err(e),
                            }
                        },
                        None => Err(RespError::InvalidFrameLength),
                    }
                } else if s[0] == PERCENT {
                    match text_int(head) {
                        Some(len) => if len < 0 {
                            Err(RespError::InvalidFrameLength)
                        } else {
                            match entries_value(s.skip(body as int), len as nat, Seq::empty()) {
                                Ok(entries) => Ok(FrameView::MapOf(entries)),
                                Err(e) => Err(e),
                            }
                        },
                        None => Err(RespError::InvalidFrameLength),
                    }
                } else {
                    line_value(s[0], head)
                }
            },
        }
    }
}

/// What decoding the start of `s` gives: the value of the first frame and the
/// number of bytes it spans. The span is settled first, so a sequence that
/// ends before its frame does is `NotComplete` whatever it holds.
pub open spec fn decoded(s: Seq<u8>) -> Result<(FrameView, nat), RespError> {
    match frame_span(s) {
        Ok(n) => match frame_value(s) {
            Ok(f) => Ok((f, n)),
            Err(e) => Err(e),
        },
        Err(e) => Err(e),
    }
}

} // verus!
