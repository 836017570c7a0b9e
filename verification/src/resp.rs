//! The incremental codec: every frame type encodes itself, and decodes
//! itself from the front of a buffer that may not hold a whole frame yet.

use vstd::prelude::*;
use bytes::BytesMut;
use crate::ascii::{COLON, COMMA, DOLLAR, HASH, MINUS, PERCENT, PLUS, STAR, TILDE, UNDERSCORE};
use crate::buffer::{buffer_advance, buffer_bytes, buffer_slice};
use crate::double::RespDouble;
use crate::frame::{
    BulkString, FrameView, RespArray, RespError, RespFrame, RespMap, RespNull, RespSet, SimpleError,
    SimpleString,
};
use crate::grammar::{decoded, frame_span, frame_value};
use crate::parse::decode_frame;
use crate::probe::{as_span, probe_frame};
use crate::wire::{push_frame, wire};

verus! {

/// What decoding the start of `s` gives to a frame type that takes the
/// prefix byte `prefix` only, or every prefix byte where `prefix` is `None`:
/// a first byte that the type does not take is an `InvalidFrameType`.
pub open spec fn decoded_as(prefix: Option<u8>, s: Seq<u8>) -> Result<(FrameView, nat), RespError> {
    if s.len() == 0 {
        Err(RespError::NotComplete)
    } else if prefix is Some && prefix != Some(s[0]) {
        Err(RespError::InvalidFrameType)
    } else {
        decoded(s)
    }
}

/// The span of the frame at the start of `s`, for a frame type that takes
/// the prefix byte `prefix` only, or every prefix byte where `prefix` is `None`.
pub open spec fn span_as(prefix: Option<u8>, s: Seq<u8>) -> Result<nat, RespError> {
    if s.len() == 0 {
        Err(RespError::NotComplete)
    } else if prefix is Some && prefix != Some(s[0]) {
        Err(RespError::InvalidFrameType)
    } else {
        frame_span(s)
    }
}

/// The prefix byte of the frame type of `f`.
pub open spec fn prefix_of(f: FrameView) -> u8 {
    match f {
        FrameView::SimpleString(_) => PLUS,
        FrameView::Error(_) => MINUS,
        FrameView::Integer(_) => COLON,
        FrameView::BulkString(_) => DOLLAR,
        FrameView::Array(_) => STAR,
        FrameView::Null => UNDERSCORE,
        FrameView::Boolean(_) => HASH,
        FrameView::Double(_) => COMMA,
        FrameView::MapOf(_) => PERCENT,
        FrameView::SetOf(_) => TILDE,
    }
}

/// The value of a frame is of the type that its first byte announces.
pub proof fn lemma_value_prefix(s: Seq<u8>)
    ensures
        frame_value(s) matches Ok(f) ==> s.len() > 0 && prefix_of(f) == s[0],
{
    reveal(frame_value);
}

/// Encoding: every value has exactly one byte string.
pub trait RespEncode: Sized {
    /// The frame that the value is.
    spec fn to_frame(&self) -> FrameView;

    /// The bytes that the value is written as.
    fn encode(self) -> (out: Vec<u8>)
        ensures
            out@ == wire(self.to_frame()),
    ;
}

/// Decoding from the front of a buffer.
pub trait RespDecode: Sized {
    /// The prefix byte of the frames that the type decodes; `None` for a type
    /// that decodes every frame.
    spec fn prefix() -> Option<u8>;

    /// The frame that the value is.
    spec fn frame(&self) -> FrameView;

    /// Takes the frame at the front of `buf` out of it. Without a whole
    /// frame, and on every other error, `buf` stays as it was.
    fn decode(buf: &mut BytesMut) -> (r: Result<Self, RespError>)
        ensures
            match r {
                Ok(v) => match decoded_as(Self::prefix(), buffer_bytes(*old(buf))) {
                    Ok((f, n)) => v.frame() == f && n <= buffer_bytes(*old(buf)).len()
                        && buffer_bytes(*final(buf)) == buffer_bytes(*old(buf)).skip(n as int),
                    Err(_) => false,
                },
                Err(e) => decoded_as(Self::prefix(), buffer_bytes(*old(buf))) == Err::<
                    (FrameView, nat),
                    RespError,
                >(e) && buffer_bytes(*final(buf)) == buffer_bytes(*old(buf)),
            },
    ;

    /// The number of bytes of the frame at the front of `buf`.
    fn expect_length(buf: &[u8]) -> (r: Result<usize, RespError>)
        ensures
            as_span(r) == span_as(Self::prefix(), buf@),
            r matches Ok(n) ==> n <= buf@.len(),
    ;
}

/// Encodes `f`.
pub fn encode_frame(f: &RespFrame) -> (out: Vec<u8>)
    ensures
        out@ == wire(f@),
{
    let mut out: Vec<u8> = Vec::new();
    push_frame(&mut out, f);
    assert(out@ =~= wire(f@));
    out
}

/// Takes the frame at the front of `buf` out of it, for a type that decodes
/// the frames with the given prefix byte.
pub fn decode_as(buf: &mut BytesMut, prefix: Option<u8>) -> (r: Result<RespFrame, RespError>)
    ensures
        match r {
            Ok(v) => match decoded_as(prefix, buffer_bytes(*old(buf))) {
                Ok((f, n)) => v@ == f && n <= buffer_bytes(*old(buf)).len() && buffer_bytes(
                    *final(buf),
                ) == buffer_bytes(*old(buf)).skip(n as int),
                Err(_) => false,
            },
            Err(e) => decoded_as(prefix, buffer_bytes(*old(buf))) == Err::<
                (FrameView, nat),
                RespError,
            >(e) && buffer_bytes(*final(buf)) == buffer_bytes(*old(buf)),
        },
        r matches Ok(v) ==> prefix matches Some(p) ==> prefix_of(v@) == p,
{
    proof {
        lemma_value_prefix(buffer_bytes(*buf));
    }
    let decoded = {
        let bytes = buffer_slice(buf);
        if bytes.len() == 0 {
            Err(RespError::NotComplete)
        } else if prefix.is_some() && prefix.unwrap() != bytes[0] {
            Err(RespError::InvalidFrameType)
        } else {
            decode_frame(bytes)
        }
    };
    match decoded {
        Ok((f, n)) => {
            buffer_advance(buf, n);
            Ok(f)
        },
        Err(e) => Err(e),
    }
}

/// The number of bytes of the frame at the front of `buf`, for a type that
/// decodes the frames with the given prefix byte.
pub fn expect_length_as(buf: &[u8], prefix: Option<u8>) -> (r: Result<usize, RespError>)
    ensures
        as_span(r) == span_as(prefix, buf@),
        r matches Ok(n) ==> n <= buf@.len(),
{
    if buf.len() == 0 {
        Err(RespError::NotComplete)
    } else if prefix.is_some() && prefix.unwrap() != buf[0] {
        Err(RespError::InvalidFrameType)
    } else {
        assert(buf@.skip(0) =~= buf@);
        probe_frame(buf, 0)
    }
}

impl RespEncode for RespFrame {
    open spec fn to_frame(&self) -> FrameView {
        self@
    }

    fn encode(self) -> (out: Vec<u8>) {
        encode_frame(&self)
    }
}

impl RespDecode for RespFrame {
    open spec fn prefix() -> Option<u8> {
        None
    }

    open spec fn frame(&self) -> FrameView {
        self@
    }

    fn decode(buf: &mut BytesMut) -> (r: Result<Self, RespError>) {
        decode_as(buf, None)
    }

    fn expect_length(buf: &[u8]) -> (r: Result<usize, RespError>) {
        expect_length_as(buf, None)
    }
}

impl RespEncode for SimpleString {
    open spec fn to_frame(&self) -> FrameView {
        FrameView::SimpleString(self@)
    }

    fn encode(self) -> (out: Vec<u8>) {
        encode_frame(&RespFrame::SimpleString(self))
    }
}

impl RespDecode for SimpleString {
    open spec fn prefix() -> Option<u8> {
        Some(PLUS)
    }

    open spec fn frame(&self) -> FrameView {
        FrameView::SimpleString(self@)
    }

    fn decode(buf: &mut BytesMut) -> (r: Result<Self, RespError>) {
        match decode_as(buf, Some(PLUS)) {
            Ok(f) => match f {
                RespFrame::SimpleString(v) => Ok(v),
                // a frame is of the type that its prefix byte announces
                _ => Err(RespError::InvalidFrameType),
            },
            Err(e) => Err(e),
        }
    }

    fn expect_length(buf: &[u8]) -> (r: Result<usize, RespError>) {
        expect_length_as(buf, Some(PLUS))
    }
}

impl RespEncode for SimpleError {
    open spec fn to_frame(&self) -> FrameView {
        FrameView::Error(self@)
    }

    fn encode(self) -> (out: Vec<u8>) {
        encode_frame(&RespFrame::Error(self))
    }
}

impl RespDecode for SimpleError {
    open spec fn prefix() -> Option<u8> {
        Some(MINUS)
    }

    open spec fn frame(&self) -> FrameView {
        FrameView::Error(self@)
    }

    fn decode(buf: &mut BytesMut) -> (r: Result<Self, RespError>) {
        match decode_as(buf, Some(MINUS)) {
            Ok(f) => match f {
                RespFrame::Error(v) => Ok(v),
                // a frame is of the type that its prefix byte announces
                _ => Err(RespError::InvalidFrameType),
            },
            Err(e) => Err(e),
        }
    }

    fn expect_length(buf: &[u8]) -> (r: Result<usize, RespError>) {
        expect_length_as(buf, Some(MINUS))
    }
}

impl RespEncode for i64 {
    open spec fn to_frame(&self) -> FrameView {
        FrameView::Integer(*self)
    }

    fn encode(self) -> (out: Vec<u8>) {
        encode_frame(&RespFrame::Integer(self))
    }
}

impl RespDecode for i64 {
    open spec fn prefix() -> Option<u8> {
        Some(COLON)
    }

    open spec fn frame(&self) -> FrameView {
        FrameView::Integer(*self)
    }

    fn decode(buf: &mut BytesMut) -> (r: Result<Self, RespError>) {
        match decode_as(buf, Some(COLON)) {
            Ok(f) => match f {
                RespFrame::Integer(v) => Ok(v),
                // a frame is of the type that its prefix byte announces
                _ => Err(RespError::InvalidFrameType),
            },
            Err(e) => Err(e),
        }
    }

    fn expect_length(buf: &[u8]) -> (r: Result<usize, RespError>) {
        expect_length_as(buf, Some(COLON))
    }
}

impl RespEncode for BulkString {
    open spec fn to_frame(&self) -> FrameView {
        FrameView::BulkString(self@)
    }

    fn encode(self) -> (out: Vec<u8>) {
        encode_frame(&RespFrame::BulkString(self))
    }
}

impl RespDecode for BulkString {
    open spec fn prefix() -> Option<u8> {
        Some(DOLLAR)
    }

    open spec fn frame(&self) -> FrameView {
        FrameView::BulkString(self@)
    }

    fn decode(buf: &mut BytesMut) -> (r: Result<Self, RespError>) {
        match decode_as(buf, Some(DOLLAR)) {
            Ok(f) => match f {
                RespFrame::BulkString(v) => Ok(v),
                // a frame is of the type that its prefix byte announces
                _ => Err(RespError::InvalidFrameType),
            },
            Err(e) => Err(e),
        }
    }

    fn expect_length(buf: &[u8]) -> (r: Result<usize, RespError>) {
        expect_length_as(buf, Some(DOLLAR))
    }
}

impl RespEncode for RespArray {
    open spec fn to_frame(&self) -> FrameView {
        FrameView::Array(self@)
    }

    fn encode(self) -> (out: Vec<u8>) {
        encode_frame(&RespFrame::Array(self))
    }
}

impl RespDecode for RespArray {
    open spec fn prefix() -> Option<u8> {
        Some(STAR)
    }

    open spec fn frame(&self) -> FrameView {
        FrameView::Array(self@)
    }

    fn decode(buf: &mut BytesMut) -> (r: Result<Self, RespError>) {
        match decode_as(buf, Some(STAR)) {
            Ok(f) => match f {
                RespFrame::Array(v) => Ok(v),
                // a frame is of the type that its prefix byte announces
                _ => Err(RespError::InvalidFrameType),
            },
            Err(e) => Err(e),
        }
    }

    fn expect_length(buf: &[u8]) -> (r: Result<usize, RespError>) {
        expect_length_as(buf, Some(STAR))
    }
}

impl RespEncode for RespNull {
    open spec fn to_frame(&self) -> FrameView {
        FrameView::Null
    }

    fn encode(self) -> (out: Vec<u8>) {
        encode_frame(&RespFrame::Null(self))
    }
}

impl RespDecode for RespNull {
    open spec fn prefix() -> Option<u8> {
        Some(UNDERSCORE)
    }

    open spec fn frame(&self) -> FrameView {
        FrameView::Null
    }

    fn decode(buf: &mut BytesMut) -> (r: Result<Self, RespError>) {
        match decode_as(buf, Some(UNDERSCORE)) {
            Ok(f) => match f {
                RespFrame::Null(v) => Ok(v),
                // a frame is of the type that its prefix byte announces
                _ => Err(RespError::InvalidFrameType),
            },
            Err(e) => Err(e),
        }
    }

    fn expect_length(buf: &[u8]) -> (r: Result<usize, RespError>) {
        expect_length_as(buf, Some(UNDERSCORE))
    }
}

impl RespEncode for bool {
    open spec fn to_frame(&self) -> FrameView {
        FrameView::Boolean(*self)
    }

    fn encode(self) -> (out: Vec<u8>) {
        encode_frame(&RespFrame::Boolean(self))
    }
}

impl RespDecode for bool {
    open spec fn prefix() -> Option<u8> {
        Some(HASH)
    }

    open spec fn frame(&self) -> FrameView {
        FrameView::Boolean(*self)
    }

    fn decode(buf: &mut BytesMut) -> (r: Result<Self, RespError>) {
        match decode_as(buf, Some(HASH)) {
            Ok(f) => match f {
                RespFrame::Boolean(v) => Ok(v),
                // a frame is of the type that its prefix byte announces
                _ => Err(RespError::InvalidFrameType),
            },
            Err(e) => Err(e),
        }
    }

    fn expect_length(buf: &[u8]) -> (r: Result<usize, RespError>) {
        expect_length_as(buf, Some(HASH))
    }
}

impl RespEncode for RespDouble {
    open spec fn to_frame(&self) -> FrameView {
        FrameView::Double(self@)
    }

    fn encode(self) -> (out: Vec<u8>) {
        encode_frame(&RespFrame::Double(self))
    }
}

impl RespDecode for RespDouble {
    open spec fn prefix() -> Option<u8> {
        Some(COMMA)
    }

    open spec fn frame(&self) -> FrameView {
        FrameView::Double(self@)
    }

    fn decode(buf: &mut BytesMut) -> (r: Result<Self, RespError>) {
        match decode_as(buf, Some(COMMA)) {
            Ok(f) => match f {
                RespFrame::Double(v) => Ok(v),
                // a frame is of the type that its prefix byte announces
                _ => Err(RespError::InvalidFrameType),
            },
            Err(e) => Err(e),
        }
    }

    fn expect_length(buf: &[u8]) -> (r: Result<usize, RespError>) {
        expect_length_as(buf, Some(COMMA))
    }
}

impl RespEncode for RespMap {
    open spec fn to_frame(&self) -> FrameView {
        FrameView::MapOf(self@)
    }

    fn encode(self) -> (out: Vec<u8>) {
        encode_frame(&RespFrame::MapOf(self))
    }
}

impl RespDecode for RespMap {
    open spec fn prefix() -> Option<u8> {
        Some(PERCENT)
    }

    open spec fn frame(&self) -> FrameView {
        FrameView::MapOf(self@)
    }

    fn decode(buf: &mut BytesMut) -> (r: Result<Self, RespError>) {
        match decode_as(buf, Some(PERCENT)) {
            Ok(f) => match f {
                RespFrame::MapOf(v) => Ok(v),
                // a frame is of the type that its prefix byte announces
                _ => Err(RespError::InvalidFrameType),
            },
            Err(e) => Err(e),
        }
    }

    fn expect_length(buf: &[u8]) -> (r: Result<usize, RespError>) {
        expect_length_as(buf, Some(PERCENT))
    }
}

impl RespEncode for RespSet {
    open spec fn to_frame(&self) -> FrameView {
        FrameView::SetOf(self@)
    }

    fn encode(self) -> (out: Vec<u8>) {
        encode_frame(&RespFrame::SetOf(self))
    }
}

impl RespDecode for RespSet {
    open spec fn prefix() -> Option<u8> {
        Some(TILDE)
    }

    open spec fn frame(&self) -> FrameView {
        FrameView::SetOf(self@)
    }

    fn decode(buf: &mut BytesMut) -> (r: Result<Self, RespError>) {
        match decode_as(buf, Some(TILDE)) {
            Ok(f) => match f {
                RespFrame::SetOf(v) => Ok(v),
                // a frame is of the type that its prefix byte announces
                _ => Err(RespError::InvalidFrameType),
            },
            Err(e) => Err(e),
        }
    }

    fn expect_length(buf: &[u8]) -> (r: Result<usize, RespError>) {
        expect_length_as(buf, Some(TILDE))
    }
}

} // verus!
