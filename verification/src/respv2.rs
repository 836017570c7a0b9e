//! The batch codec: first the length of the next frame, found without
//! building anything, then the parse of exactly that span.

use vstd::prelude::*;
use vstd::slice::slice_subrange;
use bytes::BytesMut;
use crate::buffer::{buffer_bytes, buffer_slice, buffer_split_to};
use crate::frame::{FrameView, RespError, RespFrame};
use crate::grammar::{decoded, frame_span, frame_value};
use crate::local::{lemma_decoded_local, same_start};
use crate::parse::decode_frame;
use crate::probe::probe_frame;

verus! {

/// The first phase: the number of bytes of the frame at the start of
/// `input`. Every failure is the one signal `NotComplete`: the caller
/// gathers more bytes and asks again.
pub fn parse_frame_length(input: &[u8]) -> (r: Result<usize, RespError>)
    ensures
        match r {
            Ok(n) => frame_span(input@) == Ok::<nat, RespError>(n as nat) && n <= input@.len(),
            Err(e) => e == RespError::NotComplete && frame_span(input@) is Err,
        },
{
    assert(input@.skip(0) =~= input@);
    match probe_frame(input, 0) {
        Ok(n) => Ok(n),
        Err(_) => Err(RespError::NotComplete),
    }
}

/// The second phase: builds the frame at the start of `input` and moves
/// `input` behind it. Every failure is the one error `InvalidFrame`, and
/// leaves `input` where it was: asking again with more bytes is of no use
/// once the first phase has found the span.
pub fn parse_frame(input: &mut &[u8]) -> (r: Result<RespFrame, RespError>)
    ensures
        match r {
            Ok(f) => match decoded(old(input)@) {
                Ok((v, n)) => f@ == v && n <= old(input)@.len() && final(input)@ == old(
                    input,
                )@.skip(n as int),
                Err(_) => false,
            },
            Err(e) => e == RespError::InvalidFrame && decoded(old(input)@) is Err && final(input)@
                == old(input)@,
        },
{
    let whole: &[u8] = *input;
    match decode_frame(whole) {
        Ok((f, n)) => {
            *input = slice_subrange(whole, n, whole.len());
            Ok(f)
        },
        Err(_) => Err(RespError::InvalidFrame),
    }
}

/// Decoding in two phases.
pub trait RespDecodeV2: Sized {
    /// The frame that the value is.
    spec fn frame(&self) -> FrameView;

    /// Takes the frame at the front of `buf` out of it. `NotComplete` says
    /// that the first phase found no whole frame, and leaves `buf` as it
    /// was. `InvalidFrame` says that the span which the first phase found
    /// holds no frame: that span has left `buf`.
    fn decode(buf: &mut BytesMut) -> (r: Result<Self, RespError>)
        ensures
            match r {
                Ok(v) => match decoded(buffer_bytes(*old(buf))) {
                    Ok((f, n)) => v.frame() == f && n <= buffer_bytes(*old(buf)).len()
                        && buffer_bytes(*final(buf)) == buffer_bytes(*old(buf)).skip(n as int),
                    Err(_) => false,
                },
                Err(e) => match frame_span(buffer_bytes(*old(buf))) {
                    Ok(n) => e == RespError::InvalidFrame && frame_value(buffer_bytes(*old(buf)))
                        is Err && n <= buffer_bytes(*old(buf)).len() && buffer_bytes(*final(buf))
                        == buffer_bytes(*old(buf)).skip(n as int),
                    Err(_) => e == RespError::NotComplete && buffer_bytes(*final(buf))
                        == buffer_bytes(*old(buf)),
                },
            },
    ;

    /// The number of bytes of the frame at the front of `buf`, or
    /// `NotComplete` where no frame can be read there yet.
    fn expect_length(buf: &[u8]) -> (r: Result<usize, RespError>)
        ensures
            match r {
                Ok(n) => frame_span(buf@) == Ok::<nat, RespError>(n as nat) && n <= buf@.len(),
                Err(e) => e == RespError::NotComplete && frame_span(buf@) is Err,
            },
    ;
}

impl RespDecodeV2 for RespFrame {
    open spec fn frame(&self) -> FrameView {
        self@
    }

    fn decode(buf: &mut BytesMut) -> (r: Result<Self, RespError>) {
        let probed = parse_frame_length(buffer_slice(buf));
        match probed {
            Ok(len) => {
                let data = buffer_split_to(buf, len);
                proof {
                    let s = buffer_bytes(*old(buf));
                    let t = buffer_bytes(data);
                    assert(t.take(len as int) =~= s.take(len as int));
                    assert(same_start(s, t, len as nat));
                    lemma_decoded_local(s, t);
                }
                let mut rest: &[u8] = buffer_slice(&data);
                parse_frame(&mut rest)
            },
            Err(e) => Err(e),
        }
    }

    fn expect_length(buf: &[u8]) -> (r: Result<usize, RespError>) {
        parse_frame_length(buf)
    }
}

} // verus!
