//! The growable byte buffer that decoding reads from and consumes.

use vstd::prelude::*;
use bytes::{Buf, BytesMut};

verus! {

#[verifier::external_type_specification]
#[verifier::external_body]
pub struct ExBytesMut(BytesMut);

/// The bytes that a buffer holds, first to last.
pub uninterp spec fn buffer_bytes(buf: BytesMut) -> Seq<u8>;

/// `BytesMut::as_ref`: the slice of the bytes that the buffer holds.
#[verifier::external_body]
pub(crate) fn buffer_slice(buf: &BytesMut) -> (s: &[u8])
    ensures
        s@ == buffer_bytes(*buf),
{
    buf.as_ref()
}

/// `Buf::advance` on a `BytesMut`: drops the first `cnt` bytes and keeps the
/// others. The call panics when `cnt` is more than the buffer holds, which
/// the precondition rules out.
#[verifier::external_body]
pub(crate) fn buffer_advance(buf: &mut BytesMut, cnt: usize)
    requires
        cnt <= buffer_bytes(*old(buf)).len(),
    ensures
        buffer_bytes(*final(buf)) == buffer_bytes(*old(buf)).skip(cnt as int),
{
    buf.advance(cnt)
}

/// `BytesMut::split_to`: returns a buffer with the first `at` bytes and
/// leaves the others. The call panics when `at` is more than the buffer
/// holds, which the precondition rules out.
#[verifier::external_body]
pub(crate) fn buffer_split_to(buf: &mut BytesMut, at: usize) -> (head: BytesMut)
    requires
        at <= buffer_bytes(*old(buf)).len(),
    ensures
        buffer_bytes(head) == buffer_bytes(*old(buf)).take(at as int),
        buffer_bytes(*final(buf)) == buffer_bytes(*old(buf)).skip(at as int),
{
    buf.split_to(at)
}

} // verus!
