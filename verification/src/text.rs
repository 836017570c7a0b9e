//! Texts: strings and the bytes that write them.

use vstd::prelude::*;
use vstd::slice::slice_to_vec;
use vstd::utf8::valid_utf8;
use crate::frame::text_bytes;

verus! {

/// `String::from_utf8` of the standard library. The contract claims what its
/// documentation says: the call succeeds exactly when the bytes are valid
/// UTF-8, and the string then holds those bytes.
#[verifier::external_body]
pub(crate) fn string_from_utf8(bytes: Vec<u8>) -> (r: Option<String>)
    ensures
        r is Some <==> valid_utf8(bytes@),
        r matches Some(s) ==> text_bytes(s@) == bytes@,
{
    String::from_utf8(bytes).ok()
}

/// The text that `bytes` write, if they are valid UTF-8.
pub fn text_of(bytes: &[u8]) -> (r: Option<String>)
    ensures
        r is Some <==> valid_utf8(bytes@),
        r matches Some(s) ==> text_bytes(s@) == bytes@,
{
    string_from_utf8(slice_to_vec(bytes))
}

/// Two texts with the same bytes are the same text.
pub proof fn lemma_text_bytes_injective(a: Seq<char>, b: Seq<char>)
    requires
        text_bytes(a) == text_bytes(b),
    ensures
        a == b,
{
    vstd::utf8::encode_utf8_decode_utf8(a);
    vstd::utf8::encode_utf8_decode_utf8(b);
}

/// The bytes of a text are valid UTF-8.
pub proof fn lemma_text_bytes_valid(a: Seq<char>)
    ensures
        valid_utf8(text_bytes(a)),
{
    vstd::utf8::encode_utf8_valid_utf8(a);
}

} // verus!
