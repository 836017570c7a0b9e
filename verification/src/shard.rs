//! Shards: the bucket of a key, for a store that is held as several stores
//! with one lock each.

use vstd::prelude::*;
use vstd::wrapping::u64_specs::wrapping_mul;
use crate::frame::text_bytes;

verus! {

/// The hash of the bytes `s` that follow bytes with the hash `h`: for each
/// byte, exclusive or, then a multiplication that wraps around.
pub open spec fn hash_from(h: u64, s: Seq<u8>) -> u64
    decreases s.len(),
{
    if s.len() == 0 {
        h
    } else {
        hash_from(wrapping_mul(h ^ (s[0] as u64), 0x100000001b3u64), s.drop_first())
    }
}

/// The hash of a key.
pub open spec fn key_hash(s: Seq<u8>) -> u64 {
    hash_from(0xcbf29ce484222325u64, s)
}

/// The shard of `key` among `shards` shards: the same for every use of the
/// key, and below `shards`. Without shards it is zero.
pub fn shard_of(key: &str, shards: usize) -> (r: usize)
    ensures
        shards > 0 ==> r == key_hash(text_bytes(key@)) % (shards as u64),
        shards > 0 ==> r < shards,
        shards == 0 ==> r == 0,
{
    if shards == 0 {
        return 0;
    }
    let bytes = key.as_bytes();
    let mut h: u64 = 0xcbf29ce484222325u64;
    let mut i: usize = 0;
    assert(bytes@.skip(0) =~= bytes@);
    while i < bytes.len()
        invariant
            i <= bytes@.len(),
            hash_from(h, bytes@.skip(i as int)) == key_hash(bytes@),
        decreases bytes@.len() - i,
    {
        proof {
            assert(bytes@.skip(i as int).drop_first() =~= bytes@.skip(i + 1));
        }
        h = (h ^ (bytes[i] as u64)).wrapping_mul(0x100000001b3u64);
        i = i + 1;
    }
    (h % (shards as u64)) as usize
}

} // verus!
