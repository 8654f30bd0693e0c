//! Content identification: the 128-bit XXH3 hash of a file's bytes.

use vstd::prelude::*;

verus! {

/// The 128-bit XXH3 hash of a byte sequence; a pure function of the bytes.
pub uninterp spec fn xxh3_of(data: Seq<u8>) -> u128;

/// Relies on xxhash_rust::xxh3::xxh3_128: the hash depends on the input
/// bytes alone.
#[verifier::external_body]
pub fn xxh3_bytes(data: &[u8]) -> (r: u128)
    ensures
        r == xxh3_of(data@),
{
    xxhash_rust::xxh3::xxh3_128(data)
}

} // verus!
