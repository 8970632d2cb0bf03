//! The XXH3 hash functions.

use vstd::prelude::*;

verus! {

/// The 64-bit XXH3 digest of `data`.
pub uninterp spec fn xxh3_digest(data: Seq<u8>) -> u64;

/// The 64-bit XXH3 digest of `data` under `seed`.
pub uninterp spec fn xxh3_seeded_digest(data: Seq<u8>, seed: u64) -> u64;

/// Calls `xxhash_rust::xxh3::xxh3_64`. Claims that the digest is a function of
/// the bytes alone, which is what `xxh3_digest` names.
#[verifier::external_body]
pub(crate) fn xxh3_64(data: &[u8]) -> (h: u64)
    ensures
        h == xxh3_digest(data@),
{
    xxhash_rust::xxh3::xxh3_64(data)
}

/// Calls `xxhash_rust::xxh3::xxh3_64_with_seed`. Claims that the digest is a
/// function of the bytes and the seed alone, which is what
/// `xxh3_seeded_digest` names.
#[verifier::external_body]
pub(crate) fn xxh3_64_with_seed(data: &[u8], seed: u64) -> (h: u64)
    ensures
        h == xxh3_seeded_digest(data@, seed),
{
    xxhash_rust::xxh3::xxh3_64_with_seed(data, seed)
}

} // verus!
