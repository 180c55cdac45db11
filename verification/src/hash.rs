//! Hashes of text, to tell cheaply whether it changed.
use vstd::prelude::*;

verus! {

/// A hash of `input` for this process. ahash's `AHasher::default()` takes
/// its keys from a random source the first time it is used in a process, so
/// the value is not stated: it is only meant to be compared with hashes made
/// by the same process.
#[verifier::external_body]
pub fn hash_fast(input: &str) -> u64 {
    let mut hasher = ahash::AHasher::default();
    std::hash::Hash::hash(input.as_bytes(), &mut hasher);
    std::hash::Hasher::finish(&hasher)
}

/// What seahash's `hash` gives for `bytes`.
pub uninterp spec fn seahash_value(bytes: Seq<u8>) -> u64;

/// seahash's `hash`: a hash of the bytes that is the same on every machine
/// and in every process; its algorithm is named `seahash_value`.
#[verifier::external_body]
pub fn hash_portable(input: &[u8]) -> (h: u64)
    ensures
        h == seahash_value(input@),
{
    seahash::hash(input)
}

} // verus!
