//! Keccak-256 hashing, delegated to `tiny_keccak`.

use vstd::prelude::*;

verus! {

/// The Keccak-256 digest of a message.
pub uninterp spec fn keccak256_digest(data: Seq<u8>) -> Seq<u8>;

/// Hashes `data` with `tiny_keccak::keccak256`.
///
/// Trusted: the 32-byte result is the digest of exactly the bytes passed in;
/// nothing more is said of the digest itself.
#[verifier::external_body]
pub(crate) fn keccak256(data: &[u8]) -> (digest: [u8; 32])
    ensures
        digest@ == keccak256_digest(data@),
{
    tiny_keccak::keccak256(data)
}

} // verus!
