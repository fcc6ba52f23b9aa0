//! The hash function of the channel and of the covenant: SHA-256.

use sha2::Digest;
use vstd::prelude::*;

verus! {

/// The SHA-256 digest of a message, as the `sha2` crate computes it.
pub uninterp spec fn sha256_digest(message: Seq<u8>) -> Seq<u8>;

/// Hashes a message: `sha2`'s `Sha256::digest`.
///
/// The contract names the digest, a function of the message alone, and claims that it has
/// 32 bytes. What the bytes are is left to the name.
#[verifier::external_body]
pub(crate) fn sha256(message: &[u8]) -> (digest: Vec<u8>)
    ensures
        digest@ == sha256_digest(message@),
        digest@.len() == 32,
{
    sha2::Sha256::digest(message).to_vec()
}

} // verus!
