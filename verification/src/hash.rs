//! SHA-256.

use sha2::{Digest, Sha256};
use vstd::prelude::*;

verus! {

/// The SHA-256 of a byte string.
pub uninterp spec fn sha256_digest(bytes: Seq<u8>) -> Seq<u8>;

/// The SHA-256 of a byte string.
///
/// Calls `sha2::Sha256::digest`. Claimed: the digest is a function of the bytes
/// and has 32 bytes.
#[verifier::external_body]
pub(crate) fn sha256(bytes: &[u8]) -> (digest: Vec<u8>)
    ensures
        digest@ == sha256_digest(bytes@),
        digest@.len() == 32,
{
    Sha256::digest(bytes).to_vec()
}

} // verus!
