//! The digest that content addresses are made of.

use sha2::Digest;
use vstd::prelude::*;

verus! {

/// The SHA-256 digest of a byte string.
pub uninterp spec fn sha256(data: Seq<u8>) -> Seq<u8>;

/// The digest tells `x` and `y` apart: they do not collide.
pub open spec fn no_collision(x: Seq<u8>, y: Seq<u8>) -> bool {
    sha256(x) == sha256(y) ==> x == y
}

/// Calls `sha2::Sha256::digest`, the one-shot form of the hash: the 32 bytes
/// it returns are the SHA-256 digest of `data`, which depends on `data` alone.
#[verifier::external_body]
pub(crate) fn sha256_of(data: &[u8]) -> (out: [u8; 32])
    ensures
        out@ == sha256(data@),
{
    sha2::Sha256::digest(data).into()
}

} // verus!
