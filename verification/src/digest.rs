//! SHA-1, through the `sha1` crate.

use vstd::prelude::*;

verus! {

/// The SHA-1 digest of `data`.
pub uninterp spec fn sha1(data: Seq<u8>) -> Seq<u8>;

/// Computes the SHA-1 digest of `data` with `sha1::Sha1` (`Digest::digest`).
///
/// Claims only that the 20 bytes returned are the digest of `data`, a value
/// that depends on `data` alone.
#[verifier::external_body]
pub(crate) fn sha1_digest(data: &[u8]) -> (r: [u8; 20])
    ensures
        r@ == sha1(data@),
{
    <sha1::Sha1 as sha1::Digest>::digest(data).into()
}

} // verus!
