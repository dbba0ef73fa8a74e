//! SHA-1, by which a torrent is named.

use vstd::prelude::*;
use sha1::Digest;

verus! {

/// The SHA-1 digest of `bytes`, as the `sha1` crate computes it: a function
/// of the bytes alone, twenty bytes long.
pub uninterp spec fn sha1_digest(bytes: Seq<u8>) -> Seq<u8>;

/// Trusted: `Sha1::digest` of the `sha1` crate, its output copied into an
/// array. The result is the digest of exactly these bytes.
#[verifier::external_body]
pub(crate) fn sha1_of(bytes: &[u8]) -> (digest: [u8; 20])
    ensures
        digest@ == sha1_digest(bytes@),
{
    sha1::Sha1::digest(bytes).into()
}

} // verus!
