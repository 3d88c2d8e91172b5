//! SHA-1, as computed by the `sha1` crate.

use sha1::{Digest, Sha1};
use vstd::prelude::*;

verus! {

/// The SHA-1 digest of `data`.
pub uninterp spec fn sha1_digest(data: Seq<u8>) -> Seq<u8>;

/// Calls `Sha1::digest` of the `sha1` crate. Trusted: the twenty bytes that
/// come back are the SHA-1 digest of `data`, which depends on `data` alone.
#[verifier::external_body]
pub(crate) fn sha1_of(data: &[u8]) -> (out: [u8; 20])
    ensures
        out@ == sha1_digest(data@),
{
    Sha1::digest(data).into()
}

/// The SHA-1 digest of `data`.
pub fn sha1(data: &[u8]) -> (out: [u8; 20])
    ensures
        out@ == sha1_digest(data@),
{
    sha1_of(data)
}

} // verus!
