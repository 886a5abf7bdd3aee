use vstd::prelude::*;
use sha2::Digest;
use sha2::Sha256;

verus! {

/// The SHA-256 digest of a byte sequence, as the `sha2` crate computes it.
pub uninterp spec fn sha256_of(data: Seq<u8>) -> Seq<u8>;

/// One-shot SHA-256 (`sha2::Sha256::digest`). The contract names the result
/// by `sha256_of` of the exact input bytes; the algorithm itself is not
/// restated here.
#[verifier::external_body]
pub fn sha256(data: &[u8]) -> (out: [u8; 32])
    ensures
        out@ == sha256_of(data@),
{
    Sha256::digest(data).into()
}

} // verus!
