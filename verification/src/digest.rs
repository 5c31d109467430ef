//! SHA-256 fingerprints of canonical byte strings.
use vstd::prelude::*;

verus! {

/// The SHA-256 digest of a byte string, as FIPS 180-4 defines it.
pub uninterp spec fn sha256_of(data: Seq<u8>) -> Seq<u8>;

/// Calls `sha2::Sha256::digest` on `data`. Claimed: the 32 bytes returned are
/// the SHA-256 digest of exactly the bytes of `data`, so the result is a
/// function of the input bytes alone.
#[verifier::external_body]
pub(crate) fn sha256(data: &[u8]) -> (digest: [u8; 32])
    ensures
        digest@ == sha256_of(data@),
{
    let out = <sha2::Sha256 as sha2::Digest>::digest(data);
    out.into()
}

/// Byte-wise equality of two fingerprints.
pub fn fingerprint_eq(left: &[u8; 32], right: &[u8; 32]) -> (equal: bool)
    ensures
        equal == (left@ == right@),
{
    let mut index: usize = 0;
    while index < 32
        invariant
            0 <= index <= 32,
            left@.len() == 32,
            right@.len() == 32,
            forall|k: int| 0 <= k < index ==> left@[k] == right@[k],
        decreases 32 - index,
    {
        if left[index] != right[index] {
            return false;
        }
        index = index + 1;
    }
    assert(left@ =~= right@);
    true
}

} // verus!
