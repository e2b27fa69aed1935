//! The verification digest over raw public key material.
//!
//! The digest is SHA-384: a 384-bit-class cryptographic hash, wide enough
//! that an accidental or adversarial collision is computationally
//! infeasible.  It is computed by the `sha2` crate; this module names its
//! result abstractly and states only what the crate's documentation gives.

use vstd::prelude::*;

use sha2::Digest;

verus! {

/// The SHA-384 digest of a byte sequence, named abstractly.  The digest is
/// a pure function of the input bytes alone — the same bytes give the same
/// digest on every call and every machine — and is 48 bytes wide.
pub uninterp spec fn sha384_of(key: Seq<u8>) -> Seq<u8>;

/// Relies on sha2's `Sha384::digest`: a pure function of the input bytes
/// alone, returning their 48-byte SHA-384 digest.
#[verifier::external_body]
fn sha384(key: &[u8]) -> (r: Vec<u8>)
    ensures
        r@ == sha384_of(key@),
        r@.len() == 48,
{
    sha2::Sha384::digest(key).as_slice().to_vec()
}

/// Computes the 48-byte verification digest of raw public key material.
/// Deterministic: the result is a function of the key bytes alone, so
/// repeated calls on equal inputs yield identical output.
pub fn hash(key: &[u8]) -> (r: [u8; 48])
    ensures
        r@ == sha384_of(key@),
{
    let v = sha384(key);
    let mut out: [u8; 48] = [0u8; 48];
    let mut i: usize = 0;
    while i < 48
        invariant
            v@ == sha384_of(key@),
            v@.len() == 48,
            i <= 48,
            out@.len() == 48,
            forall|j: int| 0 <= j < i ==> out@[j] == v@[j],
        decreases 48 - i,
    {
        out[i] = v[i];
        i += 1;
    }
    proof {
        assert(out@ =~= sha384_of(key@));
    }
    out
}

} // verus!
