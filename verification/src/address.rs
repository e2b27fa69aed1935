//! The short address: a 40-bit identifier derived from public key material.
//!
//! The address is the compressed, human-typable handle of an identity.  It
//! is intentionally far shorter than the verification digest — collision
//! resistance is traded for usability, and restored by the full fingerprint
//! when it matters.  Here it is the leading forty bits of the key's digest,
//! packed big-endian.  The zero value is a sentinel meaning "absent" and is
//! rejected at the parse boundary; no further range is reserved.

use vstd::prelude::*;

use crate::hashing::{hash, sha384_of};

verus! {

/// One past the largest 40-bit address value.
pub open spec fn address_bound() -> int {
    0x100_0000_0000
}

/// The address packed from the first five bytes of a digest, big-endian.
pub open spec fn address_of_digest(d: Seq<u8>) -> int
    recommends
        d.len() >= 5,
{
    d[0] * 0x1_0000_0000 + d[1] * 0x100_0000 + d[2] * 0x1_0000 + d[3] * 0x100 + d[4]
}

/// The address derived from key material: the leading forty bits of its
/// verification digest.
pub open spec fn derived_address(key: Seq<u8>) -> int {
    address_of_digest(sha384_of(key))
}

/// A short 40-bit identifier derived from public key material.  Immutable
/// once constructed; derived from key material or parsed from text.
#[derive(Clone, Copy, PartialEq, Eq, Structural, PartialOrd, Ord, Hash, Debug)]
pub struct Address(pub u64);

impl Address {
    /// True when the value fits the 40-bit address space, and so the fixed
    /// ten-digit hex field of the text form.
    pub open spec fn wf(self) -> bool {
        (self.0 as int) < address_bound()
    }

    /// True of an address the parse boundary accepts: in range and not the
    /// zero sentinel.
    pub open spec fn valid(self) -> bool {
        self.wf() && self.0 != 0
    }

    /// Derives the address of raw public key material.  Deterministic: the
    /// result is a function of the key bytes alone.
    pub fn derive(key: &[u8]) -> (r: Address)
        ensures
            r.0 as int == derived_address(key@),
            r.wf(),
    {
        let d = hash(key);
        Address(pack_address(&d))
    }

    /// True iff this address may appear in a fingerprint: rejects the zero
    /// sentinel and values beyond the 40-bit space.
    pub fn validate(&self) -> (r: bool)
        ensures
            r == self.valid(),
    {
        self.0 != 0 && self.0 < 0x100_0000_0000
    }
}

/// Packs the leading five digest bytes into an address value, big-endian.
pub fn pack_address(d: &[u8; 48]) -> (a: u64)
    ensures
        a as int == address_of_digest(d@),
        (a as int) < address_bound(),
{
    (d[0] as u64) * 0x1_0000_0000 + (d[1] as u64) * 0x100_0000 + (d[2] as u64) * 0x1_0000 + (
    d[3] as u64) * 0x100 + (d[4] as u64)
}

} // verus!
