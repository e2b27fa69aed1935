//! The fingerprint: an address bound to the verification digest of the same
//! key material.
//!
//! The security-critical operation is [`Fingerprint::verify_against`]: an
//! attacker who finds key material colliding with an identity's short
//! address — feasible, given the intentionally small address space — must
//! still match the 48-byte digest, so the spoof is detected.

use core::cmp::Ordering;
use vstd::prelude::*;

use crate::address::{address_bound, derived_address, pack_address, Address};
use crate::hashing::{hash, sha384_of};

verus! {

/// True of a byte sequence that is entirely zero: the "unset" sentinel
/// value of a digest field, rejected at the parse boundary.
pub open spec fn all_zero(h: Seq<u8>) -> bool {
    forall|i: int| 0 <= i < h.len() ==> h[i] == 0
}

/// The mathematical value of a fingerprint: the address as an integer and
/// the digest as a byte sequence.
#[verifier::ext_equal]
pub ghost struct FingerprintView {
    pub address: int,
    pub hash: Seq<u8>,
}

impl FingerprintView {
    /// Structurally well-formed: the address fits the 40-bit space and the
    /// digest is 48 bytes wide.
    pub open spec fn wf(self) -> bool {
        0 <= self.address < address_bound() && self.hash.len() == 48
    }

    /// Accepted at the parse boundary: well-formed and neither field is the
    /// zero sentinel.
    pub open spec fn valid(self) -> bool {
        self.wf() && self.address != 0 && !all_zero(self.hash)
    }
}

/// True when the key material matches the fingerprint exactly: the derived
/// address and the digest both agree.
pub open spec fn spec_verifies(fp: FingerprintView, key: Seq<u8>) -> bool {
    fp.address == derived_address(key) && fp.hash == sha384_of(key)
}

/// An address paired with the 48-byte verification digest of the same key
/// material.  A plain value: freely copyable, immutable once constructed,
/// built from key material or parsed from text.
#[derive(Clone, Copy, Eq, Ord, Hash, Debug)]
pub struct Fingerprint {
    pub address: Address,
    pub hash: [u8; 48],
}

impl View for Fingerprint {
    type V = FingerprintView;

    open spec fn view(&self) -> FingerprintView {
        FingerprintView { address: self.address.0 as int, hash: self.hash@ }
    }
}

impl Fingerprint {
    /// Structurally well-formed: the address fits the 40-bit space.
    pub open spec fn wf(self) -> bool {
        self@.wf()
    }

    /// Well-formed with neither field the zero sentinel.
    pub open spec fn valid(self) -> bool {
        self@.valid()
    }

    /// Binds an address and a digest.  Structural only: the zero sentinels
    /// are not rejected here but at the parse boundary.
    pub fn new(address: Address, hash: [u8; 48]) -> (r: Fingerprint)
        requires
            address.wf(),
        ensures
            r@ == (FingerprintView { address: address.0 as int, hash: hash@ }),
            r.wf(),
    {
        Fingerprint { address, hash }
    }

    /// Computes the fingerprint of raw public key material: the derived
    /// address and the verification digest, both deterministic functions of
    /// the key bytes alone.
    pub fn from_key(key: &[u8]) -> (r: Fingerprint)
        ensures
            r@.address == derived_address(key@),
            r@.hash == sha384_of(key@),
            r.wf(),
            spec_verifies(r@, key@),
    {
        let h = hash(key);
        Fingerprint { address: Address(pack_address(&h)), hash: h }
    }

    /// Recomputes address and digest from candidate key material and
    /// compares both fields; true only on an exact match of both.  Total:
    /// never fails, whatever the candidate bytes.
    pub fn verify_against(&self, key: &[u8]) -> (r: bool)
        ensures
            r == spec_verifies(self@, key@),
    {
        let h = hash(key);
        let a = pack_address(&h);
        if self.address.0 != a {
            return false;
        }
        let same = hash_eq(&self.hash, &h);
        proof {
            if same {
                assert(self@.hash == sha384_of(key@));
            }
        }
        same
    }
}

/// Verification rejects an address-collision spoof: candidate key material
/// whose derived address collides with the fingerprint's address, but whose
/// digest differs, never verifies.
pub proof fn lemma_verify_rejects_collision(fp: FingerprintView, key: Seq<u8>)
    requires
        fp.address == derived_address(key),
        fp.hash != sha384_of(key),
    ensures
        !spec_verifies(fp, key),
{
}

/// Compares two digests for byte equality.
fn hash_eq(a: &[u8; 48], b: &[u8; 48]) -> (r: bool)
    ensures
        r == (a@ == b@),
{
    let mut i: usize = 0;
    while i < 48
        invariant
            i <= 48,
            forall|j: int| 0 <= j < i ==> a@[j] == b@[j],
        decreases 48 - i,
    {
        if a[i] != b[i] {
            return false;
        }
        i += 1;
    }
    proof {
        assert(a@ =~= b@);
    }
    true
}

impl PartialEq for Fingerprint {
    /// Two fingerprints are equal iff both fields are byte-equal.
    fn eq(&self, other: &Fingerprint) -> (r: bool) {
        self.address.0 == other.address.0 && hash_eq(&self.hash, &other.hash)
    }
}

impl vstd::std_specs::cmp::PartialEqSpecImpl for Fingerprint {
    open spec fn obeys_eq_spec() -> bool {
        true
    }

    open spec fn eq_spec(&self, other: &Fingerprint) -> bool {
        self.address == other.address && self.hash@ == other.hash@
    }
}

/// Lexicographic order on two equal-length byte sequences, front first.
pub open spec fn spec_cmp_bytes(a: Seq<u8>, b: Seq<u8>) -> Ordering
    recommends
        a.len() == b.len(),
    decreases a.len(),
{
    if a.len() == 0 {
        Ordering::Equal
    } else if a[0] < b[0] {
        Ordering::Less
    } else if a[0] > b[0] {
        Ordering::Greater
    } else {
        spec_cmp_bytes(a.drop_first(), b.drop_first())
    }
}

/// The total order on fingerprints: by address, then lexicographically by
/// digest bytes — sufficient for use as a map key or sorted-set element.
pub open spec fn spec_cmp(a: FingerprintView, b: FingerprintView) -> Ordering {
    if a.address < b.address {
        Ordering::Less
    } else if a.address > b.address {
        Ordering::Greater
    } else {
        spec_cmp_bytes(a.hash, b.hash)
    }
}

/// Compares two digests lexicographically, front first.
fn cmp_bytes(a: &[u8; 48], b: &[u8; 48]) -> (r: Ordering)
    ensures
        r == spec_cmp_bytes(a@, b@),
{
    let mut i: usize = 0;
    proof {
        assert(a@.skip(0) =~= a@);
        assert(b@.skip(0) =~= b@);
    }
    while i < 48
        invariant
            i <= 48,
            spec_cmp_bytes(a@, b@) == spec_cmp_bytes(a@.skip(i as int), b@.skip(i as int)),
        decreases 48 - i,
    {
        let x = a[i];
        let y = b[i];
        if x < y {
            return Ordering::Less;
        }
        if x > y {
            return Ordering::Greater;
        }
        proof {
            assert(a@.skip(i as int).drop_first() =~= a@.skip(i + 1));
            assert(b@.skip(i as int).drop_first() =~= b@.skip(i + 1));
        }
        i += 1;
    }
    Ordering::Equal
}

impl PartialOrd for Fingerprint {
    fn partial_cmp(&self, other: &Fingerprint) -> (r: Option<Ordering>) {
        if self.address.0 < other.address.0 {
            Some(Ordering::Less)
        } else if self.address.0 > other.address.0 {
            Some(Ordering::Greater)
        } else {
            Some(cmp_bytes(&self.hash, &other.hash))
        }
    }
}

impl vstd::std_specs::cmp::PartialOrdSpecImpl for Fingerprint {
    open spec fn obeys_partial_cmp_spec() -> bool {
        true
    }

    open spec fn partial_cmp_spec(&self, other: &Fingerprint) -> Option<Ordering> {
        Some(spec_cmp(self@, other@))
    }
}

} // verus!
