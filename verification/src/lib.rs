//! A self-certifying network identity fingerprint.
//!
//! An identity is named by a short 40-bit *address* derived from its public
//! key material, paired with a wide 48-byte digest of the same material.
//! The address alone is compact and human-typable but collision-prone by
//! design; the full fingerprint restores collision resistance: an
//! impersonator who finds key material colliding on the address alone still
//! fails the digest comparison.  The crate provides derivation,
//! verification, equality and a total order, and a canonical
//! hyphen-delimited hex text form with strict, validated parsing.

pub mod address;
pub mod codec;
pub mod fingerprint;
pub mod hashing;
pub mod hexdigit;
pub mod laws;

pub use address::Address;
pub use codec::ParseError;
pub use fingerprint::Fingerprint;
