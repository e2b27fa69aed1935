use zt_fingerprint::hashing::hash;
use zt_fingerprint::{Address, Fingerprint, ParseError};

const SCENARIO: &str = "0102030405-000102030405060708090a0b0c0d0e0f101112131415161718191a1b1c1d1e1f202122232425262728292a2b2c2d2e2f";

fn scenario_fingerprint() -> Fingerprint {
    let mut h = [0u8; 48];
    let mut i = 0;
    while i < 48 {
        h[i] = i as u8;
        i += 1;
    }
    Fingerprint { address: Address(0x0102030405), hash: h }
}

#[test]
fn scenario_encodes_to_expected_string() {
    let fp = scenario_fingerprint();
    assert_eq!(fp.to_canonical_string(), SCENARIO);
}

#[test]
fn scenario_decodes_to_expected_struct() {
    let fp = Fingerprint::new_from_string(SCENARIO).unwrap();
    let want = scenario_fingerprint();
    assert_eq!(fp.address.0, 0x0102030405);
    assert_eq!(fp.hash, want.hash);
    assert!(fp == want);
}

#[test]
fn round_trip_through_text() {
    let fp = Fingerprint::from_key(b"some key material");
    let s = fp.to_canonical_string();
    let back = Fingerprint::new_from_string(&s).unwrap();
    assert!(back == fp);
    assert_eq!(back.to_canonical_string(), s);
}

#[test]
fn zero_address_is_rejected() {
    let s = format!("0000000000-{}", "00".repeat(48));
    assert_eq!(Fingerprint::new_from_string(&s), Err(ParseError::ZeroAddress));
}

#[test]
fn zero_hash_is_rejected() {
    let s = format!("0102030405-{}", "00".repeat(48));
    assert_eq!(Fingerprint::new_from_string(&s), Err(ParseError::ZeroHash));
}

#[test]
fn malformed_structure_is_rejected() {
    assert_eq!(
        Fingerprint::new_from_string("not-a-fingerprint"),
        Err(ParseError::MalformedStructure)
    );
    assert_eq!(Fingerprint::new_from_string(""), Err(ParseError::MalformedStructure));
    assert_eq!(
        Fingerprint::new_from_string("0102030405000102030405"),
        Err(ParseError::MalformedStructure)
    );
}

#[test]
fn invalid_hex_is_rejected() {
    // one delimiter, but wrong field lengths
    assert_eq!(Fingerprint::new_from_string("123-abc"), Err(ParseError::InvalidHex));
    // right lengths, non-hex character in the address field
    let s = format!("010203040z-{}", "11".repeat(48));
    assert_eq!(Fingerprint::new_from_string(&s), Err(ParseError::InvalidHex));
    // right lengths, non-hex character in the digest field
    let s = format!("0102030405-g{}", "1".repeat(95));
    assert_eq!(Fingerprint::new_from_string(&s), Err(ParseError::InvalidHex));
}

#[test]
fn decode_is_case_insensitive_and_encode_lowercases() {
    let upper = SCENARIO.to_uppercase();
    let a = Fingerprint::new_from_string(SCENARIO).unwrap();
    let b = Fingerprint::new_from_string(&upper).unwrap();
    assert!(a == b);
    let canon = b.to_canonical_string();
    assert_eq!(canon, SCENARIO);
    assert!(canon.chars().all(|c| c == '-' || c.is_ascii_digit() || ('a'..='f').contains(&c)));
}

#[test]
fn derive_and_hash_are_deterministic() {
    let k = b"deterministic key material";
    assert_eq!(Address::derive(k), Address::derive(k));
    assert_eq!(hash(k), hash(k));
    assert!(Fingerprint::from_key(k) == Fingerprint::from_key(k));
}

#[test]
fn hash_is_sha384() {
    // the standard SHA-384 test vector for "abc"
    let expected = "cb00753f45a35e8bb5a03d699ac65007272c32ab0eded1631a8b605a43ff5bed\
                    8086072ba1e7cc2358baeca134c825a7";
    let got = hash(b"abc");
    let mut rendered = String::new();
    for b in got.iter() {
        rendered.push_str(&format!("{:02x}", b));
    }
    assert_eq!(rendered, expected);
}

#[test]
fn address_is_leading_forty_bits_of_digest() {
    let k = b"address packing";
    let d = hash(k);
    let expected = ((d[0] as u64) << 32)
        | ((d[1] as u64) << 24)
        | ((d[2] as u64) << 16)
        | ((d[3] as u64) << 8)
        | (d[4] as u64);
    assert_eq!(Address::derive(k).0, expected);
    assert!(expected < 1u64 << 40);
}

#[test]
fn address_validate_rejects_sentinel_and_overflow() {
    assert!(Address(1).validate());
    assert!(Address(0xffffffffff).validate());
    assert!(!Address(0).validate());
    assert!(!Address(0x10000000000).validate());
}

#[test]
fn verification_accepts_the_matching_key() {
    let k = b"the genuine key material";
    let fp = Fingerprint::from_key(k);
    assert!(fp.verify_against(k));
}

#[test]
fn verification_rejects_other_key_material() {
    let fp = Fingerprint::from_key(b"the genuine key material");
    assert!(!fp.verify_against(b"an impostor's key material"));
}

#[test]
fn verification_rejects_address_collision_with_differing_hash() {
    // a simulated address collision: the spoofed fingerprint carries the
    // victim's digest but the attacker's derived address
    let victim = b"victim key material";
    let attacker = b"attacker key material";
    let spoof = Fingerprint::new(Address::derive(attacker), hash(victim));
    assert_eq!(spoof.address, Address::derive(attacker));
    assert_ne!(spoof.hash, hash(attacker));
    assert!(!spoof.verify_against(attacker));
    assert!(!spoof.verify_against(victim));
}

#[test]
fn equality_requires_both_fields() {
    let a = scenario_fingerprint();
    let mut b = scenario_fingerprint();
    assert!(a == b);
    b.hash[47] ^= 1;
    assert!(a != b);
    let mut c = scenario_fingerprint();
    c.address = Address(0x0102030406);
    assert!(a != c);
}

#[test]
fn order_is_by_address_then_hash() {
    let a = scenario_fingerprint();
    let mut higher_addr = scenario_fingerprint();
    higher_addr.address = Address(0x0102030406);
    let mut higher_hash = scenario_fingerprint();
    higher_hash.hash[0] = 0xff;
    assert!(a < higher_addr);
    assert!(a < higher_hash);
    assert!(higher_hash < higher_addr);
    assert!(a <= a && a >= a);
    assert_eq!(a.partial_cmp(&higher_addr), Some(std::cmp::Ordering::Less));
    assert_eq!(a.cmp(&a), std::cmp::Ordering::Equal);
}
