//! The laws that bind the codec's two directions together: encoding
//! round-trips through the parser, parsing ignores the case of hex letters,
//! and the canonical form is entirely lower-case.

use vstd::prelude::*;

use crate::codec::{
    all_hex, hex_field_bytes, hex_field_value, hex_of_bytes, hex_of_value, hyphen_count,
    is_split_at, lemma_bytes_roundtrip, lemma_hex_of_bytes_canonical, lemma_hex_of_value_canonical,
    lemma_hyphen_count_concat, lemma_split_at_unique, lemma_split_exists, lemma_value_roundtrip,
    parse_fields, pow16, spec_encode, spec_parse, split_index, ParseError,
};
use crate::fingerprint::{spec_verifies, FingerprintView};
use crate::hexdigit::{hex_char_value, is_canonical_char, is_hex_char};

verus! {

/// Parsing the canonical text of any valid fingerprint returns that
/// fingerprint exactly.
pub proof fn lemma_round_trip(fp: FingerprintView)
    requires
        fp.valid(),
    ensures
        spec_parse(spec_encode(fp)) == Ok::<FingerprintView, ParseError>(fp),
{
    let a = hex_of_value(fp.address, 10);
    let h = hex_of_bytes(fp.hash);
    let s = spec_encode(fp);
    lemma_hex_of_value_canonical(fp.address, 10);
    lemma_hex_of_bytes_canonical(fp.hash);
    assert(a.len() == 10);
    assert(h.len() == 96);
    assert(s.len() == 107);
    // exactly one delimiter, at index ten
    let hy = seq!['-'];
    assert(hyphen_count(hy) == 1) by {
        assert(hy.drop_last() =~= Seq::<char>::empty());
        assert(hyphen_count(Seq::<char>::empty()) == 0);
        assert(hy.last() == '-');
    }
    crate::codec::lemma_no_hyphen_count_zero(a);
    crate::codec::lemma_no_hyphen_count_zero(h);
    lemma_hyphen_count_concat(a, hy);
    lemma_hyphen_count_concat(a + hy, h);
    assert(hyphen_count(s) == 1);
    assert(s[10] == '-');
    assert(forall|k: int| 0 <= k < 10 ==> s[k] == a[k]);
    assert(is_split_at(s, 10));
    lemma_split_at_unique(s, 10);
    // the fields are the two encodings
    assert(s.take(10) =~= a);
    assert(s.skip(11) =~= h);
    // and they decode to the fingerprint's fields
    assert(pow16(10) == 0x100_0000_0000) by {
        reveal_with_fuel(pow16, 11);
    }
    lemma_value_roundtrip(fp.address, 10);
    lemma_bytes_roundtrip(fp.hash);
    assert(hex_field_bytes(h) == fp.hash);
    assert(parse_fields(a, h) == Ok::<FingerprintView, ParseError>(
        FingerprintView { address: hex_field_value(a), hash: hex_field_bytes(h) },
    ));
    assert(FingerprintView { address: hex_field_value(a), hash: hex_field_bytes(h) } =~= fp);
}

/// Every character of the canonical text is a lower-case hex digit or the
/// delimiter: encoding always lower-cases.
pub proof fn lemma_encode_canonical(fp: FingerprintView)
    requires
        0 <= fp.address,
    ensures
        forall|i: int|
            0 <= i < spec_encode(fp).len() ==> is_canonical_char(#[trigger] spec_encode(fp)[i]),
{
    let a = hex_of_value(fp.address, 10);
    let h = hex_of_bytes(fp.hash);
    let s = spec_encode(fp);
    lemma_hex_of_value_canonical(fp.address, 10);
    lemma_hex_of_bytes_canonical(fp.hash);
    assert forall|i: int| 0 <= i < s.len() implies is_canonical_char(#[trigger] s[i]) by {
        if i < 10 {
            assert(s[i] == a[i]);
        } else if i == 10 {
            assert(s[i] == '-');
        } else {
            assert(s[i] == h[i - 11]);
        }
    }
}

/// Determinism of derivation: derive and hash are pure functions of the
/// key bytes alone, so the fingerprint that matches given key material is
/// unique — two fingerprints computed from the same key are the same value.
pub proof fn lemma_derivation_deterministic(a: FingerprintView, b: FingerprintView, key: Seq<u8>)
    requires
        spec_verifies(a, key),
        spec_verifies(b, key),
    ensures
        a == b,
{
    assert(a =~= b);
}

/// The upper-casing a caller may apply to a canonical-alphabet string:
/// lower-case hex letters rise, every other character of the codec's
/// alphabet is already its own upper case.
pub open spec fn upper_hex_char(c: char) -> char {
    if c == 'a' {
        'A'
    } else if c == 'b' {
        'B'
    } else if c == 'c' {
        'C'
    } else if c == 'd' {
        'D'
    } else if c == 'e' {
        'E'
    } else if c == 'f' {
        'F'
    } else {
        c
    }
}

/// A string upper-cased character by character.
pub open spec fn upper_hex(s: Seq<char>) -> Seq<char> {
    Seq::new(s.len(), |i: int| upper_hex_char(s[i]))
}

/// Delimiter counts agree on strings whose delimiters stand at the same
/// places.
proof fn lemma_hyphen_count_pointwise(s1: Seq<char>, s2: Seq<char>)
    requires
        s1.len() == s2.len(),
        forall|i: int| 0 <= i < s1.len() ==> ((s1[i] == '-') <==> (s2[i] == '-')),
    ensures
        hyphen_count(s1) == hyphen_count(s2),
    decreases s1.len(),
{
    if s1.len() > 0 {
        assert(forall|i: int| 0 <= i < s1.len() - 1 ==> s1.drop_last()[i] == s1[i]);
        assert(forall|i: int| 0 <= i < s2.len() - 1 ==> s2.drop_last()[i] == s2[i]);
        lemma_hyphen_count_pointwise(s1.drop_last(), s2.drop_last());
    }
}

/// Field values agree on fields whose digits carry the same values.
proof fn lemma_hex_value_pointwise(s1: Seq<char>, s2: Seq<char>)
    requires
        s1.len() == s2.len(),
        forall|i: int| 0 <= i < s1.len() ==> hex_char_value(#[trigger] s1[i]) == hex_char_value(
            s2[i],
        ),
    ensures
        hex_field_value(s1) == hex_field_value(s2),
    decreases s1.len(),
{
    if s1.len() > 0 {
        assert(forall|i: int| 0 <= i < s1.len() - 1 ==> s1.drop_last()[i] == s1[i]);
        assert(forall|i: int| 0 <= i < s2.len() - 1 ==> s2.drop_last()[i] == s2[i]);
        lemma_hex_value_pointwise(s1.drop_last(), s2.drop_last());
    }
}

/// Decoding ignores the case of hex letters: a parseable string and its
/// upper-cased form parse to the same fingerprint.
pub proof fn lemma_parse_case_insensitive(s: Seq<char>)
    requires
        spec_parse(s) is Ok,
    ensures
        spec_parse(upper_hex(s)) == spec_parse(s),
{
    let u = upper_hex(s);
    assert(u.len() == s.len());
    assert forall|i: int| 0 <= i < s.len() implies ((#[trigger] u[i] == '-') <==> (s[i] == '-'))
        && (is_hex_char(u[i]) <==> is_hex_char(s[i])) && (hex_char_value(u[i]) == hex_char_value(
        s[i],
    )) by {
        assert(u[i] == upper_hex_char(s[i]));
    }
    lemma_hyphen_count_pointwise(s, u);
    assert(hyphen_count(s) == 1);
    lemma_split_exists(s);
    let j = split_index(s);
    assert(is_split_at(u, j));
    lemma_split_at_unique(u, j);
    let sa = s.take(j);
    let sh = s.skip(j + 1);
    let ua = u.take(j);
    let uh = u.skip(j + 1);
    assert forall|i: int| 0 <= i < sa.len() implies (is_hex_char(#[trigger] ua[i]) <==> is_hex_char(
        sa[i],
    )) && (hex_char_value(ua[i]) == hex_char_value(sa[i])) by {
        assert(ua[i] == u[i] && sa[i] == s[i]);
    }
    assert forall|i: int| 0 <= i < sh.len() implies (is_hex_char(#[trigger] uh[i]) <==> is_hex_char(
        sh[i],
    )) && (hex_char_value(uh[i]) == hex_char_value(sh[i])) by {
        assert(uh[i] == u[i + j + 1] && sh[i] == s[i + j + 1]);
    }
    assert(all_hex(ua) <==> all_hex(sa));
    assert(all_hex(uh) <==> all_hex(sh));
    lemma_hex_value_pointwise(sa, ua);
    assert(hex_field_bytes(uh) =~= hex_field_bytes(sh));
    assert(parse_fields(ua, uh) == parse_fields(sa, sh));
}

} // verus!
