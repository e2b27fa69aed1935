//! The canonical text form of a fingerprint, and its strict parser.
//!
//! The format is `ADDRHEX-HASHHEX`: exactly ten lower-case hex digits of the
//! address, one hyphen, and ninety-six lower-case hex digits of the digest.
//! Decoding is case-insensitive and total; encoding always emits the
//! canonical lower-case form, and parsing it back returns the original value
//! (see [`crate::laws`]).

use vstd::prelude::*;
use vstd::string::StrSliceExecFns;
use vstd::string::StringExecFns;

use crate::address::Address;
use crate::fingerprint::{all_zero, Fingerprint, FingerprintView};
use crate::hexdigit::{
    hex_char_of, hex_char_value, hex_digit_str, hex_value, is_canonical_char, is_hex_char,
    lemma_hex_char_of_value,
};

verus! {

/// Why a fingerprint string was rejected.
#[derive(Clone, Copy, PartialEq, Eq, Structural, Debug)]
pub enum ParseError {
    /// The text does not hold exactly two fields around one delimiter.
    MalformedStructure,
    /// A field has the wrong length or holds a non-hex character.
    InvalidHex,
    /// The address field decodes to the zero sentinel.
    ZeroAddress,
    /// The digest field decodes to the all-zero sentinel.
    ZeroHash,
}

/// Sixteen to the given power.
pub open spec fn pow16(e: nat) -> int
    decreases e,
{
    if e == 0 {
        1
    } else {
        16 * pow16((e - 1) as nat)
    }
}

/// Number of `-` delimiters in a character sequence.
pub open spec fn hyphen_count(s: Seq<char>) -> int
    decreases s.len(),
{
    if s.len() == 0 {
        0
    } else {
        hyphen_count(s.drop_last()) + if s.last() == '-' {
            1int
        } else {
            0int
        }
    }
}

/// True at the index of the first delimiter.
pub open spec fn is_split_at(s: Seq<char>, j: int) -> bool {
    0 <= j < s.len() && s[j] == '-' && forall|k: int| 0 <= k < j ==> s[k] != '-'
}

/// The index of the first delimiter.
pub open spec fn split_index(s: Seq<char>) -> int {
    choose|j: int| is_split_at(s, j)
}

/// True when every character of a field is a hex digit.
pub open spec fn all_hex(s: Seq<char>) -> bool {
    forall|i: int| 0 <= i < s.len() ==> is_hex_char(s[i])
}

/// Value of a hex field read as a big-endian number.
pub open spec fn hex_field_value(s: Seq<char>) -> int
    decreases s.len(),
{
    if s.len() == 0 {
        0
    } else {
        16 * hex_field_value(s.drop_last()) + hex_char_value(s.last())
    }
}

/// The bytes a hex field decodes to, two digits a byte, high nibble first.
pub open spec fn hex_field_bytes(s: Seq<char>) -> Seq<u8> {
    Seq::new(
        (s.len() / 2) as nat,
        |i: int| (16 * hex_char_value(s[2 * i]) + hex_char_value(s[2 * i + 1])) as u8,
    )
}

/// The fixed-width, zero-padded lower-case hex encoding of a value: `n`
/// digits, most significant first.
pub open spec fn hex_of_value(v: int, n: nat) -> Seq<char> {
    Seq::new(n, |i: int| hex_char_of((v / pow16((n - 1 - i) as nat)) % 16))
}

/// The lower-case hex encoding of a byte sequence, two digits a byte, high
/// nibble first.
pub open spec fn hex_of_bytes(b: Seq<u8>) -> Seq<char> {
    Seq::new(
        2 * b.len(),
        |i: int|
            if i % 2 == 0 {
                hex_char_of(b[i / 2] as int / 16)
            } else {
                hex_char_of(b[i / 2] as int % 16)
            },
    )
}

/// The canonical text of a fingerprint: ten address digits, the delimiter,
/// ninety-six digest digits.
pub open spec fn spec_encode(fp: FingerprintView) -> Seq<char> {
    hex_of_value(fp.address, 10) + seq!['-'] + hex_of_bytes(fp.hash)
}

/// What parsing the two fields of a structurally well-formed input returns:
/// `InvalidHex` on a wrong field length or a non-hex character, then the two
/// zero sentinels are rejected, and what remains is a valid fingerprint.
pub open spec fn parse_fields(addr: Seq<char>, hash: Seq<char>) -> Result<
    FingerprintView,
    ParseError,
> {
    if addr.len() != 10 || !all_hex(addr) || hash.len() != 96 || !all_hex(hash) {
        Err(ParseError::InvalidHex)
    } else if hex_field_value(addr) == 0 {
        Err(ParseError::ZeroAddress)
    } else if all_zero(hex_field_bytes(hash)) {
        Err(ParseError::ZeroHash)
    } else {
        Ok(FingerprintView { address: hex_field_value(addr), hash: hex_field_bytes(hash) })
    }
}

/// What parsing returns, for every input: `MalformedStructure` unless the
/// text splits on exactly one delimiter, then the two fields as
/// [`parse_fields`] reads them.
pub open spec fn spec_parse(s: Seq<char>) -> Result<FingerprintView, ParseError> {
    if hyphen_count(s) != 1 {
        Err(ParseError::MalformedStructure)
    } else {
        parse_fields(s.take(split_index(s)), s.skip(split_index(s) + 1))
    }
}

/// Powers of sixteen are positive.
pub proof fn lemma_pow16_pos(e: nat)
    ensures
        pow16(e) >= 1,
    decreases e,
{
    if e > 0 {
        lemma_pow16_pos((e - 1) as nat);
    }
}

/// Powers of sixteen grow with the exponent.
pub proof fn lemma_pow16_mono(a: nat, b: nat)
    requires
        a <= b,
    ensures
        pow16(a) <= pow16(b),
    decreases b,
{
    if a < b {
        lemma_pow16_mono(a, (b - 1) as nat);
        lemma_pow16_pos((b - 1) as nat);
    }
}

/// An all-hex field of `n` digits holds a value below sixteen to the `n`.
pub proof fn lemma_hex_field_value_bound(s: Seq<char>)
    requires
        all_hex(s),
    ensures
        0 <= hex_field_value(s) < pow16(s.len()),
    decreases s.len(),
{
    if s.len() > 0 {
        assert(all_hex(s.drop_last()));
        lemma_hex_field_value_bound(s.drop_last());
        assert(is_hex_char(s.last()));
        assert(0 <= hex_char_value(s.last()) < 16);
    }
}

/// There is a first delimiter wherever there is a delimiter at all.
pub proof fn lemma_split_exists(s: Seq<char>)
    requires
        hyphen_count(s) >= 1,
    ensures
        is_split_at(s, split_index(s)),
    decreases s.len(),
{
    if s.len() > 0 {
        let p = s.drop_last();
        assert(forall|k: int| 0 <= k < s.len() - 1 ==> s[k] == p[k]);
        if hyphen_count(p) >= 1 {
            lemma_split_exists(p);
            let j = split_index(p);
            assert(is_split_at(s, j));
        } else {
            assert(hyphen_count(p) >= 0) by {
                lemma_hyphen_count_nonneg(p);
            }
            assert(s.last() == '-');
            assert(forall|k: int| 0 <= k < s.len() - 1 ==> s[k] != '-') by {
                lemma_no_hyphen(p);
            }
            assert(is_split_at(s, s.len() - 1));
        }
        let w = choose|j: int| is_split_at(s, j);
        assert(is_split_at(s, w));
        lemma_split_at_unique_pair(s, w, split_index(s));
    }
}

/// Delimiter counts are never negative.
pub proof fn lemma_hyphen_count_nonneg(s: Seq<char>)
    ensures
        hyphen_count(s) >= 0,
    decreases s.len(),
{
    if s.len() > 0 {
        lemma_hyphen_count_nonneg(s.drop_last());
    }
}

/// A sequence whose count is zero holds no delimiter.
pub proof fn lemma_no_hyphen(s: Seq<char>)
    requires
        hyphen_count(s) == 0,
    ensures
        forall|k: int| 0 <= k < s.len() ==> s[k] != '-',
    decreases s.len(),
{
    if s.len() > 0 {
        lemma_hyphen_count_nonneg(s.drop_last());
        lemma_no_hyphen(s.drop_last());
        assert(forall|k: int| 0 <= k < s.len() - 1 ==> s[k] == s.drop_last()[k]);
    }
}

/// A sequence with no delimiter has count zero.
pub proof fn lemma_no_hyphen_count_zero(s: Seq<char>)
    requires
        forall|k: int| 0 <= k < s.len() ==> s[k] != '-',
    ensures
        hyphen_count(s) == 0,
    decreases s.len(),
{
    if s.len() > 0 {
        lemma_no_hyphen_count_zero(s.drop_last());
    }
}

/// Two first-delimiter indexes are the same index.
pub proof fn lemma_split_at_unique_pair(s: Seq<char>, j1: int, j2: int)
    requires
        is_split_at(s, j1),
        is_split_at(s, j2),
    ensures
        j1 == j2,
{
}

/// The first-delimiter index is the one any witness shows.
pub proof fn lemma_split_at_unique(s: Seq<char>, j: int)
    requires
        is_split_at(s, j),
    ensures
        split_index(s) == j,
{
    let w = choose|j2: int| is_split_at(s, j2);
    assert(is_split_at(s, w));
    lemma_split_at_unique_pair(s, w, j);
}

/// Delimiter counts add over concatenation.
pub proof fn lemma_hyphen_count_concat(a: Seq<char>, b: Seq<char>)
    ensures
        hyphen_count(a + b) == hyphen_count(a) + hyphen_count(b),
    decreases b.len(),
{
    if b.len() == 0 {
        assert(a + b =~= a);
    } else {
        lemma_hyphen_count_concat(a, b.drop_last());
        assert((a + b).drop_last() =~= a + b.drop_last());
        assert((a + b).last() == b.last());
    }
}

/// The fixed-width encoding of a value drops its last digit to the
/// encoding of the value divided by sixteen, and ends on the digit of the
/// value modulo sixteen.
pub proof fn lemma_hex_of_value_unfold(v: int, n: nat)
    requires
        n > 0,
        0 <= v,
    ensures
        hex_of_value(v, n).drop_last() =~= hex_of_value(v / 16, (n - 1) as nat),
        hex_of_value(v, n).last() == hex_char_of(v % 16),
    decreases n,
{
    let s = hex_of_value(v, n);
    assert(pow16(0) == 1);
    assert(s.last() == hex_char_of((v / pow16((n - 1 - (n - 1)) as nat)) % 16));
    assert(v / 1 == v);
    assert forall|i: int| 0 <= i < n - 1 implies s[i] == hex_of_value(v / 16, (n - 1) as nat)[i] by {
        let e = (n - 1 - i) as nat;
        lemma_pow16_pos((e - 1) as nat);
        vstd::arithmetic::div_mod::lemma_div_denominator(v, 16, pow16((e - 1) as nat));
        assert(16 * pow16((e - 1) as nat) == pow16(e));
        assert((v / 16) / pow16((e - 1) as nat) == v / pow16(e));
    }
    assert(s.drop_last() =~= hex_of_value(v / 16, (n - 1) as nat));
}

/// Every digit of a fixed-width encoding is a canonical hex digit, never
/// the delimiter.
pub proof fn lemma_hex_of_value_canonical(v: int, n: nat)
    requires
        0 <= v,
    ensures
        all_hex(hex_of_value(v, n)),
        forall|i: int|
            0 <= i < n ==> is_canonical_char(#[trigger] hex_of_value(v, n)[i]) && hex_of_value(
                v,
                n,
            )[i] != '-',
{
    let s = hex_of_value(v, n);
    assert forall|i: int| 0 <= i < n implies is_hex_char(#[trigger] s[i]) && is_canonical_char(s[i])
        && s[i] != '-' by {
        let e = (n - 1 - i) as nat;
        lemma_pow16_pos(e);
        vstd::arithmetic::div_mod::lemma_div_pos_is_pos(v, pow16(e));
        let d = (v / pow16(e)) % 16;
        assert(0 <= d < 16);
        lemma_hex_char_of_value(d);
    }
}

/// Reading back the fixed-width encoding of an in-range value returns the
/// value.
pub proof fn lemma_value_roundtrip(v: int, n: nat)
    requires
        0 <= v < pow16(n),
    ensures
        hex_field_value(hex_of_value(v, n)) == v,
    decreases n,
{
    if n == 0 {
        assert(pow16(0) == 1);
    } else {
        let s = hex_of_value(v, n);
        lemma_hex_of_value_unfold(v, n);
        lemma_pow16_pos((n - 1) as nat);
        assert(pow16(n) == 16 * pow16((n - 1) as nat));
        vstd::arithmetic::div_mod::lemma_multiply_divide_lt(v, 16, pow16((n - 1) as nat));
        vstd::arithmetic::div_mod::lemma_div_pos_is_pos(v, 16);
        lemma_value_roundtrip(v / 16, (n - 1) as nat);
        assert(0 <= v % 16 < 16);
        lemma_hex_char_of_value(v % 16);
        vstd::arithmetic::div_mod::lemma_fundamental_div_mod(v, 16);
        assert(hex_field_value(s) == 16 * hex_field_value(s.drop_last()) + hex_char_value(s.last()));
    }
}

/// Every digit of a byte-sequence encoding is a canonical hex digit, never
/// the delimiter.
pub proof fn lemma_hex_of_bytes_canonical(b: Seq<u8>)
    ensures
        hex_of_bytes(b).len() == 2 * b.len(),
        all_hex(hex_of_bytes(b)),
        forall|i: int|
            0 <= i < 2 * b.len() ==> is_canonical_char(#[trigger] hex_of_bytes(b)[i])
                && hex_of_bytes(b)[i] != '-',
{
    let h = hex_of_bytes(b);
    assert forall|i: int| 0 <= i < 2 * b.len() implies is_hex_char(#[trigger] h[i])
        && is_canonical_char(h[i]) && h[i] != '-' by {
        assert(0 <= i / 2 < b.len());
        let x = b[i / 2] as int;
        assert(0 <= x / 16 < 16);
        assert(0 <= x % 16 < 16);
        if i % 2 == 0 {
            lemma_hex_char_of_value(x / 16);
        } else {
            lemma_hex_char_of_value(x % 16);
        }
    }
}

/// Reading back the encoding of a byte sequence returns the bytes.
pub proof fn lemma_bytes_roundtrip(b: Seq<u8>)
    ensures
        hex_field_bytes(hex_of_bytes(b)) =~= b,
{
    let h = hex_of_bytes(b);
    vstd::arithmetic::div_mod::lemma_div_multiples_vanish(b.len() as int, 2);
    assert(h.len() / 2 == b.len());
    assert forall|i: int| 0 <= i < b.len() implies hex_field_bytes(h)[i] == b[i] by {
        vstd::arithmetic::div_mod::lemma_fundamental_div_mod_converse(2 * i, 2, i, 0);
        vstd::arithmetic::div_mod::lemma_fundamental_div_mod_converse(2 * i + 1, 2, i, 1);
        let x = b[i] as int;
        assert(h[2 * i] == hex_char_of(x / 16));
        assert(h[2 * i + 1] == hex_char_of(x % 16));
        assert(0 <= x / 16 < 16);
        assert(0 <= x % 16 < 16);
        lemma_hex_char_of_value(x / 16);
        lemma_hex_char_of_value(x % 16);
        vstd::arithmetic::div_mod::lemma_fundamental_div_mod(x, 16);
    }
}

impl Fingerprint {
    /// Canonical text of this fingerprint: ten lower-case hex digits of the
    /// address, one hyphen, ninety-six lower-case hex digits of the digest.
    /// Total on every well-formed fingerprint — the fields are fixed-size,
    /// so no encode failure path exists — and parsing the result returns
    /// this fingerprint exactly (see [`crate::laws::lemma_round_trip`]).
    pub fn to_canonical_string(&self) -> (r: String)
        requires
            self.wf(),
        ensures
            r@ == spec_encode(self@),
    {
        let ghost addr_digits = hex_of_value(self@.address, 10);
        let ghost hash_digits = hex_of_bytes(self@.hash);
        let mut out = String::new();
        let a: u64 = self.address.0;
        proof {
            reveal_with_fuel(pow16, 11);
            assert(pow16(9) == 0x10_0000_0000);
        }
        let mut div: u64 = 0x10_0000_0000;
        let mut i: usize = 0;
        while i < 10
            invariant
                a as int == self@.address,
                0 <= a as int,
                i <= 10,
                i < 10 ==> div as int == pow16((9 - i) as nat),
                out@ == addr_digits.take(i as int),
                addr_digits == hex_of_value(self@.address, 10),
            decreases 10 - i,
        {
            proof {
                lemma_pow16_pos((9 - i) as nat);
            }
            let d: u8 = ((a / div) % 16) as u8;
            proof {
                assert(addr_digits[i as int] == hex_char_of(d as int));
                assert(addr_digits.take(i as int + 1) =~= addr_digits.take(i as int) + seq![
                    hex_char_of(d as int),
                ]);
            }
            out.append(hex_digit_str(d));
            if i < 9 {
                proof {
                    assert(pow16((9 - i) as nat) == 16 * pow16((8 - i) as nat));
                    vstd::arithmetic::div_mod::lemma_div_multiples_vanish(
                        pow16((8 - i) as nat),
                        16,
                    );
                }
                div = div / 16;
            }
            i += 1;
        }
        proof {
            assert(addr_digits.take(10) =~= addr_digits);
            reveal_strlit("-");
        }
        out.append("-");
        proof {
            assert("-"@ =~= seq!['-']);
            assert(out@ == addr_digits + seq!['-']);
        }
        let mut i: usize = 0;
        while i < 48
            invariant
                out@ == addr_digits + seq!['-'] + hash_digits.take(2 * (i as int)),
                i <= 48,
                addr_digits == hex_of_value(self@.address, 10),
                hash_digits == hex_of_bytes(self@.hash),
            decreases 48 - i,
        {
            let b = self.hash[i];
            let hi: u8 = b / 16;
            let lo: u8 = b % 16;
            proof {
                vstd::arithmetic::div_mod::lemma_fundamental_div_mod_converse(
                    2 * (i as int),
                    2,
                    i as int,
                    0,
                );
                vstd::arithmetic::div_mod::lemma_fundamental_div_mod_converse(
                    2 * (i as int) + 1,
                    2,
                    i as int,
                    1,
                );
                assert(hash_digits[2 * (i as int)] == hex_char_of(hi as int));
                assert(hash_digits[2 * (i as int) + 1] == hex_char_of(lo as int));
                assert(hash_digits.take(2 * (i as int) + 2) =~= hash_digits.take(2 * (i as int))
                    + seq![hex_char_of(hi as int), hex_char_of(lo as int)]);
            }
            out.append(hex_digit_str(hi));
            out.append(hex_digit_str(lo));
            i += 1;
        }
        proof {
            assert(hash_digits.take(96) =~= hash_digits);
            assert(out@ == spec_encode(self@));
        }
        out
    }

    /// Parses the canonical text form, strictly: the text must split on
    /// exactly one hyphen into a ten-digit address field and a
    /// ninety-six-digit digest field, hex digits of either case, neither
    /// field the zero sentinel.  Which error comes on which input is pinned
    /// by [`spec_parse`]; on success the fingerprint satisfies the data
    /// model invariants.  Total and side-effect-free.
    pub fn new_from_string(s: &str) -> (r: Result<Fingerprint, ParseError>)
        ensures
            (match r {
                Ok(fp) => spec_parse(s@) == Ok::<FingerprintView, ParseError>(fp@) && fp.valid(),
                Err(e) => spec_parse(s@) == Err::<FingerprintView, ParseError>(e),
            }),
    {
        let n = s.unicode_len();
        let mut count: usize = 0;
        let mut split: usize = 0;
        let mut i: usize = 0;
        proof {
            assert(s@.take(0) =~= Seq::<char>::empty());
        }
        while i < n
            invariant
                n == s@.len(),
                i <= n,
                count <= i,
                count as int == hyphen_count(s@.take(i as int)),
                count >= 1 ==> ((split as int) < (i as int) && s@[split as int] == '-' && (forall|
                    k: int,
                |
                    0 <= k < split as int ==> s@[k] != '-')),
                count == 0 ==> (forall|k: int| 0 <= k < i as int ==> s@[k] != '-'),
            decreases n - i,
        {
            let c = s.get_char(i);
            proof {
                assert(s@.take(i as int + 1).drop_last() =~= s@.take(i as int));
                assert(s@.take(i as int + 1).last() == s@[i as int]);
            }
            if c == '-' {
                if count == 0 {
                    split = i;
                }
                count = count + 1;
            }
            i = i + 1;
        }
        proof {
            assert(s@.take(n as int) =~= s@);
        }
        if count != 1 {
            return Err(ParseError::MalformedStructure);
        }
        proof {
            assert(is_split_at(s@, split as int));
            lemma_split_at_unique(s@, split as int);
        }
        if split != 10 || n - split != 97 {
            return Err(ParseError::InvalidHex);
        }
        let ghost addr_field = s@.take(10);
        let ghost hash_field = s@.skip(11);
        proof {
            reveal_with_fuel(pow16, 11);
            assert(pow16(10) == 0x100_0000_0000);
        }
        let mut v: u64 = 0;
        let mut i: usize = 0;
        while i < 10
            invariant
                n == s@.len(),
                n == 107,
                split == 10,
                hyphen_count(s@) == 1,
                split_index(s@) == 10,
                addr_field == s@.take(10),
                i <= 10,
                all_hex(addr_field.take(i as int)),
                v as int == hex_field_value(addr_field.take(i as int)),
                pow16(10) == 0x100_0000_0000,
            decreases 10 - i,
        {
            let c = s.get_char(i);
            proof {
                assert(addr_field[i as int] == s@[i as int]);
                assert(addr_field.take(i as int + 1).drop_last() =~= addr_field.take(i as int));
                assert(addr_field.take(i as int + 1).last() == addr_field[i as int]);
            }
            match hex_value(c) {
                Some(d) => {
                    proof {
                        lemma_hex_field_value_bound(addr_field.take(i as int));
                        assert(pow16((i as nat) + 1) == 16 * pow16(i as nat));
                        lemma_pow16_mono((i as nat) + 1, 10);
                    }
                    v = v * 16 + (d as u64);
                },
                None => {
                    proof {
                        assert(!all_hex(addr_field));
                    }
                    return Err(ParseError::InvalidHex);
                },
            }
            i = i + 1;
        }
        proof {
            assert(addr_field.take(10) =~= addr_field);
        }
        let mut hash: [u8; 48] = [0u8; 48];
        let mut nonzero = false;
        let mut i: usize = 0;
        while i < 48
            invariant
                n == s@.len(),
                n == 107,
                split == 10,
                hyphen_count(s@) == 1,
                split_index(s@) == 10,
                addr_field == s@.take(10),
                hash_field == s@.skip(11),
                hash_field.len() == 96,
                i <= 48,
                all_hex(hash_field.take(2 * (i as int))),
                hash@.len() == 48,
                forall|j: int|
                    0 <= j < i as int ==> (#[trigger] hash@[j]) as int == 16 * hex_char_value(
                        hash_field[2 * j],
                    ) + hex_char_value(hash_field[2 * j + 1]),
                nonzero <==> (exists|j: int| 0 <= j < i as int && hash@[j] != 0),
            decreases 48 - i,
        {
            let c1 = s.get_char(11 + 2 * i);
            let c2 = s.get_char(12 + 2 * i);
            proof {
                assert(hash_field[2 * (i as int)] == s@[11 + 2 * (i as int)]);
                assert(hash_field[2 * (i as int) + 1] == s@[12 + 2 * (i as int)]);
            }
            let d1 = match hex_value(c1) {
                Some(d) => d,
                None => {
                    proof {
                        assert(!is_hex_char(hash_field[2 * (i as int)]));
                        assert(!all_hex(hash_field));
                    }
                    return Err(ParseError::InvalidHex);
                },
            };
            let d2 = match hex_value(c2) {
                Some(d) => d,
                None => {
                    proof {
                        assert(!is_hex_char(hash_field[2 * (i as int) + 1]));
                        assert(!all_hex(hash_field));
                    }
                    return Err(ParseError::InvalidHex);
                },
            };
            let b = 16 * d1 + d2;
            let ghost hash_prev = hash@;
            let ghost nonzero_prev = nonzero;
            hash[i] = b;
            if b != 0 {
                nonzero = true;
            }
            proof {
                assert(hash@ =~= hash_prev.update(i as int, b));
                if b != 0 {
                    assert(hash@[i as int] != 0);
                } else {
                    assert(nonzero == nonzero_prev);
                    if nonzero_prev {
                        let j = choose|j: int| 0 <= j < i as int && hash_prev[j] != 0;
                        assert(hash@[j] != 0);
                    } else {
                        assert forall|j: int| 0 <= j < (i as int) + 1 implies #[trigger] hash@[j]
                            == 0 by {
                            if j < i as int {
                                assert(hash@[j] == hash_prev[j]);
                                assert(!(0 <= j < i as int && hash_prev[j] != 0));
                            }
                        }
                    }
                }
                assert forall|k: int| 0 <= k < 2 * (i as int) + 2 implies is_hex_char(
                    #[trigger] hash_field.take(2 * (i as int) + 2)[k],
                ) by {
                    if k < 2 * (i as int) {
                        assert(is_hex_char(hash_field.take(2 * (i as int))[k]));
                    }
                }
                assert(all_hex(hash_field.take(2 * (i as int) + 2)));
            }
            i = i + 1;
        }
        proof {
            assert(hash_field.take(96) =~= hash_field);
            assert(hash@ =~= hex_field_bytes(hash_field)) by {
                vstd::arithmetic::div_mod::lemma_div_multiples_vanish(48, 2);
                assert(hex_field_bytes(hash_field).len() == 48);
            }
        }
        if v == 0 {
            return Err(ParseError::ZeroAddress);
        }
        if !nonzero {
            proof {
                assert(all_zero(hash@));
                assert(all_zero(hex_field_bytes(hash_field)));
            }
            return Err(ParseError::ZeroHash);
        }
        let fp = Fingerprint { address: Address(v), hash };
        proof {
            lemma_hex_field_value_bound(addr_field);
            let j = choose|j: int| 0 <= j < 48 && hash@[j] != 0;
            assert(hex_field_bytes(hash_field)[j] != 0);
            assert(!all_zero(hex_field_bytes(hash_field)));
            assert(FingerprintView {
                address: hex_field_value(addr_field),
                hash: hex_field_bytes(hash_field),
            } =~= fp@);
            assert(spec_parse(s@) == Ok::<FingerprintView, ParseError>(fp@));
            assert(fp.valid());
        }
        Ok(fp)
    }
}

} // verus!
