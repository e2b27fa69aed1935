//! Hexadecimal digit characters: the value of a digit, the canonical
//! lower-case digit of a value, and their round-trip facts.

use vstd::prelude::*;

verus! {

/// True of the twenty-two characters that may stand in a hex field:
/// `0`-`9`, `a`-`f` and `A`-`F`.
pub open spec fn is_hex_char(c: char) -> bool {
    ('0' as u32) <= (c as u32) <= ('9' as u32) || ('a' as u32) <= (c as u32) <= ('f' as u32) || (
    'A' as u32) <= (c as u32) <= ('F' as u32)
}

/// Numeric value of a hex digit character; 0 on anything else.
pub open spec fn hex_char_value(c: char) -> int
    recommends
        is_hex_char(c),
{
    if ('0' as u32) <= (c as u32) <= ('9' as u32) {
        (c as u32) - ('0' as u32)
    } else if ('a' as u32) <= (c as u32) <= ('f' as u32) {
        (c as u32) - ('a' as u32) + 10
    } else if ('A' as u32) <= (c as u32) <= ('F' as u32) {
        (c as u32) - ('A' as u32) + 10
    } else {
        0
    }
}

/// The canonical lower-case hex digit character of a value below sixteen.
pub open spec fn hex_char_of(d: int) -> char
    recommends
        0 <= d < 16,
{
    if d == 0 {
        '0'
    } else if d == 1 {
        '1'
    } else if d == 2 {
        '2'
    } else if d == 3 {
        '3'
    } else if d == 4 {
        '4'
    } else if d == 5 {
        '5'
    } else if d == 6 {
        '6'
    } else if d == 7 {
        '7'
    } else if d == 8 {
        '8'
    } else if d == 9 {
        '9'
    } else if d == 10 {
        'a'
    } else if d == 11 {
        'b'
    } else if d == 12 {
        'c'
    } else if d == 13 {
        'd'
    } else if d == 14 {
        'e'
    } else {
        'f'
    }
}

/// True of the characters the canonical encoding may emit: lower-case hex
/// digits and the field delimiter.
pub open spec fn is_canonical_char(c: char) -> bool {
    ('0' as u32) <= (c as u32) <= ('9' as u32) || ('a' as u32) <= (c as u32) <= ('f' as u32) || c
        == '-'
}

/// A canonical digit is a hex digit, is never the delimiter, and decodes back
/// to the value it encodes.
pub proof fn lemma_hex_char_of_value(d: int)
    requires
        0 <= d < 16,
    ensures
        is_hex_char(hex_char_of(d)),
        hex_char_value(hex_char_of(d)) == d,
        hex_char_of(d) != '-',
        is_canonical_char(hex_char_of(d)),
{
}

/// Decodes one character; `None` exactly on non-hex characters.
pub fn hex_value(c: char) -> (r: Option<u8>)
    ensures
        r is Some <==> is_hex_char(c),
        r matches Some(d) ==> d == hex_char_value(c) && d < 16,
{
    let v = c as u32;
    if 48 <= v && v <= 57 {
        Some((v - 48) as u8)
    } else if 97 <= v && v <= 102 {
        Some((v - 97 + 10) as u8)
    } else if 65 <= v && v <= 70 {
        Some((v - 65 + 10) as u8)
    } else {
        None
    }
}

/// Encodes one value below sixteen as its canonical lower-case digit, as a
/// one-character string ready for appending.
pub fn hex_digit_str(d: u8) -> (r: &'static str)
    requires
        d < 16,
    ensures
        r@ == seq![hex_char_of(d as int)],
{
    proof {
        reveal_strlit("0");
        reveal_strlit("1");
        reveal_strlit("2");
        reveal_strlit("3");
        reveal_strlit("4");
        reveal_strlit("5");
        reveal_strlit("6");
        reveal_strlit("7");
        reveal_strlit("8");
        reveal_strlit("9");
        reveal_strlit("a");
        reveal_strlit("b");
        reveal_strlit("c");
        reveal_strlit("d");
        reveal_strlit("e");
        reveal_strlit("f");
    }
    let r: &'static str = if d == 0 {
        "0"
    } else if d == 1 {
        "1"
    } else if d == 2 {
        "2"
    } else if d == 3 {
        "3"
    } else if d == 4 {
        "4"
    } else if d == 5 {
        "5"
    } else if d == 6 {
        "6"
    } else if d == 7 {
        "7"
    } else if d == 8 {
        "8"
    } else if d == 9 {
        "9"
    } else if d == 10 {
        "a"
    } else if d == 11 {
        "b"
    } else if d == 12 {
        "c"
    } else if d == 13 {
        "d"
    } else if d == 14 {
        "e"
    } else {
        "f"
    };
    proof {
        assert(r@ =~= seq![hex_char_of(d as int)]);
    }
    r
}

} // verus!
