//! Hexadecimal digits and the bytes they stand for.

use vstd::prelude::*;

verus! {

/// Whether `c` is one of `0-9`, `a-f`, `A-F`.
pub open spec fn is_hex_digit(c: char) -> bool {
    ('0' <= c && c <= '9') || ('a' <= c && c <= 'f') || ('A' <= c && c <= 'F')
}

/// The number, below sixteen, that the hexadecimal digit `c` stands for.
pub open spec fn digit_value(c: char) -> int {
    if '0' <= c && c <= '9' {
        c as int - '0' as int
    } else if 'a' <= c && c <= 'f' {
        c as int - 'a' as int + 10
    } else {
        c as int - 'A' as int + 10
    }
}

/// Whether `s` can be decoded: an even number of characters, each a
/// hexadecimal digit.
pub open spec fn is_hex_text(s: Seq<char>) -> bool {
    &&& s.len() % 2 == 0
    &&& forall|i: int| 0 <= i < s.len() ==> is_hex_digit(#[trigger] s[i])
}

/// The bytes that the digits of `s` spell, two digits to a byte, the high
/// half first.
pub open spec fn hex_value(s: Seq<char>) -> Seq<u8> {
    Seq::new(
        s.len() / 2,
        |i: int| (16 * digit_value(s[2 * i]) + digit_value(s[2 * i + 1])) as u8,
    )
}

/// The digit that stands for `v`, for `v` below sixteen, in capitals if
/// `upper`.
pub open spec fn digit_of(v: int, upper: bool) -> char {
    if v == 0 {
        '0'
    } else if v == 1 {
        '1'
    } else if v == 2 {
        '2'
    } else if v == 3 {
        '3'
    } else if v == 4 {
        '4'
    } else if v == 5 {
        '5'
    } else if v == 6 {
        '6'
    } else if v == 7 {
        '7'
    } else if v == 8 {
        '8'
    } else if v == 9 {
        '9'
    } else if v == 10 {
        if upper { 'A' } else { 'a' }
    } else if v == 11 {
        if upper { 'B' } else { 'b' }
    } else if v == 12 {
        if upper { 'C' } else { 'c' }
    } else if v == 13 {
        if upper { 'D' } else { 'd' }
    } else if v == 14 {
        if upper { 'E' } else { 'e' }
    } else {
        if upper { 'F' } else { 'f' }
    }
}

/// `bytes` written as hexadecimal digits, two to a byte.
pub open spec fn hex_text(bytes: Seq<u8>, upper: bool) -> Seq<char> {
    Seq::new(
        2 * bytes.len(),
        |i: int|
            if i % 2 == 0 {
                digit_of(bytes[i / 2] as int / 16, upper)
            } else {
                digit_of(bytes[i / 2] as int % 16, upper)
            },
    )
}

/// Why a run of characters could not be read as bytes.
#[derive(Clone, Copy, Debug, PartialEq, Eq)]
pub enum HexError {
    /// The text has an odd number of characters, or a character that is no
    /// hexadecimal digit.
    Malformed,
}

/// `hex::FromHexError`, the error of `hex::decode`. Nothing is read from
/// it: any error of that call is `HexError::Malformed` here.
#[verifier::external_type_specification]
#[verifier::external_body]
pub struct ExFromHexError(hex::FromHexError);

/// `hex::decode` on the bytes of `digits`. Claimed of it: it succeeds exactly
/// on an even number of hexadecimal digits, and then each pair of digits
/// gives one byte, the first digit its high half. Any other text, one with
/// a character outside ASCII included, is an error.
#[verifier::external_body]
fn hex_crate_decode(digits: &str) -> (r: Result<Vec<u8>, hex::FromHexError>)
    ensures
        is_hex_text(digits@) ==> r is Ok && r->Ok_0@ == hex_value(digits@),
        !is_hex_text(digits@) ==> r is Err,
{
    hex::decode(digits)
}

/// Reads `digits` as bytes.
pub fn decode_hex(digits: &str) -> (r: Result<Vec<u8>, HexError>)
    ensures
        is_hex_text(digits@) ==> r is Ok && r->Ok_0@ == hex_value(digits@),
        !is_hex_text(digits@) ==> r == Err::<Vec<u8>, HexError>(HexError::Malformed),
{
    match hex_crate_decode(digits) {
        Ok(bytes) => Ok(bytes),
        Err(_) => Err(HexError::Malformed),
    }
}

/// Writing bytes as hexadecimal digits and reading the digits back gives
/// the bytes again, in small letters as in capitals.
pub proof fn lemma_hex_round_trip(bytes: Seq<u8>, upper: bool)
    ensures
        is_hex_text(hex_text(bytes, upper)),
        hex_value(hex_text(bytes, upper)) == bytes,
{
    let t = hex_text(bytes, upper);
    assert forall|i: int| 0 <= i < t.len() implies is_hex_digit(#[trigger] t[i]) by {
        let b = bytes[i / 2] as int;
        assert(0 <= b / 16 < 16 && 0 <= b % 16 < 16);
    }
    assert forall|k: int| 0 <= k < bytes.len() implies hex_value(t)[k] == bytes[k] by {
        let b = bytes[k] as int;
        assert(0 <= b / 16 < 16 && 0 <= b % 16 < 16);
        assert(t[2 * k] == digit_of(b / 16, upper));
        assert(t[2 * k + 1] == digit_of(b % 16, upper));
        assert(digit_value(digit_of(b / 16, upper)) == b / 16);
        assert(digit_value(digit_of(b % 16, upper)) == b % 16);
        assert(16 * (b / 16) + b % 16 == b);
    }
    assert(hex_value(t) =~= bytes);
}

} // verus!
