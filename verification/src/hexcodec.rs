//! Hex encoding and decoding of byte payloads: the encoded transfer
//! arrives as a hex string, and owner certificates are stored as the
//! hex form of their bytes. The conversions themselves are done by the
//! `hex` crate; their behaviour is stated here and relied upon.

use vstd::prelude::*;
use crate::types::LedgerError;

verus! {

/// Whether `c` is a hex digit, in either case.
pub open spec fn is_hex_digit(c: char) -> bool {
    (('0' as u32) <= (c as u32) && (c as u32) <= ('9' as u32)) || (('a' as u32) <= (c as u32) && (c
        as u32) <= ('f' as u32)) || (('A' as u32) <= (c as u32) && (c as u32) <= ('F' as u32))
}

/// The value of the hex digit `c` (0 for a non-digit).
pub open spec fn hex_digit_val(c: char) -> int {
    if ('0' as u32) <= (c as u32) && (c as u32) <= ('9' as u32) {
        (c as u32) - ('0' as u32)
    } else if ('a' as u32) <= (c as u32) && (c as u32) <= ('f' as u32) {
        (c as u32) - ('a' as u32) + 10
    } else if ('A' as u32) <= (c as u32) && (c as u32) <= ('F' as u32) {
        (c as u32) - ('A' as u32) + 10
    } else {
        0
    }
}

/// Whether `s` is a well-formed hex payload: an even number of
/// characters, all hex digits.
pub open spec fn valid_hex_seq(s: Seq<char>) -> bool {
    s.len() % 2 == 0 && (forall|i: int| 0 <= i < s.len() ==> is_hex_digit(#[trigger] s[i]))
}

/// The bytes a hex payload decodes to: one byte per digit pair.
pub open spec fn hex_decode_seq(s: Seq<char>) -> Seq<u8>
    decreases s.len(),
{
    if s.len() < 2 {
        Seq::empty()
    } else {
        seq![(hex_digit_val(s[0]) * 16 + hex_digit_val(s[1])) as u8] + hex_decode_seq(s.skip(2))
    }
}

/// The lowercase hex digit for the nibble `v`.
pub open spec fn nibble_char(v: int) -> char {
    if v == 0 {
        '0'
    } else if v == 1 {
        '1'
    } else if v == 2 {
        '2'
    } else if v == 3 {
        '3'
    } else if v == 4 {
        '4'
    } else if v == 5 {
        '5'
    } else if v == 6 {
        '6'
    } else if v == 7 {
        '7'
    } else if v == 8 {
        '8'
    } else if v == 9 {
        '9'
    } else if v == 10 {
        'a'
    } else if v == 11 {
        'b'
    } else if v == 12 {
        'c'
    } else if v == 13 {
        'd'
    } else if v == 14 {
        'e'
    } else {
        'f'
    }
}

/// The lowercase hex form of a byte sequence: two digits per byte,
/// high nibble first.
pub open spec fn hex_encode_seq(b: Seq<u8>) -> Seq<char>
    decreases b.len(),
{
    if b.len() == 0 {
        Seq::empty()
    } else {
        seq![nibble_char(b[0] as int / 16), nibble_char(b[0] as int % 16)] + hex_encode_seq(
            b.drop_first(),
        )
    }
}

/// Relies on `hex::decode`: it succeeds exactly on an even-length
/// string of hex digits (either case may be used) and then returns one
/// byte per digit pair, high nibble first.
#[verifier::external_body]
fn hex_decode_call(s: &str) -> (r: Option<Vec<u8>>)
    ensures
        r is Some <==> valid_hex_seq(s@),
        r matches Some(v) ==> v@ == hex_decode_seq(s@),
{
    match hex::decode(s) {
        Ok(v) => Some(v),
        Err(_) => None,
    }
}

/// Relies on `hex::encode`: it returns two lowercase hex digits per
/// input byte, high nibble first.
#[verifier::external_body]
pub(crate) fn hex_encode_call(b: &Vec<u8>) -> (r: String)
    ensures
        r@ == hex_encode_seq(b@),
{
    hex::encode(b.as_slice())
}

/// Decodes the hex-encoded transfer payload into its raw bytes. The
/// payload is malformed — and the parse error returned — exactly when
/// it is not an even-length string of hex digits.
pub fn decode_transfer_payload(s: &String) -> (r: Result<Vec<u8>, LedgerError>)
    ensures
        r is Ok <==> valid_hex_seq(s@),
        r matches Ok(v) ==> v@ == hex_decode_seq(s@),
        r matches Err(e) ==> e == LedgerError::Parse,
{
    match hex_decode_call(s.as_str()) {
        Some(v) => Ok(v),
        None => Err(LedgerError::Parse),
    }
}

} // verus!
