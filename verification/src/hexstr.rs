//! Hex encoding and decoding of byte strings, as ASCII bytes.
//!
//! Addresses, hash-chain commitments and block hashes travel through the
//! system in lowercase hex. The conversions are done by the `hex` crate;
//! their results are pinned down exactly by the spec functions here, and the
//! round-trip laws are proved from those definitions.

use vstd::prelude::*;

verus! {

/// The lowercase hex digit for a nibble `n < 16`.
pub open spec fn hex_digit(n: u8) -> u8 {
    if n < 10 {
        (48 + n) as u8
    } else {
        (87 + n) as u8
    }
}

/// The numeric value of an ASCII hex digit; 255 marks a non-digit.
pub open spec fn hex_val(c: u8) -> u8 {
    if 48 <= c <= 57 {
        (c - 48) as u8
    } else if 97 <= c <= 102 {
        (c - 87) as u8
    } else if 65 <= c <= 70 {
        (c - 55) as u8
    } else {
        255
    }
}

pub open spec fn is_hex_digit(c: u8) -> bool {
    hex_val(c) < 16
}

/// Lowercase hex encoding: two digits per byte, high nibble first.
pub open spec fn hex_seq(s: Seq<u8>) -> Seq<u8> {
    Seq::new(2 * s.len(), |i: int|
        if i % 2 == 0 {
            hex_digit(s[i / 2] / 16)
        } else {
            hex_digit(s[i / 2] % 16)
        })
}

/// A string decodes iff it has even length and holds only hex digits.
pub open spec fn valid_hex(s: Seq<u8>) -> bool {
    s.len() % 2 == 0 && forall|i: int| 0 <= i < s.len() ==> is_hex_digit(#[trigger] s[i])
}

/// The bytes a valid hex string denotes.
pub open spec fn hex_parse(s: Seq<u8>) -> Seq<u8> {
    Seq::new(s.len() / 2, |i: int| (16 * hex_val(s[2 * i]) + hex_val(s[2 * i + 1])) as u8)
}

/// Relies on hex::encode: lowercase hex, two digits per byte, high nibble
/// first.
#[verifier::external_body]
pub fn hex_encode(data: &Vec<u8>) -> (r: Vec<u8>)
    ensures
        r@ == hex_seq(data@),
{
    hex::encode(data).into_bytes()
}

/// Relies on hex::decode: accepts exactly the even-length strings of hex
/// digits (upper or lower case) and returns the denoted bytes.
#[verifier::external_body]
pub fn hex_decode(data: &Vec<u8>) -> (r: Option<Vec<u8>>)
    ensures
        r is Some <==> valid_hex(data@),
        r is Some ==> r.unwrap()@ == hex_parse(data@),
{
    match hex::decode(data) {
        Ok(v) => Some(v),
        Err(_) => None,
    }
}

/// Encoding always yields a valid hex string, and decoding it gives the
/// original bytes back.
pub proof fn lemma_hex_round_trip(s: Seq<u8>)
    ensures
        valid_hex(hex_seq(s)),
        hex_parse(hex_seq(s)) == s,
{
    let h = hex_seq(s);
    assert forall|i: int| 0 <= i < h.len() implies is_hex_digit(#[trigger] h[i]) by {
        if i % 2 == 0 {
            assert(h[i] == hex_digit(s[i / 2] / 16));
        } else {
            assert(h[i] == hex_digit(s[i / 2] % 16));
        }
    }
    assert forall|i: int| 0 <= i < s.len() implies hex_parse(h)[i] == s[i] by {
        assert(h[2 * i] == hex_digit(s[i] / 16));
        assert(h[2 * i + 1] == hex_digit(s[i] % 16));
    }
    assert(hex_parse(h) =~= s);
}

} // verus!
