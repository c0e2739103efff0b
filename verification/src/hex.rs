use vstd::prelude::*;

use crate::errors::HexError;

verus! {

/// The lowercase hex digit of `n` (for `0 <= n < 16`), as an ASCII byte.
pub open spec fn hex_digit(n: int) -> u8 {
    if n < 10 {
        (48 + n) as u8
    } else {
        (87 + n) as u8
    }
}

/// Hex text of `bytes`: two lowercase digits per byte, the high half first.
pub open spec fn hex_encode(bytes: Seq<u8>) -> Seq<u8> {
    Seq::new(
        2 * bytes.len(),
        |i: int|
            if i % 2 == 0 {
                hex_digit(bytes[i / 2] as int / 16)
            } else {
                hex_digit(bytes[i / 2] as int % 16)
            },
    )
}

/// The value of a hex digit (`0-9`, `a-f` or `A-F`), if `c` is one.
pub open spec fn hex_value(c: u8) -> Option<u8> {
    if 48 <= c <= 57 {
        Some((c - 48) as u8)
    } else if 65 <= c <= 70 {
        Some((c - 55) as u8)
    } else if 97 <= c <= 102 {
        Some((c - 87) as u8)
    } else {
        None
    }
}

pub open spec fn is_hex_digit(c: u8) -> bool {
    hex_value(c) is Some
}

/// The position of the first byte of `s` that is not a hex digit.
pub open spec fn first_invalid(s: Seq<u8>) -> int {
    choose|i: int|
        0 <= i < s.len() && !is_hex_digit(s[i]) && forall|j: int| 0 <= j < i ==> is_hex_digit(s[j])
}

/// The bytes that hex text stands for, or why it stands for none: an odd length first,
/// then the first byte that is not a hex digit.
pub open spec fn hex_decode(s: Seq<u8>) -> Result<Seq<u8>, HexError> {
    if s.len() % 2 != 0 {
        Err(HexError::OddLength)
    } else if exists|i: int| 0 <= i < s.len() && !is_hex_digit(s[i]) {
        Err(
            HexError::InvalidHexCharacter {
                c: s[first_invalid(s)] as char,
                index: first_invalid(s) as usize,
            },
        )
    } else {
        Ok(
            Seq::new(
                s.len() / 2,
                |j: int| (hex_value(s[2 * j])->0 * 16 + hex_value(s[2 * j + 1])->0) as u8,
            ),
        )
    }
}

/// Calls `hex::encode` and takes the bytes of the resulting `String`. hex encodes each byte
/// as two lowercase digits (table `0123456789abcdef`), the high half first.
#[verifier::external_body]
fn encode(data: &[u8]) -> (r: Vec<u8>)
    ensures
        r@ == hex_encode(data@),
{
    hex::encode(data).into_bytes()
}

/// Calls `hex::decode`, with hex's `FromHexError` carried into the library's `HexError`
/// variant by variant. hex fails with `OddLength` on an odd length, else with the first byte
/// (taken as a char) that is not a digit `0-9`, `a-f`, `A-F` and its position, else returns
/// one byte per pair of digits (high half first).
#[verifier::external_body]
fn decode(data: &[u8]) -> (r: Result<Vec<u8>, HexError>)
    ensures
        match r {
            Ok(v) => hex_decode(data@) == Ok::<Seq<u8>, HexError>(v@),
            Err(e) => hex_decode(data@) == Err::<Seq<u8>, HexError>(e),
        },
{
    match hex::decode(data) {
        Ok(v) => Ok(v),
        Err(hex::FromHexError::InvalidHexCharacter { c, index }) => Err(
            HexError::InvalidHexCharacter { c, index },
        ),
        Err(hex::FromHexError::OddLength) => Err(HexError::OddLength),
        Err(hex::FromHexError::InvalidStringLength) => Err(HexError::InvalidStringLength),
    }
}

/// The hex text under which a build artifact (a proof, an ACIR checksum) is stored.
pub fn encode_hex_artifact(raw: &[u8]) -> (r: Vec<u8>)
    ensures
        r@ == hex_encode(raw@),
{
    encode(raw)
}

/// The bytes of a build artifact stored as hex text.
pub fn decode_hex_artifact(hex_data: &[u8]) -> (r: Result<Vec<u8>, HexError>)
    ensures
        r is Ok <==> hex_decode(hex_data@) is Ok,
        r matches Ok(v) ==> hex_decode(hex_data@) == Ok::<Seq<u8>, HexError>(v@),
        r matches Err(e) ==> hex_decode(hex_data@) == Err::<Seq<u8>, HexError>(e),
{
    decode(hex_data)
}

proof fn lemma_digit_value(n: int)
    requires
        0 <= n < 16,
    ensures
        hex_value(hex_digit(n)) == Some(n as u8),
{
}

/// Hex text written for a build artifact reads back as the same bytes.
pub proof fn lemma_hex_roundtrip(bytes: Seq<u8>)
    ensures
        hex_decode(hex_encode(bytes)) == Ok::<Seq<u8>, HexError>(bytes),
{
    let s = hex_encode(bytes);
    assert(s.len() % 2 == 0) by (nonlinear_arith)
        requires
            s.len() == 2 * bytes.len(),
    ;
    assert forall|i: int| 0 <= i < s.len() implies is_hex_digit(#[trigger] s[i]) by {
        let b = bytes[i / 2] as int;
        lemma_digit_value(b / 16);
        lemma_digit_value(b % 16);
    }
    let d = Seq::new(
        s.len() / 2,
        |j: int| (hex_value(s[2 * j])->0 * 16 + hex_value(s[2 * j + 1])->0) as u8,
    );
    assert forall|j: int| 0 <= j < bytes.len() implies d[j] == bytes[j] by {
        let b = bytes[j] as int;
        assert((2 * j) % 2 == 0 && (2 * j) / 2 == j);
        assert((2 * j + 1) % 2 == 1 && (2 * j + 1) / 2 == j);
        lemma_digit_value(b / 16);
        lemma_digit_value(b % 16);
        assert(b / 16 * 16 + b % 16 == b);
    }
    assert(d =~= bytes);
}

/// Hex text is made of lowercase hex digits, two per byte.
pub proof fn lemma_hex_encode_digits(bytes: Seq<u8>)
    ensures
        hex_encode(bytes).len() == 2 * bytes.len(),
        forall|i: int|
            0 <= i < hex_encode(bytes).len() ==> {
                let c = #[trigger] hex_encode(bytes)[i];
                (48 <= c <= 57 || 97 <= c <= 102)
            },
{
}

} // verus!
