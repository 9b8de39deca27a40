//! Bytes as hexadecimal text, by way of the `hex` crate.

use vstd::prelude::*;

verus! {

/// The lower-case hexadecimal digit for a value below sixteen.
pub open spec fn hex_digit(value: nat) -> char {
    if value < 10 {
        (48 + value) as char
    } else {
        (87 + value) as char
    }
}

/// The hexadecimal text of `bytes`: two lower-case digits for each byte, the
/// high half first.
pub open spec fn hex_text(bytes: Seq<u8>) -> Seq<char> {
    Seq::new(
        2 * bytes.len(),
        |i: int|
            hex_digit(
                if i % 2 == 0 {
                    (bytes[i / 2] / 16) as nat
                } else {
                    (bytes[i / 2] % 16) as nat
                },
            ),
    )
}

/// The value of a hexadecimal digit given as a byte of text, in either case.
pub open spec fn hex_value(digit: u8) -> Option<nat> {
    if 48 <= digit <= 57 {
        Some((digit - 48) as nat)
    } else if 97 <= digit <= 102 {
        Some((digit - 87) as nat)
    } else if 65 <= digit <= 70 {
        Some((digit - 55) as nat)
    } else {
        None
    }
}

/// The bytes that hexadecimal text stands for, two digits to a byte.
pub open spec fn hex_bytes(text: Seq<u8>) -> Seq<u8> {
    Seq::new(
        text.len() / 2,
        |i: int| (16 * hex_value(text[2 * i])->0 + hex_value(text[2 * i + 1])->0) as u8,
    )
}

/// Why text is not hexadecimal. The variants are those of
/// `hex::FromHexError`.
#[derive(Debug, Clone, Copy, PartialEq, Eq, Structural)]
pub enum HexError {
    /// The byte `c` at place `index` of the text is no hexadecimal digit.
    InvalidHexCharacter { c: char, index: usize },
    /// The text has an odd number of bytes.
    OddLength,
    /// The text does not fill a container of fixed size.
    InvalidStringLength,
}

/// Writes `bytes` as hexadecimal text with `hex::encode`, which gives two
/// lower-case digits for each byte, the high half first.
#[verifier::external_body]
pub(crate) fn hex_encode(bytes: &[u8]) -> (text: String)
    ensures
        text@ == hex_text(bytes@),
{
    ::hex::encode(bytes)
}

/// Reads hexadecimal text, given as its bytes, with `hex::decode`. An odd number of bytes is refused first; then the first byte
/// that is no digit is named with its place; otherwise each pair of digits
/// gives a byte. Upper and lower case are both read.
#[verifier::external_body]
pub(crate) fn hex_decode(text: &[u8]) -> (result: Result<Vec<u8>, HexError>)
    ensures
        match result {
            Ok(bytes) => {
                &&& text@.len() % 2 == 0
                &&& forall|j: int|
                    0 <= j < text@.len() ==> hex_value(
                        #[trigger] text@[j],
                    ) is Some
                &&& bytes@ == hex_bytes(text@)
            },
            Err(HexError::OddLength) => text@.len() % 2 == 1,
            Err(HexError::InvalidHexCharacter { c, index }) => {
                &&& text@.len() % 2 == 0
                &&& index < text@.len()
                &&& hex_value(text@[index as int]) is None
                &&& c == text@[index as int] as char
                &&& forall|j: int|
                    0 <= j < index ==> hex_value(#[trigger] text@[j]) is Some
            },
            Err(HexError::InvalidStringLength) => false,
        },
{
    match ::hex::decode(text) {
        Ok(bytes) => Ok(bytes),
        Err(::hex::FromHexError::InvalidHexCharacter { c, index }) => Err(
            HexError::InvalidHexCharacter { c, index },
        ),
        Err(::hex::FromHexError::OddLength) => Err(HexError::OddLength),
        Err(::hex::FromHexError::InvalidStringLength) => Err(HexError::InvalidStringLength),
    }
}

} // verus!
