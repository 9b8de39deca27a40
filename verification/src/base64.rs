//! Base 64 without padding characters: six bits per character over the
//! alphabet `A-Z a-z 0-9 + /`.

use crate::utils::base_encoding::{
    decode_with_alphabet,
    decoded,
    distinct_symbols,
    encode_with_alphabet,
    encoded,
    in_alphabet,
    lemma_round_trip_with_alphabet,
    log2_floor,
    DecodeError,
};
use vstd::prelude::*;

verus! {

/// The base-64 alphabet.
pub const ALPHABET: [char; 64] = [
    'A', 'B', 'C', 'D', 'E', 'F', 'G', 'H', 'I', 'J', 'K', 'L', 'M', 'N', 'O', 'P', 'Q', 'R', 'S',
    'T', 'U', 'V', 'W', 'X', 'Y', 'Z', 'a', 'b', 'c', 'd', 'e', 'f', 'g', 'h', 'i', 'j', 'k', 'l',
    'm', 'n', 'o', 'p', 'q', 'r', 's', 't', 'u', 'v', 'w', 'x', 'y', 'z', '0', '1', '2', '3', '4',
    '5', '6', '7', '8', '9', '+', '/',
];

/// The base-64 alphabet carries six bits per character, and its characters
/// are pairwise different.
pub proof fn lemma_alphabet()
    ensures
        ALPHABET@.len() == 64,
        log2_floor(ALPHABET@.len()) == 6,
        distinct_symbols(ALPHABET@),
{
    reveal_with_fuel(log2_floor, 8);
}

/// Encodes `bytes` in base 64.
pub fn encode(bytes: &[u8]) -> (text: String)
    ensures
        text@ == encoded(bytes@, ALPHABET@),
{
    encode_with_alphabet(bytes, &ALPHABET)
}

/// Decodes base-64 text.
///
/// Fails exactly when `input` holds a character that is not in the alphabet.
pub fn decode(input: &str) -> (result: Result<Vec<u8>, DecodeError>)
    ensures
        match result {
            Ok(bytes) => in_alphabet(input@, ALPHABET@) && bytes@ == decoded(input@, ALPHABET@),
            Err(error) => !in_alphabet(input@, ALPHABET@) && error == DecodeError::InvalidInput,
        },
{
    decode_with_alphabet(input, &ALPHABET)
}

/// Decoding an encoding gives the bytes back, whatever their number.
pub proof fn lemma_round_trip(bytes: Seq<u8>)
    ensures
        in_alphabet(encoded(bytes, ALPHABET@), ALPHABET@),
        decoded(encoded(bytes, ALPHABET@), ALPHABET@) == bytes,
{
    lemma_alphabet();
    lemma_round_trip_with_alphabet(bytes, ALPHABET@);
}

} // verus!
