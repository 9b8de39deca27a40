//! The crate's everyday text encoding of bytes: six bits per character, with
//! the alphabet and the format of `base64`.

use crate::base64::ALPHABET;
use crate::utils::base_encoding::{
    decode_with_alphabet,
    decoded,
    encode_with_alphabet,
    encoded,
    in_alphabet,
    DecodeError,
};
use vstd::prelude::*;

verus! {

/// Encodes `bytes`, six bits per character.
pub fn encode(bytes: &[u8]) -> (text: String)
    ensures
        text@ == encoded(bytes@, ALPHABET@),
{
    encode_with_alphabet(bytes, &ALPHABET)
}

/// Decodes text made by `encode`.
///
/// Fails exactly when `input` holds a character that is not in the alphabet.
pub fn decode(input: &str) -> (result: Result<Vec<u8>, DecodeError>)
    ensures
        match result {
            Ok(bytes) => in_alphabet(input@, ALPHABET@) && bytes@ == decoded(input@, ALPHABET@),
            Err(error) => !in_alphabet(input@, ALPHABET@) && error == DecodeError::InvalidInput,
        },
{
    decode_with_alphabet(input, &ALPHABET)
}

} // verus!
