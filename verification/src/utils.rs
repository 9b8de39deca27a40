//! Bit-level helpers and the text encodings built on them.

pub mod bit_manipulation;
pub mod bit_stream;
pub mod base_encoding;
pub mod hex_text;
