//! A text encoding of bytes over an arbitrary alphabet.
//!
//! The bytes are read as one stream of bits, most significant bit first, and
//! cut into groups of `log2_floor(alphabet.len())` bits; each group selects a
//! character of the alphabet. Decoding looks each character up and regroups
//! the bits into bytes.

use super::bit_manipulation::{bit_at, bit_weight, read_bit, write_bit};
use super::bit_stream::{
    bit_value,
    lemma_window_agree,
    lemma_window_bit,
    lemma_window_bound,
    lemma_window_of_number,
    lemma_window_padding,
    stream_bit,
    window_value,
};
use vstd::arithmetic::div_mod::lemma_div_by_multiple;
use vstd::arithmetic::power2::{lemma_pow2_pos, lemma_pow2_unfold, pow2};
use vstd::prelude::*;

verus! {

/// The default alphabet: letters and digits without the look-alikes
/// `L`, `O`, `l`, `o` and `0`.
pub const ALPHABET: [char; 57] = [
    'A', 'B', 'C', 'D', 'E', 'F', 'G', 'H', 'I', 'J', 'K', 'M', 'N', 'P', 'Q', 'R', 'S', 'T', 'U',
    'V', 'W', 'X', 'Y', 'Z', 'a', 'b', 'c', 'd', 'e', 'f', 'g', 'h', 'i', 'j', 'k', 'm', 'n', 'p',
    'q', 'r', 's', 't', 'u', 'v', 'w', 'x', 'y', 'z', '1', '2', '3', '4', '5', '6', '7', '8', '9',
];

/// Why a text could not be decoded.
#[derive(Debug, PartialEq, Eq, Structural)]
pub enum DecodeError {
    /// The text holds a character that is not in the alphabet.
    InvalidInput,
}

/// The largest `e` with `2^e <= n`; `0` for `n < 2`.
pub open spec fn log2_floor(n: nat) -> nat
    decreases n,
{
    if n < 2 {
        0
    } else {
        1 + log2_floor(n / 2)
    }
}

/// The bits of `bytes` in the order in which they are encoded: byte by byte,
/// the most significant bit of each byte first.
pub open spec fn byte_stream(bytes: Seq<u8>) -> Seq<bool> {
    Seq::new(8 * bytes.len(), |k: int| bit_at(bytes[k / 8] as nat, (7 - k % 8) as nat))
}

/// How many characters encode `byte_count` bytes with `bits` bits per
/// character: one for each full group of bits and one more for the rest,
/// which is written even when it is empty.
pub open spec fn symbol_count(byte_count: nat, bits: nat) -> nat {
    if bits == 0 {
        0
    } else {
        (8 * byte_count) / bits + 1
    }
}

/// The text that encodes `bytes` over `alphabet`.
pub open spec fn encoded(bytes: Seq<u8>, alphabet: Seq<char>) -> Seq<char> {
    let bits = log2_floor(alphabet.len());
    Seq::new(
        symbol_count(bytes.len(), bits),
        |j: int| alphabet[window_value(byte_stream(bytes), j * bits, bits) as int],
    )
}

/// `index` is the first place at which `alphabet` holds `c`.
pub open spec fn is_position(alphabet: Seq<char>, c: char, index: int) -> bool {
    &&& 0 <= index < alphabet.len()
    &&& alphabet[index] == c
    &&& forall|earlier: int| 0 <= earlier < index ==> alphabet[earlier] != c
}

/// The first place at which `alphabet` holds `c`, where it holds it at all.
pub open spec fn position(alphabet: Seq<char>, c: char) -> int {
    choose|index: int| is_position(alphabet, c, index)
}

/// Every character of `input` occurs in `alphabet`.
pub open spec fn in_alphabet(input: Seq<char>, alphabet: Seq<char>) -> bool {
    forall|j: int| 0 <= j < input.len() ==> alphabet.contains(#[trigger] input[j])
}

/// The bits that the characters of `input` stand for: of each character's
/// position in the alphabet the lowest `bits` bits, the most significant of
/// them first.
pub open spec fn symbol_stream(input: Seq<char>, alphabet: Seq<char>, bits: nat) -> Seq<bool> {
    Seq::new(
        input.len() * bits,
        |k: int|
            bit_at(
                position(alphabet, input[k / bits as int]) as nat,
                (bits - 1 - k % bits as int) as nat,
            ),
    )
}

/// The bytes that `input` decodes to: the full groups of eight bits of its
/// symbol stream. Bits left over at the end are dropped.
pub open spec fn decoded(input: Seq<char>, alphabet: Seq<char>) -> Seq<u8> {
    let bits = log2_floor(alphabet.len());
    Seq::new(
        (input.len() * bits) / 8,
        |m: int| window_value(symbol_stream(input, alphabet, bits), 8 * m, 8) as u8,
    )
}

/// `2^log2_floor(n) <= n < 2^(log2_floor(n) + 1)` for positive `n`.
pub proof fn lemma_log2_floor_bounds(n: nat)
    requires
        n >= 1,
    ensures
        pow2(log2_floor(n)) <= n < pow2(log2_floor(n) + 1),
    decreases n,
{
    if n < 2 {
        vstd::arithmetic::power2::lemma2_to64();
    } else {
        lemma_log2_floor_bounds(n / 2);
        lemma_pow2_unfold(log2_floor(n));
        lemma_pow2_unfold(log2_floor(n) + 1);
    }
}

/// A number that fits a machine word has a logarithm below the word's width.
proof fn lemma_log2_floor_small(n: nat)
    requires
        n <= u64::MAX,
    ensures
        log2_floor(n) < 64,
{
    if n >= 1 && log2_floor(n) >= 64 {
        lemma_log2_floor_bounds(n);
        vstd::arithmetic::power2::lemma2_to64();
        vstd::arithmetic::power2::lemma2_to64_rest();
        vstd::arithmetic::power2::lemma_pow2_strictly_increases(64, log2_floor(n) + 1);
        if log2_floor(n) > 64 {
            vstd::arithmetic::power2::lemma_pow2_strictly_increases(64, log2_floor(n));
        }
    }
}

/// The number of bits that one character of an alphabet of `alphabet_len`
/// characters carries.
pub fn bits_per_char(alphabet_len: usize) -> (bits: u32)
    ensures
        bits == log2_floor(alphabet_len as nat),
        bits < 64,
{
    let mut rest: usize = alphabet_len;
    let mut bits: u32 = 0;
    proof {
        lemma_log2_floor_small(alphabet_len as nat);
    }
    while rest >= 2
        invariant
            bits + log2_floor(rest as nat) == log2_floor(alphabet_len as nat),
            log2_floor(alphabet_len as nat) < 64,
        decreases rest,
    {
        rest = rest / 2;
        bits = bits + 1;
    }
    bits
}

/// A number with at least `pos + 1` trailing zero bits has bit `pos` clear.
proof fn lemma_shifted_bit_clear(head: nat, pos: nat)
    ensures
        !bit_at(head * pow2(pos + 1), pos),
{
    lemma_pow2_unfold(pos + 1);
    lemma_pow2_pos(pos);
    let unit = pow2(pos);
    assert(head * (2 * unit) == (2 * head) * unit) by (nonlinear_arith);
    lemma_div_by_multiple(2 * head as int, unit as int);
}

/// Appends one character to a string; this is `String::push`.
#[verifier::external_body]
fn push_char(text: &mut String, c: char)
    ensures
        final(text)@ == old(text)@.push(c),
{
    text.push(c)
}

/// Encodes `bytes` over `alphabet`.
///
/// An alphabet of fewer than two characters carries no bits, so it can
/// encode the empty input only.
pub fn encode_with_alphabet(bytes: &[u8], alphabet: &[char]) -> (text: String)
    requires
        alphabet@.len() >= 2 || bytes@.len() == 0,
    ensures
        text@ == encoded(bytes@, alphabet@),
{
    let bits: u32 = bits_per_char(alphabet.len());
    let mut text = String::new();
    if bits == 0 {
        assert(log2_floor(alphabet@.len()) > 0 || bytes@.len() == 0);
        assert(text@ =~= encoded(bytes@, alphabet@));
        return text;
    }
    let ghost stream = byte_stream(bytes@);
    let ghost width = bits as nat;
    let mut buffer: u64 = 0;
    let mut buffer_idx: u32 = 0;
    let ghost mut group_start: int = 0;
    proof {
        lemma_log2_floor_bounds(alphabet@.len());
        lemma_pow2_pos(width);
        assert(0 * pow2(width) == 0);
        assert(text@.len() * width == 0) by (nonlinear_arith)
            requires
                text@.len() == 0,
        ;
    }
    let mut n: usize = 0;
    while n < bytes.len()
        invariant
            n <= bytes@.len(),
            stream == byte_stream(bytes@),
            width == bits,
            1 <= bits < 64,
            pow2(width) <= alphabet@.len(),
            buffer_idx < bits,
            group_start == text@.len() * width,
            group_start + buffer_idx == 8 * n,
            buffer == window_value(stream, group_start, buffer_idx as nat) * pow2(
                (width - buffer_idx) as nat,
            ),
            forall|j: int|
                0 <= j < text@.len() ==> #[trigger] text@[j] == alphabet@[window_value(
                    stream,
                    j * width,
                    width,
                ) as int],
        decreases bytes@.len() - n,
    {
        let byte: u8 = bytes[n];
        let mut i: u32 = 8;
        while i > 0
            invariant
                n < bytes@.len(),
                byte == bytes@[n as int],
                stream == byte_stream(bytes@),
                width == bits,
                1 <= bits < 64,
                pow2(width) <= alphabet@.len(),
                i <= 8,
                buffer_idx < bits,
                group_start == text@.len() * width,
                group_start + buffer_idx == 8 * n + (8 - i),
                buffer == window_value(stream, group_start, buffer_idx as nat) * pow2(
                    (width - buffer_idx) as nat,
                ),
                forall|j: int|
                    0 <= j < text@.len() ==> #[trigger] text@[j] == alphabet@[window_value(
                        stream,
                        j * width,
                        width,
                    ) as int],
            decreases i,
        {
            i = i - 1;
            let bit_on = read_bit(byte as u64, i);
            let ghost k: int = 8 * n + (7 - i);
            let ghost head = window_value(stream, group_start, buffer_idx as nat);
            let ghost pos = (width - 1 - buffer_idx) as nat;
            proof {
                assert(k / 8 == n as int && k % 8 == 7 - i);
                assert(bit_on == stream_bit(stream, k));
                lemma_shifted_bit_clear(head, pos);
                lemma_pow2_unfold(pos + 1);
                lemma_pow2_pos(pos);
                lemma_pow2_strictly_increases_or_same(pos, 63);
            }
            buffer = write_bit(buffer, bits - 1 - buffer_idx, bit_on);
            buffer_idx = buffer_idx + 1;
            proof {
                let unit = pow2(pos);
                let low = bit_value(bit_on);
                assert(window_value(stream, group_start, buffer_idx as nat) == 2 * head + low);
                assert(head * (2 * unit) + low * unit == (2 * head + low) * unit)
                    by (nonlinear_arith);
                assert(low * unit == bit_weight(pos, bit_on)) by {
                    assert(1 * unit == unit);
                    assert(0 * unit == 0);
                }
            }
            if buffer_idx == bits {
                proof {
                    assert(pow2(0) == 1) by {
                        vstd::arithmetic::power2::lemma2_to64();
                    }
                    assert(window_value(stream, group_start, width) * 1 == window_value(
                        stream,
                        group_start,
                        width,
                    ));
                    lemma_window_bound(stream, group_start, width);
                    assert((text@.len() + 1) * width == text@.len() * width + width)
                        by (nonlinear_arith);
                }
                push_char(&mut text, alphabet[buffer as usize]);
                buffer = 0;
                buffer_idx = 0;
                proof {
                    group_start = group_start + width;
                    lemma_pow2_pos(width);
                    assert(0 * pow2(width) == 0);
                }
            }
        }
        n = n + 1;
    }
    proof {
        lemma_window_padding(stream, group_start, buffer_idx as nat, width);
        lemma_window_bound(stream, group_start, width);
        vstd::arithmetic::div_mod::lemma_fundamental_div_mod_converse(
            8 * bytes@.len() as int,
            width as int,
            text@.len() as int,
            buffer_idx as int,
        );
    }
    push_char(&mut text, alphabet[buffer as usize]);
    assert(text@ =~= encoded(bytes@, alphabet@));
    text
}

/// Finds the first place at which `alphabet` holds `c`.
fn find_position(alphabet: &[char], c: char) -> (found: Option<usize>)
    ensures
        match found {
            Some(index) => is_position(alphabet@, c, index as int) && position(alphabet@, c)
                == index,
            None => !alphabet@.contains(c),
        },
{
    let mut index: usize = 0;
    while index < alphabet.len()
        invariant
            index <= alphabet@.len(),
            forall|earlier: int| 0 <= earlier < index ==> alphabet@[earlier] != c,
        decreases alphabet@.len() - index,
    {
        if alphabet[index] == c {
            proof {
                lemma_position_unique(alphabet@, c, index as int);
            }
            return Some(index);
        }
        index = index + 1;
    }
    None
}

/// A character has at most one first place.
pub proof fn lemma_position_unique(alphabet: Seq<char>, c: char, index: int)
    requires
        is_position(alphabet, c, index),
    ensures
        position(alphabet, c) == index,
{
    let chosen = position(alphabet, c);
    assert(is_position(alphabet, c, chosen));
    if chosen < index {
        assert(alphabet[chosen] != c);
    }
    if index < chosen {
        assert(alphabet[index] != c);
    }
}

/// Decodes `input` over `alphabet`.
///
/// Fails exactly when `input` holds a character that is not in `alphabet`.
pub fn decode_with_alphabet(input: &str, alphabet: &[char]) -> (result: Result<
    Vec<u8>,
    DecodeError,
>)
    ensures
        match result {
            Ok(bytes) => in_alphabet(input@, alphabet@) && bytes@ == decoded(input@, alphabet@),
            Err(error) => !in_alphabet(input@, alphabet@) && error == DecodeError::InvalidInput,
        },
{
    let bits: u32 = bits_per_char(alphabet.len());
    let mut result: Vec<u8> = Vec::new();
    let mut buffer: u64 = 0;
    let mut bits_read: u32 = 0;
    let ghost width = bits as nat;
    let ghost stream = symbol_stream(input@, alphabet@, width);
    let ghost mut byte_start: int = 0;
    proof {
        vstd::arithmetic::power2::lemma2_to64();
        assert(0 * pow2(8) == 0);
        assert(0 * width == 0);
    }
    let mut chars = input.chars();
    for character in iter: chars
        invariant
            iter.seq() == input@,
            width == bits,
            bits < 64,
            width == log2_floor(alphabet@.len()),
            stream == symbol_stream(input@, alphabet@, width),
            forall|j: int| 0 <= j < iter.index() ==> alphabet@.contains(#[trigger] input@[j]),
            bits_read < 8,
            byte_start == 8 * result@.len(),
            byte_start + bits_read == iter.index() * width,
            buffer == window_value(stream, byte_start, bits_read as nat) * pow2(
                (8 - bits_read) as nat,
            ),
            forall|m: int|
                0 <= m < result@.len() ==> #[trigger] result@[m] == window_value(
                    stream,
                    8 * m,
                    8,
                ) as u8,
    {
        let ghost j = iter.index();
        let pos: usize = match find_position(alphabet, character) {
            Some(pos) => pos,
            None => {
                assert(!alphabet@.contains(input@[j]));
                return Err(DecodeError::InvalidInput);
            },
        };
        proof {
            assert(alphabet@.contains(input@[j]));
            assert((j + 1) * width == j * width + width) by (nonlinear_arith);
            assert((j + 1) * width <= input@.len() * width) by (nonlinear_arith)
                requires
                    j + 1 <= input@.len(),
            ;
        }
        let mut i: u32 = bits;
        while i > 0
            invariant
                0 <= j < input@.len(),
                (j + 1) * width == j * width + width,
                (j + 1) * width <= input@.len() * width,
                pos == position(alphabet@, input@[j]),
                width == bits,
                bits < 64,
                i <= bits,
                stream == symbol_stream(input@, alphabet@, width),
                bits_read < 8,
                byte_start == 8 * result@.len(),
                byte_start + bits_read == j * width + (width - i),
                buffer == window_value(stream, byte_start, bits_read as nat) * pow2(
                    (8 - bits_read) as nat,
                ),
                forall|m: int|
                    0 <= m < result@.len() ==> #[trigger] result@[m] == window_value(
                        stream,
                        8 * m,
                        8,
                    ) as u8,
            decreases i,
        {
            i = i - 1;
            let bit_on = read_bit(pos as u64, i);
            let ghost k: int = j * width + (width - 1 - i);
            let ghost head = window_value(stream, byte_start, bits_read as nat);
            let ghost place = (7 - bits_read) as nat;
            proof {
                vstd::arithmetic::div_mod::lemma_fundamental_div_mod_converse(
                    k,
                    width as int,
                    j,
                    width - 1 - i,
                );
                assert(bit_on == stream_bit(stream, k));
                lemma_shifted_bit_clear(head, place);
                lemma_pow2_unfold(place + 1);
                lemma_pow2_pos(place);
            }
            buffer = write_bit(buffer, 7 - bits_read, bit_on);
            bits_read = bits_read + 1;
            proof {
                let unit = pow2(place);
                let low = bit_value(bit_on);
                assert(window_value(stream, byte_start, bits_read as nat) == 2 * head + low);
                assert(head * (2 * unit) + low * unit == (2 * head + low) * unit)
                    by (nonlinear_arith);
                assert(low * unit == bit_weight(place, bit_on)) by {
                    assert(1 * unit == unit);
                    assert(0 * unit == 0);
                }
            }
            if bits_read == 8 {
                proof {
                    vstd::arithmetic::power2::lemma2_to64();
                    assert(window_value(stream, byte_start, 8) * 1 == window_value(
                        stream,
                        byte_start,
                        8,
                    ));
                    lemma_window_bound(stream, byte_start, 8);
                }
                result.push(buffer as u8);
                buffer = 0;
                bits_read = 0;
                proof {
                    byte_start = byte_start + 8;
                    assert(0 * pow2(8) == 0);
                }
            }
        }
    }
    proof {
        assert(in_alphabet(input@, alphabet@));
        assert(result@ =~= decoded(input@, alphabet@));
    }
    Ok(result)
}

/// The characters that an encoder can emit, the first `2^bits` of the
/// alphabet, are pairwise different.
pub open spec fn distinct_symbols(alphabet: Seq<char>) -> bool {
    forall|i: int, j: int|
        0 <= i < j < pow2(log2_floor(alphabet.len())) && j < alphabet.len() ==> alphabet[i]
            != alphabet[j]
}

/// The last character of the encoding carries fewer than eight bits of
/// padding, so that the padding never makes up a byte of its own.
pub open spec fn padding_below_byte(byte_count: nat, bits: nat) -> bool {
    bits >= 1 && bits - (8 * byte_count) % bits < 8
}

/// Each character of an encoding is found again at the place it was taken
/// from.
proof fn lemma_encoded_positions(bytes: Seq<u8>, alphabet: Seq<char>, j: int)
    requires
        alphabet.len() >= 2,
        distinct_symbols(alphabet),
        0 <= j < encoded(bytes, alphabet).len(),
    ensures
        is_position(
            alphabet,
            encoded(bytes, alphabet)[j],
            window_value(
                byte_stream(bytes),
                j * log2_floor(alphabet.len()),
                log2_floor(alphabet.len()),
            ) as int,
        ),
        position(alphabet, encoded(bytes, alphabet)[j]) == window_value(
            byte_stream(bytes),
            j * log2_floor(alphabet.len()),
            log2_floor(alphabet.len()),
        ),
{
    let bits = log2_floor(alphabet.len());
    let value = window_value(byte_stream(bytes), j * bits, bits);
    lemma_window_bound(byte_stream(bytes), j * bits, bits);
    lemma_log2_floor_bounds(alphabet.len());
    assert(is_position(alphabet, encoded(bytes, alphabet)[j], value as int));
    lemma_position_unique(alphabet, encoded(bytes, alphabet)[j], value as int);
}

/// The symbol stream of an encoding is the byte stream it was made from.
proof fn lemma_encoded_stream(bytes: Seq<u8>, alphabet: Seq<char>, k: int)
    requires
        alphabet.len() >= 2,
        distinct_symbols(alphabet),
    ensures
        stream_bit(
            symbol_stream(encoded(bytes, alphabet), alphabet, log2_floor(alphabet.len())),
            k,
        ) == stream_bit(byte_stream(bytes), k),
{
    let bits = log2_floor(alphabet.len());
    let text = encoded(bytes, alphabet);
    let symbols = symbol_stream(text, alphabet, bits);
    let count = text.len();
    assert(bits >= 1);
    vstd::arithmetic::div_mod::lemma_fundamental_div_mod(8 * bytes.len() as int, bits as int);
    vstd::arithmetic::div_mod::lemma_mod_bound(8 * bytes.len() as int, bits as int);
    assert(count * bits == bits * ((8 * bytes.len()) / bits) + bits) by (nonlinear_arith)
        requires
            count == (8 * bytes.len()) / bits + 1,
    ;
    assert(count * bits > 8 * bytes.len());
    if 0 <= k < count * bits {
        let j = k / bits as int;
        let offset = k % bits as int;
        vstd::arithmetic::div_mod::lemma_fundamental_div_mod(k, bits as int);
        vstd::arithmetic::div_mod::lemma_mod_bound(k, bits as int);
        assert(0 <= j < count) by (nonlinear_arith)
            requires
                0 <= k < count * bits,
                k == bits * j + offset,
                0 <= offset < bits,
        ;
        lemma_encoded_positions(bytes, alphabet, j);
        lemma_window_bit(byte_stream(bytes), j * bits, bits, offset as nat);
        assert(j * bits == bits * j) by (nonlinear_arith);
    }
}

/// Decoding an encoding gives the bytes back, whenever the alphabet's
/// symbols are distinct and the padding stays below one byte.
pub proof fn lemma_round_trip_with_alphabet(bytes: Seq<u8>, alphabet: Seq<char>)
    requires
        alphabet.len() >= 2,
        distinct_symbols(alphabet),
        padding_below_byte(bytes.len(), log2_floor(alphabet.len())),
    ensures
        in_alphabet(encoded(bytes, alphabet), alphabet),
        decoded(encoded(bytes, alphabet), alphabet) == bytes,
{
    let bits = log2_floor(alphabet.len());
    let text = encoded(bytes, alphabet);
    let symbols = symbol_stream(text, alphabet, bits);
    let source = byte_stream(bytes);
    let count = text.len();
    assert forall|j: int| 0 <= j < text.len() implies alphabet.contains(#[trigger] text[j]) by {
        lemma_encoded_positions(bytes, alphabet, j);
    }
    vstd::arithmetic::div_mod::lemma_fundamental_div_mod(8 * bytes.len() as int, bits as int);
    vstd::arithmetic::div_mod::lemma_mod_bound(8 * bytes.len() as int, bits as int);
    assert(count * bits == bits * ((8 * bytes.len()) / bits) + bits) by (nonlinear_arith)
        requires
            count == (8 * bytes.len()) / bits + 1,
    ;
    let spare = count * bits - 8 * bytes.len();
    assert(0 < spare < 8);
    vstd::arithmetic::div_mod::lemma_fundamental_div_mod_converse(
        count * bits as int,
        8,
        bytes.len() as int,
        spare,
    );
    assert(decoded(text, alphabet).len() == bytes.len());
    assert forall|m: int| 0 <= m < bytes.len() implies decoded(text, alphabet)[m] == bytes[m] by {
        assert forall|k: int| 8 * m <= k < 8 * m + 8 implies #[trigger] stream_bit(symbols, k)
            == stream_bit(source, k) by {
            lemma_encoded_stream(bytes, alphabet, k);
        }
        lemma_window_agree(symbols, source, 8 * m, 8);
        vstd::arithmetic::power2::lemma2_to64();
        assert forall|offset: nat| offset < 8 implies #[trigger] stream_bit(source, 8 * m + offset)
            == bit_at(bytes[m] as nat, (7 - offset) as nat) by {
            let k = 8 * m + offset;
            assert(k / 8 == m && k % 8 == offset);
        }
        lemma_window_of_number(source, 8 * m, 8, bytes[m] as nat);
    }
    assert(decoded(text, alphabet) =~= bytes);
}

/// The default alphabet carries five bits per character, and its first 32
/// characters are pairwise different.
pub proof fn lemma_default_alphabet()
    ensures
        ALPHABET@.len() == 57,
        log2_floor(ALPHABET@.len()) == 5,
        distinct_symbols(ALPHABET@),
{
    reveal_with_fuel(log2_floor, 7);
    vstd::arithmetic::power2::lemma2_to64();
}

/// Encodes `bytes` over the default alphabet.
pub fn encode(bytes: &[u8]) -> (text: String)
    ensures
        text@ == encoded(bytes@, ALPHABET@),
{
    encode_with_alphabet(bytes, &ALPHABET)
}

/// Decodes `input` over the default alphabet.
///
/// Fails exactly when `input` holds a character that is not in the alphabet.
pub fn decode(input: &str) -> (result: Result<Vec<u8>, DecodeError>)
    ensures
        match result {
            Ok(bytes) => in_alphabet(input@, ALPHABET@) && bytes@ == decoded(input@, ALPHABET@),
            Err(error) => !in_alphabet(input@, ALPHABET@) && error == DecodeError::InvalidInput,
        },
{
    decode_with_alphabet(input, &ALPHABET)
}

/// Over the default alphabet, decoding an encoding gives the bytes back,
/// whatever their number.
pub proof fn lemma_round_trip(bytes: Seq<u8>)
    ensures
        in_alphabet(encoded(bytes, ALPHABET@), ALPHABET@),
        decoded(encoded(bytes, ALPHABET@), ALPHABET@) == bytes,
{
    lemma_default_alphabet();
    vstd::arithmetic::div_mod::lemma_mod_bound(8 * bytes.len() as int, 5);
    lemma_round_trip_with_alphabet(bytes, ALPHABET@);
}

/// Powers of two do not decrease with the exponent.
proof fn lemma_pow2_strictly_increases_or_same(low: nat, high: nat)
    requires
        low <= high,
    ensures
        pow2(low) <= pow2(high),
{
    if low < high {
        vstd::arithmetic::power2::lemma_pow2_strictly_increases(low, high);
    }
}

} // verus!
