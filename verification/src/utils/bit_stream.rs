//! Numbers read off a stream of bits, most significant bit first.
//!
//! A stream is a finite sequence of bits; past its end every bit reads as
//! clear. `window_value` is the number whose binary digits are the `width`
//! bits of the stream from `start` on. Both the encoder (bytes to symbols) and
//! the decoder (symbols to bytes) are re-windowings of one stream, so the
//! lemmas here carry their proofs.

use super::bit_manipulation::bit_at;
use vstd::arithmetic::div_mod::{lemma_div_denominator, lemma_fundamental_div_mod};
use vstd::arithmetic::power2::{lemma_pow2_pos, lemma_pow2_unfold, pow2};
use vstd::prelude::*;

verus! {

/// The value of one bit as a number.
pub open spec fn bit_value(on: bool) -> nat {
    if on {
        1
    } else {
        0
    }
}

/// The bit of `stream` at index `k`; clear outside the stream.
pub open spec fn stream_bit(stream: Seq<bool>, k: int) -> bool {
    0 <= k < stream.len() && stream[k]
}

/// The number written by the bits `start .. start + width` of `stream`, the
/// first of them being the most significant.
pub open spec fn window_value(stream: Seq<bool>, start: int, width: nat) -> nat
    decreases width,
{
    if width == 0 {
        0
    } else {
        2 * window_value(stream, start, (width - 1) as nat) + bit_value(
            stream_bit(stream, start + width - 1),
        )
    }
}

/// Doubling a number and adding a bit shifts every binary digit up by one and
/// puts the bit in the lowest place.
pub proof fn lemma_bit_at_double(val: nat, low: bool, pos: nat)
    ensures
        bit_at(2 * val + bit_value(low), 0) == low,
        bit_at(2 * val + bit_value(low), pos + 1) == bit_at(val, pos),
{
    let whole = 2 * val + bit_value(low);
    assert(pow2(0) == 1) by {
        lemma_pow2_unfold(1);
        lemma_pow2_pos(0);
        vstd::arithmetic::power2::lemma2_to64();
    }
    assert(whole / 1 == whole);
    lemma_pow2_unfold(pos + 1);
    lemma_pow2_pos(pos);
    assert(pow2(pos + 1) == 2 * pow2(pos));
    lemma_div_denominator(whole as int, 2, pow2(pos) as int);
    assert(whole / 2 == val);
}

/// A window of `width` bits holds a number below `2^width`.
pub proof fn lemma_window_bound(stream: Seq<bool>, start: int, width: nat)
    ensures
        window_value(stream, start, width) < pow2(width),
    decreases width,
{
    if width == 0 {
        lemma_pow2_pos(0);
    } else {
        lemma_window_bound(stream, start, (width - 1) as nat);
        lemma_pow2_unfold(width);
    }
}

/// The binary digits of a window's value are the bits of the stream: the bit
/// at offset `offset` of the window has weight `2^(width - 1 - offset)`.
pub proof fn lemma_window_bit(stream: Seq<bool>, start: int, width: nat, offset: nat)
    requires
        offset < width,
    ensures
        bit_at(window_value(stream, start, width), (width - 1 - offset) as nat) == stream_bit(
            stream,
            start + offset,
        ),
    decreases width,
{
    let shorter = window_value(stream, start, (width - 1) as nat);
    let last = stream_bit(stream, start + width - 1);
    if offset == width - 1 {
        lemma_bit_at_double(shorter, last, 0);
    } else {
        lemma_window_bit(stream, start, (width - 1) as nat, offset);
        lemma_bit_at_double(shorter, last, (width - 2 - offset) as nat);
    }
}

/// Two streams that agree on a window give it the same value.
pub proof fn lemma_window_agree(
    left: Seq<bool>,
    right: Seq<bool>,
    start: int,
    width: nat,
)
    requires
        forall|k: int|
            start <= k < start + width ==> #[trigger] stream_bit(left, k) == stream_bit(right, k),
    ensures
        window_value(left, start, width) == window_value(right, start, width),
    decreases width,
{
    if width > 0 {
        lemma_window_agree(left, right, start, (width - 1) as nat);
    }
}

/// A window whose bits spell out the binary digits of `val` has the value
/// `val`.
pub proof fn lemma_window_of_number(stream: Seq<bool>, start: int, width: nat, val: nat)
    requires
        val < pow2(width),
        forall|offset: nat|
            offset < width ==> #[trigger] stream_bit(stream, start + offset) == bit_at(
                val,
                (width - 1 - offset) as nat,
            ),
    ensures
        window_value(stream, start, width) == val,
    decreases width,
{
    if width == 0 {
        lemma_pow2_pos(0);
        assert(pow2(0) == 1) by {
            vstd::arithmetic::power2::lemma2_to64();
        }
    } else {
        let half = val / 2;
        let low = val % 2 == 1;
        lemma_fundamental_div_mod(val as int, 2);
        assert(val == 2 * half + bit_value(low));
        lemma_pow2_unfold(width);
        assert(half < pow2((width - 1) as nat));
        assert forall|offset: nat| offset < width - 1 implies #[trigger] stream_bit(
            stream,
            start + offset,
        ) == bit_at(half, (width - 2 - offset) as nat) by {
            lemma_bit_at_double(half, low, (width - 2 - offset) as nat);
            assert(stream_bit(stream, start + offset) == bit_at(val, (width - 1 - offset) as nat));
        }
        lemma_window_of_number(stream, start, (width - 1) as nat, half);
        lemma_bit_at_double(half, low, 0);
        assert(stream_bit(stream, start + (width - 1) as nat) == bit_at(val, 0));
    }
}

/// Bits that are all clear at the end of a window only shift the value of the
/// bits before them.
pub proof fn lemma_window_padding(stream: Seq<bool>, start: int, used: nat, width: nat)
    requires
        used <= width,
        forall|k: int| start + used <= k < start + width ==> !#[trigger] stream_bit(stream, k),
    ensures
        window_value(stream, start, width) == window_value(stream, start, used) * pow2(
            (width - used) as nat,
        ),
    decreases width,
{
    let head = window_value(stream, start, used);
    if used == width {
        assert(pow2(0) == 1) by {
            vstd::arithmetic::power2::lemma2_to64();
        }
        assert(head * 1 == head);
    } else {
        lemma_window_padding(stream, start, used, (width - 1) as nat);
        lemma_pow2_unfold((width - used) as nat);
        assert(!stream_bit(stream, start + width - 1));
        let rest = pow2((width - 1 - used) as nat);
        assert(window_value(stream, start, (width - 1) as nat) == head * rest);
        assert(window_value(stream, start, width) == 2 * (head * rest));
        assert(pow2((width - used) as nat) == 2 * rest);
        assert(2 * (head * rest) == head * (2 * rest)) by (nonlinear_arith);
    }
}

} // verus!
