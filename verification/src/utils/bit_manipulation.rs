//! Reading and writing single bits of a machine word.

use vstd::arithmetic::power2::pow2;
use vstd::bits::{lemma_u64_pow2_no_overflow, lemma_u64_shl_is_mul, lemma_u64_shr_is_div};
use vstd::prelude::*;

verus! {

/// Whether the bit of weight `2^pos` is set in the binary expansion of `val`.
pub open spec fn bit_at(val: nat, pos: nat) -> bool {
    (val / pow2(pos)) % 2 == 1
}

/// The weight that bit `pos` contributes to a number when it is `on`.
pub open spec fn bit_weight(pos: nat, on: bool) -> nat {
    if on {
        pow2(pos)
    } else {
        0
    }
}

/// What `write_bit` yields: `val` with the bit at `pos` replaced by `on`.
pub open spec fn with_bit(val: nat, pos: nat, on: bool) -> int {
    val - bit_weight(pos, bit_at(val, pos)) + bit_weight(pos, on)
}

/// `1 << pos` is the power of two `2^pos`.
proof fn lemma_one_shl(pos: u64)
    requires
        pos < 64,
    ensures
        1u64 << pos == pow2(pos as nat),
{
    lemma_u64_pow2_no_overflow(pos as nat);
    lemma_u64_shl_is_mul(1u64, pos);
}

/// Masking with `1 << pos` tests exactly the bit that `bit_at` speaks of.
proof fn lemma_mask_is_bit_at(val: u64, pos: u64)
    requires
        pos < 64,
    ensures
        (val & (1u64 << pos) != 0) == bit_at(val as nat, pos as nat),
{
    let shifted: u64 = val >> pos;
    assert((val & (1u64 << pos) != 0) == ((val >> pos) & 1 == 1)) by (bit_vector)
        requires
            pos < 64,
    ;
    assert(shifted & 1 == shifted % 2) by (bit_vector);
    lemma_u64_shr_is_div(val, pos);
}

/// Reads the bit at `bit_position` of `val`.
pub fn read_bit(val: u64, bit_position: u32) -> (on: bool)
    requires
        bit_position < 64,
    ensures
        on == bit_at(val as nat, bit_position as nat),
{
    proof {
        lemma_mask_is_bit_at(val, bit_position as u64);
    }
    (val & (1u64 << bit_position)) != 0
}

/// Returns `val` with the bit at `bit_position` set when `on` holds and
/// cleared otherwise; every other bit is kept.
pub fn write_bit(val: u64, bit_position: u32, on: bool) -> (res: u64)
    requires
        bit_position < 64,
    ensures
        res == with_bit(val as nat, bit_position as nat, on),
        bit_at(res as nat, bit_position as nat) == on,
        forall|k: nat|
            k < 64 && k != bit_position ==> bit_at(res as nat, k) == #[trigger] bit_at(
                val as nat,
                k,
            ),
{
    let mask: u64 = 1u64 << bit_position;
    let res: u64 = if on {
        val | mask
    } else {
        val & !mask
    };
    proof {
        let pos: u64 = bit_position as u64;
        lemma_one_shl(pos);
        lemma_mask_is_bit_at(val, pos);
        lemma_mask_is_bit_at(res, pos);
        assert(val & (1u64 << pos) == 0 ==> (val | (1u64 << pos)) == val + (1u64 << pos)
            && (val & !(1u64 << pos)) == val) by (bit_vector)
            requires
                pos < 64,
        ;
        assert(val & (1u64 << pos) != 0 ==> (val | (1u64 << pos)) == val && (val & !(1u64 << pos))
            == val - (1u64 << pos)) by (bit_vector)
            requires
                pos < 64,
        ;
        assert((val | (1u64 << pos)) & (1u64 << pos) != 0) by (bit_vector)
            requires
                pos < 64,
        ;
        assert((val & !(1u64 << pos)) & (1u64 << pos) == 0) by (bit_vector)
            requires
                pos < 64,
        ;
        assert forall|k: nat| k < 64 && k != bit_position implies bit_at(res as nat, k)
            == #[trigger] bit_at(val as nat, k) by {
            let other: u64 = k as u64;
            lemma_mask_is_bit_at(val, other);
            lemma_mask_is_bit_at(res, other);
            assert(((val | (1u64 << pos)) & (1u64 << other) != 0) == (val & (1u64 << other) != 0))
                by (bit_vector)
                requires
                    pos < 64,
                    other < 64,
                    other != pos,
            ;
            assert(((val & !(1u64 << pos)) & (1u64 << other) != 0) == (val & (1u64 << other)
                != 0)) by (bit_vector)
                requires
                    pos < 64,
                    other < 64,
                    other != pos,
            ;
        }
    }
    res
}

} // verus!
