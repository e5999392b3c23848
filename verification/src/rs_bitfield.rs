//! The root server's own bitfield helpers. They share the word layout of
//! [`crate::bitfield`]; the search reports a full bitfield as its bit count.
#![allow(non_snake_case)]

use vstd::prelude::*;
use crate::bitfield::{all_set, bit_at, clr_bit_spec, first_free, is_first_free, n_bits, set_bit_spec};

verus! {

/// Number of words of a bitfield of `x` bits (the kernel word is 64 bits).
pub fn BITFIELD_SIZE(x: usize) -> (r: usize)
    ensures
        r == x / 64,
{
    crate::bitfield::BITFIELD_SIZE(x)
}

/// Index of the word that holds bit `bit`.
pub fn WORD_INDEX(bit: usize) -> (r: usize)
    ensures
        r == bit / 64,
{
    crate::bitfield::WORD_INDEX(bit)
}

/// Position of bit `bit` inside its word.
pub fn BIT_INDEX(bit: usize) -> (r: usize)
    ensures
        r == bit % 64,
{
    crate::bitfield::BIT_INDEX(bit)
}

/// Sets bit `idx` of `bf`.
pub fn bf_set_bit(bf: &mut [u64], idx: usize)
    requires
        idx / 64 < old(bf)@.len(),
    ensures
        final(bf)@ == set_bit_spec(old(bf)@, idx as int),
        forall|j: int|
            0 <= j < n_bits(old(bf)@) ==> #[trigger] bit_at(final(bf)@, j) == (j == idx as int
                || bit_at(old(bf)@, j)),
{
    crate::bitfield::bf_set_bit(bf, idx)
}

/// Clears bit `idx` of `bf`.
pub fn bf_clr_bit(bf: &mut [u64], idx: usize)
    requires
        idx / 64 < old(bf)@.len(),
    ensures
        final(bf)@ == clr_bit_spec(old(bf)@, idx as int),
        forall|j: int|
            0 <= j < n_bits(old(bf)@) ==> #[trigger] bit_at(final(bf)@, j) == (j != idx as int
                && bit_at(old(bf)@, j)),
{
    crate::bitfield::bf_clr_bit(bf, idx)
}

/// Lowest clear bit of `bf`, or the number of bits in `bf` when all are set.
pub fn bf_first_free(bf: &[u64]) -> (r: usize)
    requires
        bf@.len() * 64 <= usize::MAX,
    ensures
        r < n_bits(bf@) ==> is_first_free(bf@, r as int),
        r >= n_bits(bf@) <==> all_set(bf@),
        r <= n_bits(bf@),
        r == first_free(bf@),
{
    match crate::bitfield::bf_first_free(bf) {
        Ok(b) => b,
        Err(_) => bf.len() * 64,
    }
}

} // verus!
