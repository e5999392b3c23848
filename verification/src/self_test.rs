//! The root server's start-up self tests of its bitfields and heap. Their
//! checks are proved here rather than run.
#![allow(non_snake_case)]

use vstd::prelude::*;
use crate::bitfield::{bit_at, word_bit, is_first_free, all_set, n_bits, bf_first_free, bf_set_bit, bf_clr_bit, bf_get_bit, lemma_first_free_unique};
use crate::cspace::{BOT_LVL_PER_NODE, CNODE_SIZE_BITS, CNODE_SLOTS, INITIAL_TASK_CNODE_SIZE_BITS};

verus! {

proof fn lemma_zero_word_bits(b: u64)
    requires
        b < 64,
    ensures
        !word_bit(0u64, b as int),
{
    assert((0u64 >> b) & 1u64 == 0u64) by (bit_vector);
}

/// No bit of a zeroed bitfield is set.
proof fn lemma_zero_bits(bf: Seq<u64>)
    requires
        forall|k: int| 0 <= k < bf.len() ==> bf[k] == 0u64,
    ensures
        forall|j: int| 0 <= j < n_bits(bf) ==> !#[trigger] bit_at(bf, j),
{
    assert forall|j: int| 0 <= j < n_bits(bf) implies !#[trigger] bit_at(bf, j) by {
        lemma_zero_word_bits((j % 64) as u64);
    }
}

/// Sets, reads and clears bit `bit` of an empty 128-bit bitfield, checking
/// the bit and the lowest free bit at each step.
pub fn test_bf_bit(bit: usize)
    requires
        bit < 128,
{
    let mut bf: Vec<u64> = vec![0u64, 0u64];
    proof {
        lemma_zero_bits(bf@);
        lemma_first_free_unique(bf@, 0);
    }
    let ff0 = bf_first_free(bf.as_slice());
    assert(ff0 == Ok::<usize, ()>(0));
    bf_set_bit(bf.as_mut_slice(), bit);
    let got = bf_get_bit(bf.as_mut_slice(), bit);
    assert(got);
    let ff: usize = if bit == 0 { 1 } else { 0 };
    proof {
        assert(is_first_free(bf@, ff as int));
        lemma_first_free_unique(bf@, ff as int);
    }
    let ff1 = bf_first_free(bf.as_slice());
    assert(ff1 == Ok::<usize, ()>(ff));
    bf_clr_bit(bf.as_mut_slice(), bit);
    let got2 = bf_get_bit(bf.as_mut_slice(), bit);
    assert(!got2);
}

/// The bitfield self test: each bit on its own, then every bit in turn, the
/// lowest free bit following, until none is free.
pub fn test_bf() {
    test_bf_bit(0);
    test_bf_bit(1);
    test_bf_bit(63);
    test_bf_bit(64);
    test_bf_bit(65);
    test_bf_bit(127);
    let mut bf: Vec<u64> = vec![0u64, 0u64];
    proof {
        lemma_zero_bits(bf@);
    }
    let mut i: usize = 0;
    while i < 128
        invariant
            i <= 128,
            bf@.len() == 2,
            forall|j: int| 0 <= j < 128 ==> #[trigger] bit_at(bf@, j) == (j < i),
        decreases 128 - i,
    {
        let before = bf_get_bit(bf.as_mut_slice(), i);
        assert(!before);
        bf_set_bit(bf.as_mut_slice(), i);
        let after = bf_get_bit(bf.as_mut_slice(), i);
        assert(after);
        if i < 127 {
            proof {
                assert(is_first_free(bf@, i + 1));
                lemma_first_free_unique(bf@, i + 1);
            }
            let ff = bf_first_free(bf.as_slice());
            assert(ff == Ok::<usize, ()>((i + 1) as usize));
        } else {
            proof {
                assert(all_set(bf@));
            }
            let ff = bf_first_free(bf.as_slice());
            assert(ff is Err);
        }
        i += 1;
    }
}

/// Slots the CSpace self test allocates: the slots of the root server's
/// CSpace less the reserve, or those its bottom-level nodes can track and
/// one more, whichever is fewer.
pub fn NSLOTS_MIN() -> (r: usize)
    ensures
        r == vstd::math::min(8192int * 256 - 4, 256int * 97 + 1),
{
    let a = CNODE_SLOTS(INITIAL_TASK_CNODE_SIZE_BITS);
    let b = CNODE_SLOTS(CNODE_SIZE_BITS);
    proof {
        vstd::arithmetic::power2::lemma2_to64();
    }
    assert(a == 8192 && b == 256);
    if a * b - 4 < b * BOT_LVL_PER_NODE + 1 {
        a * b - 4
    } else {
        b * BOT_LVL_PER_NODE + 1
    }
}

/// The heap self test: a value is boxed, and freed when it goes out of scope.
pub fn test_heap() {
    let t = Box::new(5u64);
    assert(*t == 5);
}

} // verus!
