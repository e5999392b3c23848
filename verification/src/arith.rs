//! Integer logarithm.
#![allow(non_snake_case)]

use vstd::prelude::*;
use vstd::arithmetic::power2::pow2;

verus! {

/// `r` is the base-2 logarithm of `n`, rounded down.
pub open spec fn is_log2(n: int, r: int) -> bool {
    &&& 0 <= r
    &&& pow2(r as nat) <= n < pow2((r + 1) as nat)
}

proof fn lemma_log2_from_leading_zeros(n: u64)
    requires
        n != 0,
    ensures
        0 <= vstd::std_specs::bits::u64_leading_zeros(n) < 64,
        is_log2(n as int, 63 - vstd::std_specs::bits::u64_leading_zeros(n)),
    decreases n,
{
    reveal(vstd::std_specs::bits::u64_leading_zeros);
    vstd::std_specs::bits::axiom_u64_leading_zeros(n);
    if n == 1 {
        assert(vstd::std_specs::bits::u64_leading_zeros(0) == 64);
        assert(vstd::std_specs::bits::u64_leading_zeros(1) == 63);
        vstd::arithmetic::power2::lemma2_to64();
    } else {
        let h: u64 = n / 2;
        lemma_log2_from_leading_zeros(h);
        let k: nat = (63 - vstd::std_specs::bits::u64_leading_zeros(h)) as nat;
        assert(vstd::std_specs::bits::u64_leading_zeros(n) == vstd::std_specs::bits::u64_leading_zeros(h) - 1);
        vstd::arithmetic::power2::lemma_pow2_unfold(k + 1);
        vstd::arithmetic::power2::lemma_pow2_unfold(k + 2);
    }
}

/// Base-2 logarithm of `n`, rounded down.
pub fn LOG_BASE_2(n: usize) -> (r: usize)
    requires
        n > 0,
    ensures
        is_log2(n as int, r as int),
{
    let lz = (n as u64).leading_zeros();
    proof {
        lemma_log2_from_leading_zeros(n as u64);
    }
    (63 - lz) as usize
}

/// The logarithm of a power of two is its exponent: converting a size in
/// bits to bytes and back gives the size in bits again.
pub proof fn law_log2_of_pow2(s: nat, r: int)
    requires
        is_log2(pow2(s) as int, r),
    ensures
        r == s,
{
    if r < s {
        if r + 1 < s {
            vstd::arithmetic::power2::lemma_pow2_strictly_increases((r + 1) as nat, s);
        }
    } else if r > s {
        vstd::arithmetic::power2::lemma_pow2_strictly_increases(s, r as nat);
    }
}

} // verus!
