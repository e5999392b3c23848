//! Page-size arithmetic.
#![allow(non_snake_case)]

use vstd::prelude::*;
use vstd::arithmetic::power2::pow2;
use crate::arith::{is_log2, LOG_BASE_2};

verus! {

/// Size bits of a 4K page.
pub const PAGE_BITS_4K: usize = 12;
/// Bytes in a 4K page.
pub const PAGE_SIZE_4K: usize = 4096;
/// Mask of the offset bits inside a 4K page.
pub const PAGE_MASK_4K: usize = 4095;

/// `a / d` rounded up.
pub open spec fn ceil_div(a: int, d: int) -> int {
    (a + d - 1) / d
}

/// `2 ^ n` as a machine word.
pub fn BIT(n: usize) -> (r: usize)
    requires
        n < usize::BITS,
    ensures
        r == pow2(n as nat),
{
    proof {
        vstd::bits::lemma_usize_pow2_no_overflow(n as nat);
        vstd::bits::lemma_usize_shl_is_mul(1, n);
    }
    1usize << n
}

/// Size bits of an object of `bytes` bytes: the base-2 logarithm, rounded down.
pub fn BYTES_TO_SIZE_BITS(bytes: usize) -> (r: usize)
    requires
        bytes > 0,
    ensures
        is_log2(bytes as int, r as int),
{
    LOG_BASE_2(bytes)
}

proof fn lemma_ceil_div(a: int, d: int)
    requires
        a >= 0,
        d > 0,
    ensures
        ceil_div(a, d) == a / d + (if a % d > 0 { 1int } else { 0int }),
{
    vstd::arithmetic::div_mod::lemma_fundamental_div_mod(a, d);
    let q = a / d;
    let m = a % d;
    if m > 0 {
        assert(a + d - 1 == (q + 1) * d + (m - 1)) by (nonlinear_arith)
            requires
                a == d * q + m,
        ;
        vstd::arithmetic::div_mod::lemma_fundamental_div_mod_converse_div(a + d - 1, d, q + 1, m - 1);
    } else {
        assert(a + d - 1 == q * d + (d - 1)) by (nonlinear_arith)
            requires
                a == d * q + m,
                m == 0,
        ;
        vstd::arithmetic::div_mod::lemma_fundamental_div_mod_converse_div(a + d - 1, d, q, d - 1);
    }
}

/// Number of `2 ^ size_bits`-byte pages needed to hold `b` bytes.
pub fn BYTES_TO_SIZE_BITS_PAGES(b: usize, size_bits: usize) -> (r: usize)
    requires
        size_bits < usize::BITS,
    ensures
        r == ceil_div(b as int, pow2(size_bits as nat) as int),
{
    let sz = BIT(size_bits);
    proof {
        vstd::arithmetic::power2::lemma_pow2_pos(size_bits as nat);
        lemma_ceil_div(b as int, sz as int);
        if sz >= 2 {
            vstd::arithmetic::div_mod::lemma_div_is_ordered_by_denominator(b as int, 2, sz as int);
        }
    }
    (b / sz) + if (b % sz) > 0 {
        1
    } else {
        0
    }
}

/// Number of 4K pages needed to hold `b` bytes.
pub fn BYTES_TO_4K_PAGES(b: usize) -> (r: usize)
    ensures
        r == ceil_div(b as int, 4096),
{
    proof {
        vstd::arithmetic::power2::lemma2_to64();
    }
    BYTES_TO_SIZE_BITS_PAGES(b, PAGE_BITS_4K)
}

/// Bytes in an object of `size_bits` size bits.
pub fn SIZE_BITS_TO_BYTES(size_bits: usize) -> (r: usize)
    requires
        size_bits < usize::BITS,
    ensures
        r == pow2(size_bits as nat),
{
    BIT(size_bits)
}

/// `addr` rounded down to a 4K boundary.
pub fn PAGE_ALIGN_4K(addr: usize) -> (r: usize)
    ensures
        r == addr - addr % 4096,
{
    assert((addr & !4095usize) as int == addr as int - (addr % 4096) as int) by (bit_vector);
    addr & !PAGE_MASK_4K
}

} // verus!
