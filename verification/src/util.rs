//! Alignment helpers and the decoding of the badge a root-server message
//! arrives with.
#![allow(non_snake_case)]

use vstd::prelude::*;
use vstd::arithmetic::power2::pow2;
use crate::page::BIT;

verus! {

/// `n` is a power of two that fits in a machine word.
pub open spec fn is_pow2(n: int) -> bool {
    exists|k: nat| k < usize::BITS && pow2(k) == n
}

proof fn lemma_and_not_mask(x: usize, k: nat)
    requires
        k < usize::BITS,
    ensures
        (x & !((pow2(k) - 1) as usize)) as int == x as int - (x as int % pow2(k) as int),
{
    vstd::bits::lemma_usize_pow2_no_overflow(k);
    vstd::bits::lemma_usize_low_bits_mask_is_mod(x, k);
    let m: usize = (pow2(k) - 1) as usize;
    assert((x & m) == x % (pow2(k) as usize));
    assert((x & !m) as int == x as int - (x & m) as int) by (bit_vector);
}

/// `x` rounded down to a multiple of `n`, by masking off the bits of `n - 1`.
pub fn ALIGN_DOWN(x: usize, n: usize) -> (r: usize)
    requires
        n >= 1,
    ensures
        r == x & !((n - 1) as usize),
        is_pow2(n as int) ==> r == x - x % n,
{
    proof {
        if is_pow2(n as int) {
            let k = choose|k: nat| k < usize::BITS && pow2(k) == n;
            lemma_and_not_mask(x, k);
        }
    }
    return x & !(n - 1);
}

/// `x` rounded up to a multiple of `n`, by masking off the bits of `n - 1`.
pub fn ALIGN_UP(x: usize, n: usize) -> (r: usize)
    requires
        n >= 1,
        x + n - 1 <= usize::MAX,
    ensures
        r == ((x + n - 1) as usize) & !((n - 1) as usize),
        is_pow2(n as int) ==> r % n == 0 && x <= r && r < x + n,
{
    let y = x + (n - 1);
    proof {
        if is_pow2(n as int) {
            let k = choose|k: nat| k < usize::BITS && pow2(k) == n;
            lemma_and_not_mask(y, k);
            vstd::arithmetic::div_mod::lemma_fundamental_div_mod(y as int, n as int);
            vstd::arithmetic::div_mod::lemma_mod_multiples_basic(y as int / n as int, n as int);
            assert((y as int / n as int) * n as int == y as int - y as int % n as int) by (nonlinear_arith)
                requires
                    y as int == n as int * (y as int / n as int) + y as int % n as int,
            ;
        }
    }
    y & !(n - 1)
}

/// A mask of the `n` low bits.
pub fn MASK(n: usize) -> (r: usize)
    requires
        n < usize::BITS,
    ensures
        r == pow2(n as nat) - 1,
{
    proof {
        vstd::arithmetic::power2::lemma_pow2_pos(n as nat);
    }
    BIT(n) - 1
}

/// Top badge bit: set on notifications (IRQs), clear on endpoint messages.
pub const IRQ_EP_BIT: u64 = 0x8000_0000_0000_0000;
/// Badge bits that tell notifications apart.
pub const IRQ_IDENT_BADGE_BITS: u64 = 0x7fff_ffff_ffff_ffff;

/// Value of bits 1..3 of an endpoint badge for a root-server invocation.
pub const INVOCATION_VALUE: u64 = 0x0;
/// Value of bits 1..3 of an endpoint badge for a fault.
pub const FAULT_VALUE: u64 = 0x1;
/// Value of bits 1..3 of an endpoint badge for a boot file server invocation.
pub const BFS_VALUE: u64 = 0x2;

/// Badge bits marking a root-server invocation.
pub const INVOCATION_EP_BITS: u64 = 0x0;
/// Badge bits marking a fault.
pub const FAULT_EP_BITS: u64 = 0x2;
/// Badge bits marking a boot file server invocation.
pub const BFS_EP_BITS: u64 = 0x4;

/// What woke the root server, as told by the badge.
#[derive(PartialEq, Eq, Structural, Debug, Clone, Copy)]
pub enum EntryType {
    RSInvocation(u64),
    BFSInvocation(u64),
    Fault(u64),
    Irq,
}

/// The kind field (bits 1..3) of an endpoint badge.
pub open spec fn badge_kind(badge: u64) -> u64 {
    (badge >> 1u64) & 3u64
}

/// The process id carried by an endpoint badge: the badge without its low three bits.
pub open spec fn badge_pid(badge: u64) -> u64 {
    badge & !7u64
}

/// What a badge decodes to.
pub open spec fn spec_entry_type(badge: u64) -> EntryType {
    if badge & IRQ_EP_BIT != 0 {
        EntryType::Irq
    } else if badge_kind(badge) == INVOCATION_VALUE {
        EntryType::RSInvocation(badge_pid(badge))
    } else if badge_kind(badge) == FAULT_VALUE {
        EntryType::Fault(badge_pid(badge))
    } else {
        EntryType::BFSInvocation(badge_pid(badge))
    }
}

/// Decodes the badge of an incoming message. A badge with the top bit clear
/// and kind 3 is never minted.
pub fn decode_entry_type(badge: u64) -> (r: EntryType)
    requires
        badge & IRQ_EP_BIT != 0 || badge_kind(badge) != 3,
    ensures
        r == spec_entry_type(badge),
{
    if badge & IRQ_EP_BIT != 0 {
        return EntryType::Irq;
    }
    let pid = badge & !0x7u64;
    let kind = (badge >> 0x1u64) & 0x3u64;
    if kind == INVOCATION_VALUE {
        EntryType::RSInvocation(pid)
    } else if kind == FAULT_VALUE {
        EntryType::Fault(pid)
    } else {
        EntryType::BFSInvocation(pid)
    }
}

} // verus!
