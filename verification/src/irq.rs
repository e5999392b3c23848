//! Interrupt and notification dispatch by badge bit.
//!
//! A dispatcher owns the identifier bits of a notification's badge: each
//! registered interrupt or badged notification takes one free bit, and its
//! badge is the dispatcher's flag bits with that bit set. Minting badged
//! capabilities and binding interrupt handlers are kernel work done by the
//! caller; the dispatcher records the capabilities it is handed.

use vstd::prelude::*;
use vstd::arithmetic::power2::pow2;
use crate::bitfield::{first_free, is_first_free, all_set, set_bit_spec, clr_bit_spec, bf_first_free, bf_set_bit, bf_clr_bit};
use crate::error::Sel4Error;
use crate::ut::UTWrapper;

verus! {

/// Identifier bits of a badge: one per bit of a machine word.
pub const IDENT_BITS: usize = 64;

/// An interrupt a server registered, and the badge bit it arrives with.
#[derive(Clone, Copy, Debug)]
pub struct IRQRegistration {
    irq_number: usize,
    badge_bit: u8,
}

impl IRQRegistration {
    pub closed spec fn spec_irq_number(&self) -> usize {
        self.irq_number
    }

    pub closed spec fn spec_badge_bit(&self) -> u8 {
        self.badge_bit
    }

    pub fn new(irq_num: usize, badge_bit: u8) -> (r: Self)
        ensures
            r.spec_irq_number() == irq_num,
            r.spec_badge_bit() == badge_bit,
    {
        IRQRegistration { irq_number: irq_num, badge_bit: badge_bit }
    }
}

/// An interrupt handler the root server registered for itself.
#[derive(Clone, Copy, Debug)]
pub struct IRQHandlerInfo {
    pub irq: usize,
    pub irq_handler: u64,
    pub ntfn: u64,
}

/// Bit `b` of `x` is set.
pub open spec fn bit_is_set(x: u64, b: int) -> bool {
    (x >> (b as u64)) & 1 == 1
}

/// The bits set in `x` below `n`, lowest first.
pub open spec fn set_bits(x: u64, n: nat) -> Seq<int>
    decreases n,
{
    if n == 0 {
        Seq::empty()
    } else if bit_is_set(x, n - 1) {
        set_bits(x, (n - 1) as nat).push(n - 1)
    } else {
        set_bits(x, (n - 1) as nat)
    }
}

/// The initial allocation bitfield: every bit outside `ident_bits` is taken.
pub open spec fn initial_bits(ident_bits: usize) -> Seq<u64> {
    seq![(!ident_bits) as u64]
}

/// The badge of identifier bit `bit`: the flag bits with that bit set.
pub open spec fn badge_of(flag_bits: usize, bit: int) -> int {
    (flag_bits | (pow2(bit as nat) as usize)) as int
}

/// Takes the lowest free bit of `bf`, one word long.
fn alloc_bit(bf: &mut Vec<u64>) -> (r: Result<usize, Sel4Error>)
    requires
        old(bf)@.len() == 1,
    ensures
        final(bf)@.len() == 1,
        r is Err <==> all_set(old(bf)@),
        r is Err ==> r == Err::<usize, Sel4Error>(Sel4Error::NotEnoughMemory) && final(bf)@ == old(bf)@,
        r matches Ok(b) ==> b == first_free(old(bf)@) && is_first_free(old(bf)@, b as int) && b < 64
            && final(bf)@ == set_bit_spec(old(bf)@, b as int),
{
    match bf_first_free(bf.as_slice()) {
        Err(_) => Err(Sel4Error::NotEnoughMemory),
        Ok(b) => {
            bf_set_bit(bf.as_mut_slice(), b);
            Ok(b)
        },
    }
}

/// The badge of identifier bit `bit`.
fn badge_for(flag_bits: usize, bit: usize) -> (r: usize)
    requires
        bit < 64,
        bit < usize::BITS,
    ensures
        r == badge_of(flag_bits, bit as int),
{
    let b = crate::page::BIT(bit);
    flag_bits | b
}

/// The root server's own interrupt dispatcher.
pub struct IRQDispatch {
    irq_control: u64,
    ntfn: u64,
    flag_bits: usize,
    ident_bits: usize,
    allocated_bits: Vec<u64>,
    irq_handlers: Vec<Option<IRQHandlerInfo>>,
}

impl IRQDispatch {
    pub closed spec fn wf(&self) -> bool {
        &&& self.allocated_bits@.len() == 1
        &&& self.irq_handlers@.len() == IDENT_BITS
    }

    /// The allocation bitfield.
    pub closed spec fn bits(&self) -> Seq<u64> {
        self.allocated_bits@
    }

    /// The handler registered on each identifier bit.
    pub closed spec fn handlers(&self) -> Seq<Option<IRQHandlerInfo>> {
        self.irq_handlers@
    }

    pub closed spec fn spec_flag_bits(&self) -> usize {
        self.flag_bits
    }

    pub closed spec fn spec_ident_bits(&self) -> usize {
        self.ident_bits
    }

    /// The IRQ control capability handlers are obtained from.
    pub closed spec fn spec_irq_control(&self) -> u64 {
        self.irq_control
    }

    /// The IRQ control capability handlers are obtained from.
    pub fn irq_control(&self) -> (r: u64)
        ensures
            r == self.spec_irq_control(),
    {
        self.irq_control
    }

    /// A dispatcher whose identifier bits are `ident_bits`, none taken, with
    /// no handler registered.
    pub fn new(irq_control: u64, ntfn: u64, flag_bits: usize, ident_bits: usize) -> (r: Self)
        ensures
            r.wf(),
            r.bits() == initial_bits(ident_bits),
            forall|i: int| 0 <= i < IDENT_BITS ==> #[trigger] r.handlers()[i] is None,
            r.spec_flag_bits() == flag_bits,
            r.spec_ident_bits() == ident_bits,
            r.spec_irq_control() == irq_control,
    {
        let mut handlers: Vec<Option<IRQHandlerInfo>> = Vec::new();
        let mut i: usize = 0;
        while i < IDENT_BITS
            invariant
                i <= IDENT_BITS,
                handlers@.len() == i,
                forall|j: int| 0 <= j < i ==> #[trigger] handlers@[j] is None,
            decreases IDENT_BITS - i,
        {
            handlers.push(None);
            i += 1;
        }
        let mut bits: Vec<u64> = Vec::new();
        bits.push((!ident_bits) as u64);
        proof {
            assert(bits@ =~= initial_bits(ident_bits));
        }
        IRQDispatch {
            irq_control: irq_control,
            ntfn: ntfn,
            flag_bits: flag_bits,
            ident_bits: ident_bits,
            allocated_bits: bits,
            irq_handlers: handlers,
        }
    }

    /// The lengths the well-formed dispatcher keeps: one word of bits, one
    /// handler place per identifier bit.
    pub proof fn lemma_wf_lengths(&self)
        requires
            self.wf(),
        ensures
            self.bits().len() == 1,
            self.handlers().len() == IDENT_BITS,
    {
    }

    /// The bits of a badge this dispatcher handles: set in the badge, taken,
    /// and among its identifier bits.
    pub open spec fn unchecked_bits(&self, badge: usize) -> u64 {
        (badge as u64) & self.bits()[0] & (self.spec_ident_bits() as u64)
    }

    /// Whether every bit of `badge` this dispatcher handles has a handler
    /// registered, as `handle_irq` asks.
    pub fn handlers_registered(&self, badge: usize) -> (r: bool)
        requires
            self.wf(),
        ensures
            r == forall|b: int| 0 <= b < 64 && #[trigger] bit_is_set(self.unchecked_bits(badge), b) ==> self.handlers()[b] is Some,
    {
        let unchecked: u64 = (badge as u64) & self.allocated_bits[0] & (self.ident_bits as u64);
        let mut i: usize = 0;
        while i < 64
            invariant
                i <= 64,
                self.wf(),
                unchecked == self.unchecked_bits(badge),
                forall|b: int| 0 <= b < i && #[trigger] bit_is_set(unchecked, b) ==> self.handlers()[b] is Some,
            decreases 64 - i,
        {
            if (unchecked >> (i as u64)) & 1 == 1 && self.irq_handlers[i].is_none() {
                assert(bit_is_set(unchecked, i as int));
                return false;
            }
            i += 1;
        }
        true
    }

    /// Dispatches the interrupts a notification badge reports: each bit it
    /// handles, lowest first, with the handler registered on it, for the
    /// caller to run once each; and the badge with those bits cleared, for
    /// the other dispatchers. Every bit handled has a handler registered.
    pub fn handle_irq(&self, badge: usize) -> (r: (Vec<(usize, IRQHandlerInfo)>, u64))
        requires
            self.wf(),
            forall|b: int| 0 <= b < 64 && #[trigger] bit_is_set(self.unchecked_bits(badge), b) ==> self.handlers()[b] is Some,
        ensures
            r.0@ == set_bits(self.unchecked_bits(badge), 64).map_values(|b: int| (b as usize, self.handlers()[b].unwrap())),
            r.1 == (badge as u64) & !self.unchecked_bits(badge),
    {
        let unchecked: u64 = (badge as u64) & self.allocated_bits[0] & (self.ident_bits as u64);
        let ghost hs = self.handlers();
        let mut calls: Vec<(usize, IRQHandlerInfo)> = Vec::new();
        let mut i: usize = 0;
        while i < 64
            invariant
                i <= 64,
                self.wf(),
                hs == self.handlers(),
                unchecked == self.unchecked_bits(badge),
                forall|b: int| 0 <= b < 64 && #[trigger] bit_is_set(unchecked, b) ==> hs[b] is Some,
                calls@ == set_bits(unchecked, i as nat).map_values(|b: int| (b as usize, hs[b].unwrap())),
            decreases 64 - i,
        {
            let ghost before = set_bits(unchecked, i as nat);
            if (unchecked >> (i as u64)) & 1 == 1 {
                assert(bit_is_set(unchecked, i as int));
                let info = self.irq_handlers[i].unwrap();
                calls.push((i, info));
                proof {
                    assert(set_bits(unchecked, (i + 1) as nat) == before.push(i as int));
                    assert(before.push(i as int).map_values(|b: int| (b as usize, hs[b].unwrap())) =~= before.map_values(
                        |b: int| (b as usize, hs[b].unwrap()),
                    ).push((i, info)));
                }
            } else {
                assert(set_bits(unchecked, (i + 1) as nat) == before);
            }
            i += 1;
        }
        (calls, (badge as u64) & !unchecked)
    }

    /// Takes the lowest free identifier bit.
    pub fn alloc_irq_bit(&mut self) -> (r: Result<usize, Sel4Error>)
        requires
            old(self).wf(),
        ensures
            final(self).wf(),
            final(self).handlers() == old(self).handlers(),
            final(self).spec_flag_bits() == old(self).spec_flag_bits(),
            final(self).spec_ident_bits() == old(self).spec_ident_bits(),
            r is Err <==> all_set(old(self).bits()),
            r is Err ==> r == Err::<usize, Sel4Error>(Sel4Error::NotEnoughMemory) && final(self).bits() == old(self).bits(),
            r matches Ok(b) ==> b == first_free(old(self).bits()) && b < 64 && final(self).bits() == set_bit_spec(
                old(self).bits(),
                b as int,
            ),
    {
        alloc_bit(&mut self.allocated_bits)
    }

    /// Gives identifier bit `bit` back.
    pub fn free_irq_bit(&mut self, bit: usize)
        requires
            old(self).wf(),
            bit < 64,
        ensures
            final(self).wf(),
            final(self).bits() == clr_bit_spec(old(self).bits(), bit as int),
            final(self).handlers() == old(self).handlers(),
            final(self).spec_flag_bits() == old(self).spec_flag_bits(),
            final(self).spec_ident_bits() == old(self).spec_ident_bits(),
    {
        bf_clr_bit(self.allocated_bits.as_mut_slice(), bit);
    }

    /// The badge interrupts on identifier bit `bit` arrive with.
    pub fn irq_badge(&self, bit: usize) -> (r: usize)
        requires
            bit < 64,
            bit < usize::BITS,
        ensures
            r == badge_of(self.spec_flag_bits(), bit as int),
    {
        badge_for(self.flag_bits, bit)
    }

    /// Records the handler registered on identifier bit `bit`.
    pub fn set_handler(&mut self, bit: usize, info: IRQHandlerInfo)
        requires
            old(self).wf(),
            bit < 64,
        ensures
            final(self).wf(),
            final(self).handlers() == old(self).handlers().update(bit as int, Some(info)),
            final(self).bits() == old(self).bits(),
            final(self).spec_flag_bits() == old(self).spec_flag_bits(),
            final(self).spec_ident_bits() == old(self).spec_ident_bits(),
    {
        self.irq_handlers.set(bit, Some(info));
    }
}

/// The dispatcher of a server's notification: badged notifications and
/// interrupt handlers it registered, by identifier bit.
pub struct UserNotificationDispatch {
    irq_control: u64,
    ntfn: (u64, UTWrapper),
    flag_bits: usize,
    ident_bits: usize,
    allocated_bits: Vec<u64>,
    badged_ntfns: Vec<Option<u64>>,
    irq_handler_caps: Vec<Option<u64>>,
}

impl UserNotificationDispatch {
    pub closed spec fn wf(&self) -> bool {
        &&& self.allocated_bits@.len() == 1
        &&& self.badged_ntfns@.len() == IDENT_BITS
        &&& self.irq_handler_caps@.len() == IDENT_BITS
    }

    pub closed spec fn bits(&self) -> Seq<u64> {
        self.allocated_bits@
    }

    /// The badged notification on each identifier bit.
    pub closed spec fn ntfns(&self) -> Seq<Option<u64>> {
        self.badged_ntfns@
    }

    /// The interrupt handler on each identifier bit.
    pub closed spec fn irq_handlers(&self) -> Seq<Option<u64>> {
        self.irq_handler_caps@
    }

    pub closed spec fn spec_flag_bits(&self) -> usize {
        self.flag_bits
    }

    pub closed spec fn spec_ntfn(&self) -> (u64, UTWrapper) {
        self.ntfn
    }

    /// Everything but the tables and the bitfield is as in `other`.
    pub closed spec fn same_setup(&self, other: &Self) -> bool {
        &&& self.irq_control == other.irq_control
        &&& self.ntfn == other.ntfn
        &&& self.flag_bits == other.flag_bits
        &&& self.ident_bits == other.ident_bits
    }

    /// A dispatcher for notification `ntfn`, whose identifier bits are
    /// `ident_bits`, none taken, with nothing registered.
    pub fn new(irq_control: u64, ntfn: (u64, UTWrapper), flag_bits: usize, ident_bits: usize) -> (r: Self)
        ensures
            r.wf(),
            r.bits() == initial_bits(ident_bits),
            forall|i: int| 0 <= i < IDENT_BITS ==> #[trigger] r.ntfns()[i] is None && r.irq_handlers()[i] is None,
            r.spec_flag_bits() == flag_bits,
            r.spec_ntfn() == ntfn,
    {
        let mut ntfns: Vec<Option<u64>> = Vec::new();
        let mut handlers: Vec<Option<u64>> = Vec::new();
        let mut i: usize = 0;
        while i < IDENT_BITS
            invariant
                i <= IDENT_BITS,
                ntfns@.len() == i,
                handlers@.len() == i,
                forall|j: int| 0 <= j < i ==> #[trigger] ntfns@[j] is None && handlers@[j] is None,
            decreases IDENT_BITS - i,
        {
            ntfns.push(None);
            handlers.push(None);
            i += 1;
        }
        let mut bits: Vec<u64> = Vec::new();
        bits.push((!ident_bits) as u64);
        proof {
            assert(bits@ =~= initial_bits(ident_bits));
        }
        UserNotificationDispatch {
            irq_control: irq_control,
            ntfn: ntfn,
            flag_bits: flag_bits,
            ident_bits: ident_bits,
            allocated_bits: bits,
            badged_ntfns: ntfns,
            irq_handler_caps: handlers,
        }
    }

    /// Takes the lowest free identifier bit.
    pub fn alloc_ntfn_bit(&mut self) -> (r: Result<usize, Sel4Error>)
        requires
            old(self).wf(),
        ensures
            final(self).wf(),
            final(self).same_setup(old(self)),
            final(self).ntfns() == old(self).ntfns(),
            final(self).irq_handlers() == old(self).irq_handlers(),
            r is Err <==> all_set(old(self).bits()),
            r is Err ==> r == Err::<usize, Sel4Error>(Sel4Error::NotEnoughMemory) && final(self).bits() == old(self).bits(),
            r matches Ok(b) ==> b == first_free(old(self).bits()) && b < 64 && final(self).bits() == set_bit_spec(
                old(self).bits(),
                b as int,
            ),
    {
        alloc_bit(&mut self.allocated_bits)
    }

    /// Gives identifier bit `bit` back.
    pub fn free_ntfn_bit(&mut self, bit: usize)
        requires
            old(self).wf(),
            bit < 64,
        ensures
            final(self).wf(),
            final(self).same_setup(old(self)),
            final(self).bits() == clr_bit_spec(old(self).bits(), bit as int),
            final(self).ntfns() == old(self).ntfns(),
            final(self).irq_handlers() == old(self).irq_handlers(),
    {
        bf_clr_bit(self.allocated_bits.as_mut_slice(), bit);
    }

    /// The badge of identifier bit `bit`: what a badged notification minted
    /// for it carries.
    pub fn ntfn_badge(&self, bit: usize) -> (r: usize)
        requires
            bit < 64,
            bit < usize::BITS,
        ensures
            r == badge_of(self.spec_flag_bits(), bit as int),
    {
        badge_for(self.flag_bits, bit)
    }

    /// Records badged notification `ntfn`, minted for identifier bit `bit`;
    /// returns the bit and the notification.
    pub fn record_ntfn(&mut self, bit: usize, ntfn: u64) -> (r: (u8, u64))
        requires
            old(self).wf(),
            bit < 64,
        ensures
            final(self).wf(),
            final(self).same_setup(old(self)),
            r == (bit as u8, ntfn),
            final(self).ntfns() == old(self).ntfns().update(bit as int, Some(ntfn)),
            final(self).irq_handlers() == old(self).irq_handlers(),
            final(self).bits() == old(self).bits(),
    {
        self.badged_ntfns.set(bit, Some(ntfn));
        (bit as u8, ntfn)
    }

    /// Records interrupt handler `handler`, bound to badged notification
    /// `ntfn` of identifier bit `bit`; returns the bit and the handler.
    pub fn record_irq(&mut self, bit: usize, ntfn: u64, handler: u64) -> (r: (u8, u64))
        requires
            old(self).wf(),
            bit < 64,
        ensures
            final(self).wf(),
            final(self).same_setup(old(self)),
            r == (bit as u8, handler),
            final(self).ntfns() == old(self).ntfns().update(bit as int, Some(ntfn)),
            final(self).irq_handlers() == old(self).irq_handlers().update(bit as int, Some(handler)),
            final(self).bits() == old(self).bits(),
    {
        self.badged_ntfns.set(bit, Some(ntfn));
        self.irq_handler_caps.set(bit, Some(handler));
        (bit as u8, handler)
    }

    /// The root server's own badged notification: the one on bit 0, which
    /// carries no interrupt.
    pub fn rs_badged_ntfn(&self) -> (r: u64)
        requires
            self.wf(),
            self.ntfns()[0] is Some,
            self.irq_handlers()[0] is None,
        ensures
            self.ntfns()[0] == Some(r),
    {
        self.badged_ntfns[0].unwrap()
    }

    /// The capabilities to delete when the dispatcher goes: its badged
    /// notifications, then its interrupt handlers, each by increasing bit.
    pub fn caps_to_destroy(&self) -> (r: (Vec<u64>, Vec<u64>))
        requires
            self.wf(),
        ensures
            r.0@ == present(self.ntfns()),
            r.1@ == present(self.irq_handlers()),
    {
        (present_of(&self.badged_ntfns), present_of(&self.irq_handler_caps))
    }
}

/// The values present in `s`, in order.
pub open spec fn present(s: Seq<Option<u64>>) -> Seq<u64>
    decreases s.len(),
{
    if s.len() == 0 {
        Seq::empty()
    } else {
        match s.last() {
            Some(c) => present(s.drop_last()).push(c),
            None => present(s.drop_last()),
        }
    }
}

fn present_of(v: &Vec<Option<u64>>) -> (r: Vec<u64>)
    ensures
        r@ == present(v@),
{
    let mut out: Vec<u64> = Vec::new();
    let mut i: usize = 0;
    while i < v.len()
        invariant
            i <= v@.len(),
            out@ == present(v@.subrange(0, i as int)),
        decreases v@.len() - i,
    {
        proof {
            assert(v@.subrange(0, i + 1).drop_last() =~= v@.subrange(0, i as int));
        }
        match v[i] {
            Some(c) => out.push(c),
            None => {},
        }
        i += 1;
    }
    proof {
        assert(v@.subrange(0, v@.len() as int) =~= v@);
    }
    out
}

/// A step of registering an interrupt handler on a badge bit, in order.
#[derive(Clone, Copy, Debug, PartialEq, Eq, Structural)]
pub enum IrqRegStep {
    /// Allocate a slot for the handler capability.
    AllocHandlerSlot,
    /// Allocate a slot for the badged notification.
    AllocNtfnSlot,
    /// Get the handler for the interrupt from the IRQ control capability.
    GetHandler,
    /// Mint the notification into its slot, write-only, with `badge`.
    MintNtfn { badge: usize },
    /// Bind the handler to the badged notification.
    SetNotification,
}

/// What undoes a registration step already taken.
#[derive(Clone, Copy, Debug, PartialEq, Eq, Structural)]
pub enum IrqUndo {
    /// Give back badge bit `bit` (`free_irq_bit`).
    FreeBit { bit: usize },
    FreeHandlerSlot,
    FreeNtfnSlot,
    DeleteHandler,
    DeleteNtfn,
}

/// The steps of registering a handler on bit `bit` of a dispatcher with
/// flag bits `flag_bits`: the notification is minted with the bit's badge.
pub open spec fn irq_reg_steps(flag_bits: usize, bit: int) -> Seq<IrqRegStep> {
    seq![
        IrqRegStep::AllocHandlerSlot,
        IrqRegStep::AllocNtfnSlot,
        IrqRegStep::GetHandler,
        IrqRegStep::MintNtfn { badge: badge_of(flag_bits, bit) as usize },
        IrqRegStep::SetNotification,
    ]
}

/// What undoes the steps taken before step `failed` (by its number) of a
/// registration on bit `bit` failed, in order: each step taken is undone,
/// the latest first, and the bit is given back last.
pub open spec fn irq_undo_for(bit: usize, failed: int) -> Seq<IrqUndo> {
    let tail = seq![IrqUndo::FreeBit { bit: bit }];
    if failed <= 0 {
        tail
    } else if failed == 1 {
        seq![IrqUndo::FreeHandlerSlot].add(tail)
    } else if failed == 2 {
        seq![IrqUndo::FreeNtfnSlot, IrqUndo::FreeHandlerSlot].add(tail)
    } else if failed == 3 {
        seq![IrqUndo::DeleteHandler, IrqUndo::FreeNtfnSlot, IrqUndo::FreeHandlerSlot].add(tail)
    } else {
        seq![IrqUndo::DeleteNtfn, IrqUndo::DeleteHandler, IrqUndo::FreeNtfnSlot, IrqUndo::FreeHandlerSlot].add(tail)
    }
}

impl IRQDispatch {
    /// The steps of registering a handler on bit `bit` (after
    /// `alloc_irq_bit` gave it), in order.
    pub fn register_steps(&self, bit: usize) -> (r: Vec<IrqRegStep>)
        requires
            bit < 64,
            bit < usize::BITS,
        ensures
            r@ == irq_reg_steps(self.spec_flag_bits(), bit as int),
    {
        let badge = self.irq_badge(bit);
        let mut v: Vec<IrqRegStep> = Vec::new();
        v.push(IrqRegStep::AllocHandlerSlot);
        v.push(IrqRegStep::AllocNtfnSlot);
        v.push(IrqRegStep::GetHandler);
        v.push(IrqRegStep::MintNtfn { badge: badge });
        v.push(IrqRegStep::SetNotification);
        assert(v@ =~= irq_reg_steps(self.spec_flag_bits(), bit as int));
        v
    }
}

/// What undoes a registration on bit `bit` whose step `failed` failed (see
/// `irq_undo_for`).
pub fn irq_register_undo(bit: usize, failed: usize) -> (r: Vec<IrqUndo>)
    ensures
        r@ == irq_undo_for(bit, failed as int),
{
    let mut v: Vec<IrqUndo> = Vec::new();
    if failed >= 4 {
        v.push(IrqUndo::DeleteNtfn);
    }
    if failed >= 3 {
        v.push(IrqUndo::DeleteHandler);
    }
    if failed >= 2 {
        v.push(IrqUndo::FreeNtfnSlot);
    }
    if failed >= 1 {
        v.push(IrqUndo::FreeHandlerSlot);
    }
    v.push(IrqUndo::FreeBit { bit: bit });
    assert(v@ =~= irq_undo_for(bit, failed as int));
    v
}

/// The bit an allocation takes (the lowest free one), given back, leaves
/// the allocation bitfield as it was.
pub proof fn law_alloc_then_free_bit(bf: Seq<u64>)
    requires
        bf.len() == 1,
        !all_set(bf),
    ensures
        clr_bit_spec(set_bit_spec(bf, first_free(bf)), first_free(bf)) == bf,
{
    crate::bitfield::lemma_first_free_props(bf);
    crate::bitfield::law_set_then_clear(bf, first_free(bf));
}

/// What undoes registration step `s` once taken: a slot allocated is
/// freed, a capability made is deleted. Binding the handler leaves nothing
/// to undo.
pub open spec fn undo_of_reg_step(s: IrqRegStep) -> Option<IrqUndo> {
    match s {
        IrqRegStep::AllocHandlerSlot => Some(IrqUndo::FreeHandlerSlot),
        IrqRegStep::AllocNtfnSlot => Some(IrqUndo::FreeNtfnSlot),
        IrqRegStep::GetHandler => Some(IrqUndo::DeleteHandler),
        IrqRegStep::MintNtfn { .. } => Some(IrqUndo::DeleteNtfn),
        IrqRegStep::SetNotification => None,
    }
}

/// Law: when step `failed` of a registration on bit `bit` fails, what is
/// undone is exactly what the steps taken before it did, each once, the
/// latest first, and then the bit is given back. In particular every slot
/// allocated before the failure is freed, and nothing not yet made is.
pub proof fn law_irq_undo_matches_steps_taken(flag_bits: usize, bit: usize, failed: int)
    requires
        0 <= failed <= 5,
    ensures
        ({
            let steps = irq_reg_steps(flag_bits, bit as int);
            let undo = irq_undo_for(bit, failed);
            &&& undo.len() > 0
            &&& undo.last() == (IrqUndo::FreeBit { bit: bit })
            &&& forall|k: int| 0 <= k < 5 && (#[trigger] undo_of_reg_step(steps[k])) is Some ==> (
                undo.contains(undo_of_reg_step(steps[k])->Some_0) <==> k < failed)
            &&& forall|a: int, b: int|
                0 <= a < b < 5 && b < failed && undo_of_reg_step(steps[a]) is Some && undo_of_reg_step(steps[b]) is Some
                    ==> exists|x: int, y: int|
                    0 <= y < x < undo.len() && #[trigger] undo[x] == undo_of_reg_step(steps[a])->Some_0 && #[trigger] undo[y]
                        == undo_of_reg_step(steps[b])->Some_0
            &&& undo.no_duplicates()
        }),
{
    let steps = irq_reg_steps(flag_bits, bit as int);
    let undo = irq_undo_for(bit, failed);
    assert(steps[0] == IrqRegStep::AllocHandlerSlot);
    assert(steps[1] == IrqRegStep::AllocNtfnSlot);
    assert(steps[2] == IrqRegStep::GetHandler);
    assert(steps[3] is MintNtfn);
    assert(steps[4] == IrqRegStep::SetNotification);
    let fb = IrqUndo::FreeBit { bit: bit };
    let h = IrqUndo::FreeHandlerSlot;
    let n = IrqUndo::FreeNtfnSlot;
    let dh = IrqUndo::DeleteHandler;
    let dn = IrqUndo::DeleteNtfn;
    if failed <= 0 {
        assert(undo =~= seq![fb]);
    } else if failed == 1 {
        assert(undo =~= seq![h, fb]);
        assert(undo[0] == h);
    } else if failed == 2 {
        assert(undo =~= seq![n, h, fb]);
        assert(undo[0] == n && undo[1] == h);
    } else if failed == 3 {
        assert(undo =~= seq![dh, n, h, fb]);
        assert(undo[0] == dh && undo[1] == n && undo[2] == h);
    } else {
        assert(undo =~= seq![dn, dh, n, h, fb]);
        assert(undo[0] == dn && undo[1] == dh && undo[2] == n && undo[3] == h);
    }
    assert forall|k: int| 0 <= k < 5 && (#[trigger] undo_of_reg_step(steps[k])) is Some implies (undo.contains(
        undo_of_reg_step(steps[k])->Some_0,
    ) <==> k < failed) by {
        let u = undo_of_reg_step(steps[k])->Some_0;
        if k < failed {
            let i = if failed <= 4 { failed - 1 - k } else { 3 - k };
            assert(undo[i] == u);
        } else if undo.contains(u) {
            let i = choose|i: int| 0 <= i < undo.len() && undo[i] == u;
            assert(undo[i] == u);
        }
    }
    assert forall|a: int, b: int|
        0 <= a < b < 5 && b < failed && undo_of_reg_step(steps[a]) is Some && undo_of_reg_step(steps[b]) is Some implies exists|x: int, y: int|
        0 <= y < x < undo.len() && #[trigger] undo[x] == undo_of_reg_step(steps[a])->Some_0 && #[trigger] undo[y]
            == undo_of_reg_step(steps[b])->Some_0 by {
        let top = if failed <= 4 { failed - 1 } else { 3 };
        assert(undo[top - a] == undo_of_reg_step(steps[a])->Some_0);
        assert(undo[top - b] == undo_of_reg_step(steps[b])->Some_0);
    }
}

proof fn lemma_set_bits(x: u64, n: nat)
    ensures
        forall|i: int| 0 <= i < set_bits(x, n).len() ==> 0 <= #[trigger] set_bits(x, n)[i] < n && bit_is_set(x, set_bits(x, n)[i]),
        forall|i: int, j: int| 0 <= i < j < set_bits(x, n).len() ==> #[trigger] set_bits(x, n)[i] < #[trigger] set_bits(x, n)[j],
        forall|b: int| 0 <= b < n && #[trigger] bit_is_set(x, b) ==> set_bits(x, n).contains(b),
    decreases n,
{
    if n > 0 {
        lemma_set_bits(x, (n - 1) as nat);
        let p = set_bits(x, (n - 1) as nat);
        if bit_is_set(x, n - 1) {
            assert(set_bits(x, n) == p.push(n - 1));
            assert forall|b: int| 0 <= b < n && #[trigger] bit_is_set(x, b) implies set_bits(x, n).contains(b) by {
                if b < n - 1 {
                    let i = choose|i: int| 0 <= i < p.len() && p[i] == b;
                    assert(set_bits(x, n)[i] == b);
                } else {
                    assert(set_bits(x, n)[p.len() as int] == b);
                }
            }
        }
    }
}

/// Law: a dispatcher handles each bit of a badge it is asked about at most
/// once and in increasing order, and handles exactly the bits set in the
/// badge that are taken among its identifier bits.
pub proof fn law_handle_irq_calls_each_set_bit_once_in_order(d: IRQDispatch, badge: usize)
    ensures
        forall|i: int, j: int| 0 <= i < j < set_bits(d.unchecked_bits(badge), 64).len() ==> #[trigger] set_bits(
            d.unchecked_bits(badge),
            64,
        )[i] < #[trigger] set_bits(d.unchecked_bits(badge), 64)[j],
        forall|b: int| 0 <= b < 64 ==> (set_bits(d.unchecked_bits(badge), 64).contains(b) <==> #[trigger] bit_is_set(
            d.unchecked_bits(badge),
            b,
        )),
        forall|b: int| 0 <= b < 64 ==> (#[trigger] bit_is_set(d.unchecked_bits(badge), b) <==> bit_is_set(badge as u64, b)
            && bit_is_set(d.bits()[0], b) && bit_is_set(d.spec_ident_bits() as u64, b)),
{
    let x = d.unchecked_bits(badge);
    lemma_set_bits(x, 64);
    assert forall|b: int| 0 <= b < 64 implies (set_bits(x, 64).contains(b) <==> #[trigger] bit_is_set(x, b)) by {
        if set_bits(x, 64).contains(b) {
            let i = choose|i: int| 0 <= i < set_bits(x, 64).len() && set_bits(x, 64)[i] == b;
        }
    }
    assert forall|b: int| 0 <= b < 64 implies (#[trigger] bit_is_set(x, b) <==> bit_is_set(badge as u64, b) && bit_is_set(
        d.bits()[0],
        b,
    ) && bit_is_set(d.spec_ident_bits() as u64, b)) by {
        let a = badge as u64;
        let c = d.bits()[0];
        let e = d.spec_ident_bits() as u64;
        let s = b as u64;
        assert(((a & c & e) >> s) & 1 == 1 <==> ((a >> s) & 1 == 1 && (c >> s) & 1 == 1 && (e >> s) & 1 == 1)) by (bit_vector)
            requires
                s < 64,
        ;
    }
}

} // verus!
