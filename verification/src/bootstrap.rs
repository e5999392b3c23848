//! The arithmetic of bootstrapping the root server: which untypeds of the
//! boot information are usable, the span of physical memory they cover, how
//! many capability slots and bytes the bootstrap needs, and carving
//! untypeds out of the boot untypeds.
//!
//! The boot untypeds are described by `UntypedDesc` values; retyping and
//! mapping are kernel work done by the caller with the results.

use vstd::prelude::*;
use vstd::arithmetic::power2::pow2;
use crate::page::{BIT, BYTES_TO_4K_PAGES, BYTES_TO_SIZE_BITS, ceil_div};
use crate::arith::is_log2;
use crate::ut::{UTRegion, PAGE_BITS};
use crate::util::{ALIGN_UP, is_pow2};

verus! {

/// Highest physical address whose untypeds the root server uses.
pub const PHYSICAL_ADDRESS_LIMIT: usize = 0xdfff_ffff;
/// Largest size of a usable untyped.
pub const MAX_PHYSICAL_SIZE_BITS: usize = 32;
/// Largest untyped the kernel makes.
pub const MAX_UNTYPED_BITS: usize = 47;
/// Bytes of one entry of the untyped table as it is laid out in memory.
pub const UT_ENTRY_BYTES: usize = 24;
/// Index bits of a page table.
pub const PAGE_TABLE_INDEX_BITS: usize = 9;
/// Bytes of a page table, a page upper directory and a page directory.
pub const PAGING_STRUCTURE_BYTES: usize = 4096;
/// Size bits of a large page.
pub const LARGE_PAGE_BITS: usize = 21;
/// Pages of the DMA reservation.
pub const DMA_PAGES: usize = 16384;
/// Size bits of the DMA reservation.
pub const DMA_SIZE_BITS: usize = 26;
/// Slots of a second-level CNode.
pub const SLOTS_PER_CNODE: usize = 256;
/// Bytes of a second-level CNode.
pub const CNODE_BYTES: usize = 8192;
/// Bytes of the root server's top-level CNode.
pub const TOP_CNODE_BYTES: usize = 262144;
/// Second-level CNodes recorded per bottom-level node.
pub const CNODES_PER_BOT_LVL_NODE: usize = 97;

/// One untyped of the boot information.
#[derive(Clone, Copy, Debug, PartialEq, Eq, Structural)]
pub struct UntypedDesc {
    pub paddr: usize,
    pub size_bits: usize,
    pub is_device: bool,
}

/// The untyped lies where the root server uses memory.
pub open spec fn in_range(u: UntypedDesc) -> bool {
    u.paddr <= PHYSICAL_ADDRESS_LIMIT && u.size_bits <= MAX_PHYSICAL_SIZE_BITS
}

/// Every usable untyped's end fits in a machine word.
pub open spec fn untypeds_fit(s: Seq<UntypedDesc>) -> bool {
    forall|i: int| 0 <= i < s.len() && in_range(#[trigger] s[i]) ==> s[i].paddr + pow2(s[i].size_bits as nat) <= usize::MAX
}

/// Lowest start of the usable untypeds, or the address limit if none is.
pub open spec fn region_start(s: Seq<UntypedDesc>) -> int
    decreases s.len(),
{
    if s.len() == 0 {
        PHYSICAL_ADDRESS_LIMIT as int
    } else {
        let r = region_start(s.drop_last());
        if in_range(s.last()) && (s.last().paddr as int) < r {
            s.last().paddr as int
        } else {
            r
        }
    }
}

/// Highest end of the usable untypeds, or 0 if none is.
pub open spec fn region_end(s: Seq<UntypedDesc>) -> int
    decreases s.len(),
{
    if s.len() == 0 {
        0
    } else {
        let r = region_end(s.drop_last());
        let e = s.last().paddr + pow2(s.last().size_bits as nat);
        if in_range(s.last()) && r < e {
            e
        } else {
            r
        }
    }
}

/// Some untyped is usable.
pub open spec fn some_in_range(s: Seq<UntypedDesc>) -> bool {
    exists|i: int| 0 <= i < s.len() && in_range(#[trigger] s[i])
}

/// A power of two that fits in a machine word has an exponent below the
/// word's width.
pub proof fn lemma_fits_bits(n: nat)
    requires
        pow2(n) <= usize::MAX,
    ensures
        n < usize::BITS,
{
    if n >= usize::BITS {
        if n > usize::BITS {
            vstd::arithmetic::power2::lemma_pow2_strictly_increases(usize::BITS as nat, n);
        }
        vstd::arithmetic::power2::lemma2_to64();
        assert(usize::BITS == 32 || usize::BITS == 64);
    }
}

/// Whether untyped `u` lies where the root server uses memory.
pub fn untyped_in_range(u: &UntypedDesc) -> (r: bool)
    ensures
        r == in_range(*u),
{
    u.paddr <= PHYSICAL_ADDRESS_LIMIT && u.size_bits <= MAX_PHYSICAL_SIZE_BITS
}

proof fn lemma_region_bounds(s: Seq<UntypedDesc>)
    ensures
        region_start(s) <= PHYSICAL_ADDRESS_LIMIT,
        region_end(s) >= 0,
        some_in_range(s) ==> region_start(s) < region_end(s),
        untypeds_fit(s) ==> region_end(s) <= usize::MAX,
    decreases s.len(),
{
    if s.len() > 0 {
        let t = s.drop_last();
        lemma_region_bounds(t);
        vstd::arithmetic::power2::lemma_pow2_pos(s.last().size_bits as nat);
        if untypeds_fit(s) {
            assert(untypeds_fit(t)) by {
                assert forall|i: int| 0 <= i < t.len() && in_range(#[trigger] t[i]) implies t[i].paddr + pow2(t[i].size_bits as nat) <= usize::MAX by {
                    assert(t[i] == s[i]);
                }
            }
            if in_range(s.last()) {
                assert(s[s.len() - 1] == s.last());
            }
        }
        if some_in_range(s) {
            if !in_range(s.last()) {
                let i = choose|i: int| 0 <= i < s.len() && in_range(#[trigger] s[i]);
                assert(i != s.len() - 1);
                assert(t[i] == s[i]);
                assert(some_in_range(t));
            } else if some_in_range(t) {
            } else {
                assert(region_start(s) <= s.last().paddr);
            }
        }
    }
}

/// The span of physical memory the usable untypeds cover: from the lowest
/// start to the highest end.
pub fn find_memory_bounds(untypeds: &[UntypedDesc]) -> (r: UTRegion)
    requires
        some_in_range(untypeds@),
        untypeds_fit(untypeds@),
    ensures
        r.start == region_start(untypeds@),
        r.end == region_end(untypeds@),
        r.start < r.end,
{
    let mut memory = UTRegion::new(PHYSICAL_ADDRESS_LIMIT, 0);
    let mut i: usize = 0;
    while i < untypeds.len()
        invariant
            i <= untypeds@.len(),
            untypeds_fit(untypeds@),
            memory.start == region_start(untypeds@.subrange(0, i as int)),
            memory.end == region_end(untypeds@.subrange(0, i as int)),
        decreases untypeds@.len() - i,
    {
        let u = untypeds[i];
        proof {
            let t = untypeds@.subrange(0, i + 1);
            assert(t.drop_last() =~= untypeds@.subrange(0, i as int));
            assert(t.last() == u);
            lemma_region_bounds(untypeds@.subrange(0, i as int));
            assert(untypeds_fit(untypeds@.subrange(0, i as int))) by {
                let t0 = untypeds@.subrange(0, i as int);
                assert forall|j: int| 0 <= j < t0.len() && in_range(#[trigger] t0[j]) implies t0[j].paddr + pow2(t0[j].size_bits as nat) <= usize::MAX by {
                    assert(t0[j] == untypeds@[j]);
                }
            }
        }
        if untyped_in_range(&u) {
            proof {
                assert(untypeds@[i as int] == u);
                vstd::arithmetic::power2::lemma_pow2_pos(u.size_bits as nat);
                lemma_fits_bits(u.size_bits as nat);
            }
            if u.paddr < memory.start {
                memory.start = u.paddr;
            }
            let e = u.paddr + BIT(u.size_bits);
            if memory.end < e {
                memory.end = e;
            }
        }
        i = i + 1;
    }
    proof {
        assert(untypeds@.subrange(0, untypeds@.len() as int) =~= untypeds@);
        lemma_region_bounds(untypeds@);
    }
    memory
}

/// Pages the untyped table over `memory` takes.
pub fn ut_pages_for_region(memory: &UTRegion) -> (r: usize)
    requires
        memory.start <= memory.end,
    ensures
        r == ceil_div(((memory.end - memory.start) / 4096) * UT_ENTRY_BYTES, 4096),
{
    let n = (memory.end - memory.start) / 4096;
    assert(n * 24 <= usize::MAX) by (nonlinear_arith)
        requires
            n == (memory.end - memory.start) / 4096,
            memory.end - memory.start <= usize::MAX,
    ;
    BYTES_TO_4K_PAGES(n * UT_ENTRY_BYTES)
}

/// Bytes a usable non-device untyped adds to what is available.
pub open spec fn avail_added(u: UntypedDesc) -> int {
    if in_range(u) && !u.is_device {
        pow2(u.size_bits as nat) as int
    } else {
        0
    }
}

/// Untypeds of `size_bits` a usable untyped of at least that size retypes into.
pub open spec fn caps_of(u: UntypedDesc, size_bits: nat) -> int {
    if in_range(u) && u.size_bits >= size_bits {
        pow2((u.size_bits - size_bits) as nat) as int
    } else {
        0
    }
}

/// Untypeds of `size_bits` all the usable untypeds retype into.
pub open spec fn ut_caps_total(s: Seq<UntypedDesc>, size_bits: nat) -> int
    decreases s.len(),
{
    if s.len() == 0 {
        0
    } else {
        ut_caps_total(s.drop_last(), size_bits) + caps_of(s.last(), size_bits)
    }
}

proof fn lemma_ut_caps_total_mono(s: Seq<UntypedDesc>, size_bits: nat, i: int)
    requires
        0 <= i <= s.len(),
    ensures
        ut_caps_total(s.subrange(0, i), size_bits) <= ut_caps_total(s, size_bits),
        ut_caps_total(s.subrange(0, i), size_bits) >= 0,
    decreases s.len(),
{
    if s.len() > 0 {
        vstd::arithmetic::power2::lemma_pow2_pos((s.last().size_bits - size_bits) as nat);
        if i == s.len() {
            assert(s.subrange(0, i) =~= s);
            lemma_ut_caps_total_mono(s.drop_last(), size_bits, i - 1);
            assert(s.drop_last().subrange(0, i - 1) =~= s.drop_last());
        } else {
            lemma_ut_caps_total_mono(s.drop_last(), size_bits, i);
            assert(s.drop_last().subrange(0, i) =~= s.subrange(0, i));
        }
    }
}

/// Counts the untypeds of `size_bits` the usable untypeds retype into, and
/// adds the bytes of each usable memory untyped to what is available of it.
pub fn calculate_ut_caps(untypeds: &[UntypedDesc], size_bits: usize, bootinfo_avail_bytes: &mut Vec<usize>) -> (r: usize)
    requires
        old(bootinfo_avail_bytes)@.len() >= untypeds@.len(),
        ut_caps_total(untypeds@, size_bits as nat) <= usize::MAX,
        untypeds_fit(untypeds@),
        forall|i: int| 0 <= i < untypeds@.len() ==> old(bootinfo_avail_bytes)@[i] + avail_added(#[trigger] untypeds@[i]) <= usize::MAX,
    ensures
        r == ut_caps_total(untypeds@, size_bits as nat),
        final(bootinfo_avail_bytes)@.len() == old(bootinfo_avail_bytes)@.len(),
        forall|i: int| 0 <= i < untypeds@.len() ==> #[trigger] final(bootinfo_avail_bytes)@[i] == old(bootinfo_avail_bytes)@[i] + avail_added(untypeds@[i]),
        forall|i: int| untypeds@.len() <= i < old(bootinfo_avail_bytes)@.len() ==> #[trigger] final(bootinfo_avail_bytes)@[i] == old(bootinfo_avail_bytes)@[i],
{
    let mut n_caps: usize = 0;
    let mut i: usize = 0;
    while i < untypeds.len()
        invariant
            i <= untypeds@.len(),
            bootinfo_avail_bytes@.len() == old(bootinfo_avail_bytes)@.len(),
            old(bootinfo_avail_bytes)@.len() >= untypeds@.len(),
            untypeds_fit(untypeds@),
            ut_caps_total(untypeds@, size_bits as nat) <= usize::MAX,
            n_caps == ut_caps_total(untypeds@.subrange(0, i as int), size_bits as nat),
            forall|j: int| 0 <= j < untypeds@.len() ==> old(bootinfo_avail_bytes)@[j] + avail_added(#[trigger] untypeds@[j]) <= usize::MAX,
            forall|j: int| 0 <= j < i ==> #[trigger] bootinfo_avail_bytes@[j] == old(bootinfo_avail_bytes)@[j] + avail_added(untypeds@[j]),
            forall|j: int| i <= j < old(bootinfo_avail_bytes)@.len() ==> #[trigger] bootinfo_avail_bytes@[j] == old(bootinfo_avail_bytes)@[j],
        decreases untypeds@.len() - i,
    {
        let u = untypeds[i];
        proof {
            let t = untypeds@.subrange(0, i + 1);
            assert(t.drop_last() =~= untypeds@.subrange(0, i as int));
            assert(t.last() == u);
            lemma_ut_caps_total_mono(untypeds@, size_bits as nat, i + 1);
            lemma_ut_caps_total_mono(untypeds@, size_bits as nat, i as int);
        }
        if untyped_in_range(&u) {
            proof {
                assert(untypeds@[i as int] == u);
                lemma_fits_bits(u.size_bits as nat);
            }
            if !u.is_device {
                let b = BIT(u.size_bits);
                let cur = bootinfo_avail_bytes[i];
                bootinfo_avail_bytes.set(i, cur + b);
            }
            if u.size_bits >= size_bits {
                n_caps = n_caps + BIT(u.size_bits - size_bits);
            }
        }
        i = i + 1;
    }
    proof {
        assert(untypeds@.subrange(0, untypeds@.len() as int) =~= untypeds@);
    }
    n_caps
}

/// Bytes of untyped `u` already carved off, given `avail` bytes of it left.
pub open spec fn taken_bytes(u: UntypedDesc, avail: int) -> int {
    if !u.is_device {
        pow2(u.size_bits as nat) - avail
    } else {
        0
    }
}

/// `pa` is the first address of untyped `u`, past what is carved off it,
/// aligned to `2^size_bits` from the untyped's start.
pub open spec fn avail_paddr(u: UntypedDesc, avail: int, size_bits: nat, pa: int) -> bool {
    let t = taken_bytes(u, avail);
    let off = pa - u.paddr;
    &&& off % (pow2(size_bits) as int) == 0
    &&& t <= off < t + pow2(size_bits)
}

/// The first physical address of untyped `i` not yet carved off, rounded up
/// to a multiple of `2^size_bits` from the untyped's start.
pub fn paddr_from_avail_bytes(untypeds: &[UntypedDesc], i: usize, size_bits: usize, bootinfo_avail_bytes: &[usize]) -> (r: usize)
    requires
        i < untypeds@.len(),
        i < bootinfo_avail_bytes@.len(),
        size_bits < usize::BITS,
        !untypeds@[i as int].is_device ==> untypeds@[i as int].paddr + pow2(untypeds@[i as int].size_bits as nat) <= usize::MAX,
        !untypeds@[i as int].is_device ==> bootinfo_avail_bytes@[i as int] <= pow2(untypeds@[i as int].size_bits as nat),
        untypeds@[i as int].paddr + taken_bytes(untypeds@[i as int], bootinfo_avail_bytes@[i as int] as int)
            + pow2(size_bits as nat) <= usize::MAX,
    ensures
        avail_paddr(untypeds@[i as int], bootinfo_avail_bytes@[i as int] as int, size_bits as nat, r as int),
{
    let u = untypeds[i];
    let mut taken: usize = 0;
    if !u.is_device {
        proof {
            vstd::arithmetic::power2::lemma_pow2_pos(u.size_bits as nat);
            lemma_fits_bits(u.size_bits as nat);
        }
        taken = BIT(u.size_bits) - bootinfo_avail_bytes[i];
    }
    let n = BIT(size_bits);
    proof {
        vstd::arithmetic::power2::lemma_pow2_pos(size_bits as nat);
        assert(is_pow2(n as int)) by {
            assert(pow2(size_bits as nat) == n);
        }
    }
    let t = ALIGN_UP(taken, n);
    u.paddr + t
}

/// The first usable untyped with at least `2^size_bits` bytes left.
pub open spec fn is_steal_index(s: Seq<UntypedDesc>, avail: Seq<usize>, size_bits: nat, i: int) -> bool {
    &&& 0 <= i < s.len()
    &&& in_range(s[i])
    &&& avail[i] >= pow2(size_bits)
    &&& forall|j: int| 0 <= j < i ==> !(in_range(#[trigger] s[j]) && avail[j] >= pow2(size_bits))
}

/// What is left of each usable memory untyped is at most its size.
pub open spec fn avail_wf(s: Seq<UntypedDesc>, avail: Seq<usize>) -> bool {
    &&& avail.len() >= s.len()
    &&& forall|i: int| 0 <= i < s.len() && in_range(#[trigger] s[i]) && !s[i].is_device ==> avail[i] <= pow2(s[i].size_bits as nat)
    &&& forall|i: int| 0 <= i < s.len() && in_range(#[trigger] s[i]) && s[i].is_device ==> avail[i] == 0
}

/// Carves `2^size_bits` bytes off the first usable untyped with that much
/// left; returns its capability (the untypeds' capabilities start at
/// `untyped_start`) and the physical address carved.
pub fn steal_untyped(untypeds: &[UntypedDesc], size_bits: usize, bootinfo_avail_bytes: &mut Vec<usize>, untyped_start: usize) -> (r: Option<(u64, usize)>)
    requires
        PAGE_BITS <= size_bits <= MAX_UNTYPED_BITS,
        size_bits < usize::BITS,
        untypeds_fit(untypeds@),
        avail_wf(untypeds@, old(bootinfo_avail_bytes)@),
        untyped_start + untypeds@.len() <= usize::MAX,
    ensures
        r is None <==> forall|i: int| !is_steal_index(untypeds@, old(bootinfo_avail_bytes)@, size_bits as nat, i),
        r is None ==> final(bootinfo_avail_bytes)@ == old(bootinfo_avail_bytes)@,
        r matches Some(p) ==> exists|i: int| {
            &&& is_steal_index(untypeds@, old(bootinfo_avail_bytes)@, size_bits as nat, i)
            &&& p.0 == untyped_start + i
            &&& avail_paddr(untypeds@[i], old(bootinfo_avail_bytes)@[i] as int, size_bits as nat, p.1 as int)
            &&& final(bootinfo_avail_bytes)@ == old(bootinfo_avail_bytes)@.update(
                i,
                (old(bootinfo_avail_bytes)@[i] - pow2(size_bits as nat)) as usize,
            )
        },
        avail_wf(untypeds@, final(bootinfo_avail_bytes)@),
{
    let n = BIT(size_bits);
    let mut i: usize = 0;
    while i < untypeds.len()
        invariant
            i <= untypeds@.len(),
            n == pow2(size_bits as nat),
            size_bits < usize::BITS,
            untypeds_fit(untypeds@),
            avail_wf(untypeds@, bootinfo_avail_bytes@),
            bootinfo_avail_bytes@ == old(bootinfo_avail_bytes)@,
            untyped_start + untypeds@.len() <= usize::MAX,
            forall|j: int| 0 <= j < i ==> !(in_range(#[trigger] untypeds@[j]) && bootinfo_avail_bytes@[j] >= pow2(size_bits as nat)),
        decreases untypeds@.len() - i,
    {
        let u = untypeds[i];
        if untyped_in_range(&u) && bootinfo_avail_bytes[i] >= n {
            proof {
                assert(untypeds@[i as int] == u);
                vstd::arithmetic::power2::lemma_pow2_pos(u.size_bits as nat);
                vstd::arithmetic::power2::lemma_pow2_pos(size_bits as nat);
                if !u.is_device {
                    assert(bootinfo_avail_bytes@[i as int] <= pow2(u.size_bits as nat));
                    assert(u.paddr + pow2(u.size_bits as nat) <= usize::MAX);
                    assert(taken_bytes(u, bootinfo_avail_bytes@[i as int] as int) + pow2(size_bits as nat) <= pow2(u.size_bits as nat));
                } else {
                    assert(bootinfo_avail_bytes@[i as int] == 0);
                }
            }
            let pa = paddr_from_avail_bytes(untypeds, i, size_bits, bootinfo_avail_bytes.as_slice());
            let cur = bootinfo_avail_bytes[i];
            bootinfo_avail_bytes.set(i, cur - n);
            proof {
                assert(is_steal_index(untypeds@, old(bootinfo_avail_bytes)@, size_bits as nat, i as int));
                assert forall|k: int| 0 <= k < untypeds@.len() && in_range(#[trigger] untypeds@[k]) && !untypeds@[k].is_device
                    implies bootinfo_avail_bytes@[k] <= pow2(untypeds@[k].size_bits as nat) by {
                    assert(old(bootinfo_avail_bytes)@[k] <= pow2(untypeds@[k].size_bits as nat));
                }
                assert forall|k: int| 0 <= k < untypeds@.len() && in_range(#[trigger] untypeds@[k]) && untypeds@[k].is_device
                    implies bootinfo_avail_bytes@[k] == 0 by {
                    assert(old(bootinfo_avail_bytes)@[k] == 0);
                }
                assert forall|k: int| !is_steal_index(untypeds@, old(bootinfo_avail_bytes)@, size_bits as nat, k) || k == i by {
                    if is_steal_index(untypeds@, old(bootinfo_avail_bytes)@, size_bits as nat, k) && k != i {
                        if k < i {
                        } else {
                            assert(!(in_range(untypeds@[i as int]) && old(bootinfo_avail_bytes)@[i as int] >= pow2(size_bits as nat)));
                        }
                    }
                }
            }
            return Some(((untyped_start + i) as u64, pa));
        }
        i = i + 1;
    }
    None
}

/// Capability slots the bootstrap needs: those the boot CSpace uses, the
/// untyped table's frames and page tables, the DMA region's page tables and
/// pages, the two upper paging structures, and the page-size untypeds the
/// boot untypeds retype into, less the DMA reservation's share of those.
pub open spec fn plan_n_slots(empty_start: int, ut_pages: int, ut_caps: int) -> int {
    (empty_start - 1) + ut_pages + (ut_pages / 512 + 1) + DMA_PAGES / 512 + 2 + DMA_PAGES + ut_caps - DMA_PAGES
}

/// Second-level CNodes the bootstrap creates: enough for its slots, and two more.
pub open spec fn plan_n_cnodes(empty_start: int, ut_pages: int, ut_caps: int) -> int {
    plan_n_slots(empty_start, ut_pages, ut_caps) / (SLOTS_PER_CNODE as int) + 2
}

/// Bytes of untyped the bootstrap needs: the untyped table's frames and page
/// tables, the DMA region's page tables, the two upper paging structures,
/// the second-level CNodes and the new top-level CNode.
pub open spec fn plan_size(empty_start: int, ut_pages: int, ut_caps: int) -> int {
    ut_pages * 4096 + (ut_pages / 512 + 1) * 4096 + (DMA_PAGES / 512) * 4096 + 4096 + 4096
        + plan_n_cnodes(empty_start, ut_pages, ut_caps) * CNODE_BYTES + TOP_CNODE_BYTES
}

/// What the bootstrap must reserve before it can build its CSpace.
#[derive(Clone, Copy, Debug)]
pub struct BootstrapPlan {
    pub n_slots: usize,
    pub n_cnodes: usize,
    pub size: usize,
    pub steal_size_bits: usize,
}

/// Works out the slots, second-level CNodes and bytes of untyped the
/// bootstrap needs, and the size of the untyped it takes them from: the
/// smallest power of two that holds them, doubled.
pub fn bootstrap_plan(empty_start: usize, ut_pages: usize, ut_caps: usize) -> (r: BootstrapPlan)
    requires
        empty_start >= 1,
        plan_n_slots(empty_start as int, ut_pages as int, ut_caps as int) + DMA_PAGES <= usize::MAX,
        plan_size(empty_start as int, ut_pages as int, ut_caps as int) <= usize::MAX,
    ensures
        r.n_slots == plan_n_slots(empty_start as int, ut_pages as int, ut_caps as int),
        r.n_cnodes == plan_n_cnodes(empty_start as int, ut_pages as int, ut_caps as int),
        r.size == plan_size(empty_start as int, ut_pages as int, ut_caps as int),
        is_log2(r.size as int, r.steal_size_bits - 1),
{
    let mut n_slots: usize = empty_start - 1;
    n_slots = n_slots + ut_pages;
    let mut size: usize = ut_pages * 4096;
    assert((ut_pages >> 9usize) == ut_pages / 512) by (bit_vector);
    let n_pts = (ut_pages >> 9usize) + 1;
    size = size + n_pts * PAGING_STRUCTURE_BYTES;
    n_slots = n_slots + n_pts;
    let n_dma_pts = DMA_PAGES >> 9usize;
    assert((16384usize >> 9usize) == 32usize) by (bit_vector);
    size = size + n_dma_pts * PAGING_STRUCTURE_BYTES;
    n_slots = n_slots + n_dma_pts;
    size = size + PAGING_STRUCTURE_BYTES;
    size = size + PAGING_STRUCTURE_BYTES;
    n_slots = n_slots + 2;
    n_slots = n_slots + DMA_PAGES;
    n_slots = n_slots + ut_caps;
    n_slots = n_slots - DMA_PAGES;
    let n_cnodes = n_slots / SLOTS_PER_CNODE + 2;
    size = size + n_cnodes * CNODE_BYTES + TOP_CNODE_BYTES;
    let lg = BYTES_TO_SIZE_BITS(size);
    proof {
        lemma_fits_bits(lg as nat);
    }
    let steal = lg + 1;
    BootstrapPlan { n_slots: n_slots, n_cnodes: n_cnodes, size: size, steal_size_bits: steal }
}

/// Untypeds to retype in one go: no more than the kernel's fan-out limit,
/// than are left, or than fit in the rest of the current second-level CNode.
pub fn retype_chunk(n_caps: usize, first_free_slot: usize, fan_out: usize) -> (r: usize)
    ensures
        r == vstd::math::min(
            fan_out as int,
            vstd::math::min(n_caps as int, SLOTS_PER_CNODE - first_free_slot % SLOTS_PER_CNODE),
        ),
{
    let room = SLOTS_PER_CNODE - first_free_slot % SLOTS_PER_CNODE;
    let m = if n_caps < room { n_caps } else { room };
    if fan_out < m { fan_out } else { m }
}

/// Page-size untypeds a usable untyped gives the untyped table: all its
/// pages if it is device memory, else the pages left of it.
pub fn untyped_page_caps(u: &UntypedDesc, avail: usize) -> (r: usize)
    requires
        u.is_device ==> u.size_bits < usize::BITS,
    ensures
        r == (if u.is_device { pow2(u.size_bits as nat) as int / 4096 } else { avail as int / 4096 }),
{
    if u.is_device {
        BIT(u.size_bits) / 4096
    } else {
        avail / 4096
    }
}

/// Bottom-level nodes the bootstrap sets up: enough to record every
/// second-level CNode it made or used, and one more.
pub fn bot_lvl_nodes_needed(first_free_slot: usize, n_cnodes: usize) -> (r: usize)
    ensures
        r == vstd::math::max(first_free_slot as int / SLOTS_PER_CNODE as int + 1, n_cnodes as int)
            / CNODES_PER_BOT_LVL_NODE as int + 1,
{
    let used = first_free_slot / SLOTS_PER_CNODE + 1;
    let m = if used < n_cnodes { n_cnodes } else { used };
    m / CNODES_PER_BOT_LVL_NODE + 1
}

/// Where the DMA region is mapped: past a guard page after `next_free_vaddr`,
/// at the next large-page boundary.
pub fn dma_vaddr_after(next_free_vaddr: usize) -> (r: usize)
    requires
        next_free_vaddr + 4096 + pow2(LARGE_PAGE_BITS as nat) <= usize::MAX,
    ensures
        (r as int) % (pow2(LARGE_PAGE_BITS as nat) as int) == 0,
        next_free_vaddr + 4096 <= r < next_free_vaddr + 4096 + pow2(LARGE_PAGE_BITS as nat),
{
    proof {
        vstd::arithmetic::power2::lemma_pow2_pos(LARGE_PAGE_BITS as nat);
    }
    let n = BIT(LARGE_PAGE_BITS);
    proof {
        assert(is_pow2(n as int)) by {
            assert(pow2(LARGE_PAGE_BITS as nat) == n);
        }
    }
    ALIGN_UP(next_free_vaddr + 4096, n)
}

} // verus!
