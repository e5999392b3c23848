//! The DMA pool: a physically contiguous reservation of pages, mapped at a
//! fixed virtual offset, handed out in contiguous runs by an offset
//! allocator.
//!
//! Page capabilities are held as capability pointers. Mapping the pages is
//! done by the caller, at the addresses `phys_to_virt` gives.

use vstd::prelude::*;
use offset_allocator::{Allocation, Allocator};
use crate::error::InvocationError;

verus! {

/// Size bits of the DMA reservation (64 MiB).
pub const DMA_RESERVATION_SIZE_BITS: usize = 26;
/// Pages of the DMA reservation.
pub const DMA_RESERVATION_NUM_PAGES: usize = 16384;
/// Bytes of a large page, the span the pool's physical range is said to cover.
pub const LARGE_PAGE_SIZE: usize = 0x20_0000;

/// An offset allocator over the pages of the pool. `offset_allocator::Allocator`
/// is generic over a bound (`NodeIndex`) that cannot be declared as an outside
/// type here, so it is held opaquely and reached only through the wrappers
/// below.
#[verifier::external_body]
pub struct PageAllocator {
    inner: Allocator,
}

/// One allocation handed out by a `PageAllocator`: a contiguous run of pages.
#[verifier::external_body]
pub struct PageAllocation {
    inner: Allocation,
}

/// The number of units an allocator manages, as it was created with.
pub uninterp spec fn page_allocator_size(a: PageAllocator) -> nat;

/// The offset, in pages, at which an allocation starts.
pub uninterp spec fn page_allocation_offset(a: PageAllocation) -> nat;

/// The most nodes an allocator was made to hold (its `max_allocs`).
pub uninterp spec fn page_allocator_max_allocs(a: PageAllocator) -> nat;

/// The allocations an allocator has handed out and not taken back, by the
/// node each one holds in the allocator.
pub uninterp spec fn page_allocator_live(a: PageAllocator) -> Set<nat>;

/// The node of its allocator an allocation holds (the allocation's private
/// `metadata` field).
pub uninterp spec fn page_allocation_node(a: PageAllocation) -> nat;

/// Calls `offset_allocator::Allocator::with_max_allocs`, which asserts that
/// `max_allocs` is below `u32::MAX - 1`, sets its count of free nodes to
/// `max_allocs - 1` and takes one of them for the whole block (so it needs
/// at least two). Claimed: the allocator manages a block of `size` units,
/// holds at most `max_allocs` nodes and has handed nothing out.
#[verifier::external_body]
pub(crate) fn allocator_with_max_allocs(size: u32, max_allocs: u32) -> (a: PageAllocator)
    requires
        2 <= max_allocs < u32::MAX - 1,
    ensures
        page_allocator_size(a) == size,
        page_allocator_max_allocs(a) == max_allocs,
        page_allocator_live(a) == Set::<nat>::empty(),
{
    PageAllocator { inner: Allocator::with_max_allocs(size, max_allocs) }
}

/// Calls `offset_allocator::Allocator::allocate`. Claimed, as its
/// documentation says: an allocation is a contiguous portion of the managed
/// block, so its offset plus `size` stays within the block, and the block
/// does not change. As its source shows, the allocation holds a node that
/// was free (no live allocation holds it), which becomes live; when nothing
/// is found, nothing changes. With nothing handed out, the whole block is
/// one free node at offset 0 and all but one of the other nodes are spare;
/// so a request of 1 to 8 units (sizes its bins hold exactly) that fits the
/// block is met at offset 0 when the allocator holds at least three nodes.
/// In other states, whether space is found and which range is chosen is not
/// stated: it depends on the allocations made before.
#[verifier::external_body]
pub(crate) fn allocator_allocate(a: &mut PageAllocator, size: u32) -> (r: Option<(u32, PageAllocation)>)
    ensures
        page_allocator_size(*final(a)) == page_allocator_size(*old(a)),
        page_allocator_max_allocs(*final(a)) == page_allocator_max_allocs(*old(a)),
        page_allocator_live(*old(a)).is_empty() && page_allocator_max_allocs(*old(a)) >= 3 && 1 <= size <= 8
            && size <= page_allocator_size(*old(a)) ==> (r matches Some(x) && x.0 == 0),
        r matches Some(x) ==> x.0 == page_allocation_offset(x.1) && x.0 + size <= page_allocator_size(*old(a)),
        r matches Some(x) ==> !page_allocator_live(*old(a)).contains(page_allocation_node(x.1))
            && page_allocator_live(*final(a)) == page_allocator_live(*old(a)).insert(page_allocation_node(x.1)),
        r is None ==> page_allocator_live(*final(a)) == page_allocator_live(*old(a)),
{
    match a.inner.allocate(size) {
        Some(al) => Some((al.offset, PageAllocation { inner: al })),
        None => None,
    }
}

/// Calls `offset_allocator::Allocator::free`, which panics or misbehaves on
/// an allocation already freed; so the allocation must be live. Claimed, as
/// its source shows: its node is no longer live, and the block does not
/// change.
#[verifier::external_body]
pub(crate) fn allocator_free(a: &mut PageAllocator, al: PageAllocation)
    requires
        page_allocator_live(*old(a)).contains(page_allocation_node(al)),
    ensures
        page_allocator_size(*final(a)) == page_allocator_size(*old(a)),
        page_allocator_max_allocs(*final(a)) == page_allocator_max_allocs(*old(a)),
        page_allocator_live(*final(a)) == page_allocator_live(*old(a)).remove(page_allocation_node(al)),
{
    a.inner.free(al.inner)
}

/// Reads the public `offset` field of an `offset_allocator::Allocation`.
#[verifier::external_body]
pub(crate) fn allocation_offset(a: &PageAllocation) -> (r: u32)
    ensures
        r == page_allocation_offset(*a),
{
    a.inner.offset
}

/// The DMA pool.
pub struct DMAPool {
    vstart: usize,
    pstart: usize,
    pnext: usize,
    pend: usize,
    ut: u64,
    pages: Vec<u64>,
    vspace: u64,
    allocation_table: Option<PageAllocator>,
}

impl DMAPool {
    /// The pool is consistent: it has one capability per page of the
    /// reservation, and the allocator, once set up, manages exactly those pages.
    pub closed spec fn wf(&self) -> bool {
        &&& self.pages@.len() == DMA_RESERVATION_NUM_PAGES
        &&& self.allocation_table matches Some(a) ==> page_allocator_size(a) == DMA_RESERVATION_NUM_PAGES
            && page_allocator_max_allocs(a) == DMA_RESERVATION_NUM_PAGES / 2
        &&& self.pstart + DMA_RESERVATION_NUM_PAGES * 4096 <= usize::MAX
        &&& self.vstart + DMA_RESERVATION_NUM_PAGES * 4096 <= usize::MAX
    }

    /// Whether the offset allocator has been set up.
    pub closed spec fn has_table(&self) -> bool {
        self.allocation_table is Some
    }

    /// The allocator is set up and has handed out nothing.
    pub closed spec fn nothing_allocated(&self) -> bool {
        self.allocation_table matches Some(a) && page_allocator_live(a).is_empty()
    }

    /// Physical start of the reservation.
    pub closed spec fn spec_pstart(&self) -> int {
        self.pstart as int
    }

    /// Virtual start of the reservation.
    pub closed spec fn spec_vstart(&self) -> int {
        self.vstart as int
    }

    /// Page capabilities of the reservation.
    pub closed spec fn spec_pages(&self) -> Seq<u64> {
        self.pages@
    }

    /// A pool over the reservation at physical `pstart`, mapped at virtual
    /// `vstart`, with page capabilities `pages` carved from untyped `ut`.
    /// The offset allocator is set up later, by `init`.
    pub fn new(vspace: u64, ut: u64, pages: Vec<u64>, pstart: usize, vstart: usize) -> (d: Self)
        requires
            pages@.len() == DMA_RESERVATION_NUM_PAGES,
            pstart + DMA_RESERVATION_NUM_PAGES * 4096 <= usize::MAX,
            vstart + DMA_RESERVATION_NUM_PAGES * 4096 <= usize::MAX,
        ensures
            d.wf(),
            !d.has_table(),
            d.spec_pstart() == pstart,
            d.spec_vstart() == vstart,
            d.spec_pages() == pages@,
    {
        DMAPool {
            pstart: pstart,
            vstart: vstart,
            pend: pstart + LARGE_PAGE_SIZE,
            pnext: pstart,
            vspace: vspace,
            pages: pages,
            ut: ut,
            allocation_table: None,
        }
    }

    /// Sets up the offset allocator over the pool's pages, with room for
    /// half as many allocations as there are pages.
    pub fn init(&mut self)
        requires
            old(self).wf(),
            !old(self).has_table(),
        ensures
            final(self).wf(),
            final(self).has_table(),
            final(self).nothing_allocated(),
            final(self).spec_pstart() == old(self).spec_pstart(),
            final(self).spec_vstart() == old(self).spec_vstart(),
            final(self).spec_pages() == old(self).spec_pages(),
    {
        self.allocation_table = Some(
            allocator_with_max_allocs(DMA_RESERVATION_NUM_PAGES as u32, (DMA_RESERVATION_NUM_PAGES / 2) as u32),
        );
    }

    /// Virtual address of physical address `phys` of the pool.
    pub fn phys_to_virt(&self, phys: usize) -> (r: usize)
        requires
            self.wf(),
            self.spec_pstart() <= phys <= self.spec_pstart() + DMA_RESERVATION_NUM_PAGES * 4096,
        ensures
            r == self.spec_vstart() + (phys - self.spec_pstart()),
    {
        self.vstart + (phys - self.pstart)
    }

    /// Physical address of an allocation of the pool.
    pub fn allocation_paddr(&self, alloc: &PageAllocation) -> (r: usize)
        requires
            self.wf(),
            page_allocation_offset(*alloc) <= DMA_RESERVATION_NUM_PAGES,
        ensures
            r == self.spec_pstart() + page_allocation_offset(*alloc) * 4096,
    {
        let off = allocation_offset(alloc);
        self.pstart + (off as usize) * 4096
    }

    /// Allocates `n_pages` contiguous pages; returns the allocation and the
    /// capabilities of its pages, in order.
    pub fn allocate_contig_pages(&mut self, n_pages: u32) -> (r: Result<(PageAllocation, Vec<u64>), InvocationError>)
        requires
            old(self).wf(),
            old(self).has_table(),
        ensures
            final(self).wf(),
            final(self).has_table(),
            final(self).spec_pages() == old(self).spec_pages(),
            final(self).spec_pstart() == old(self).spec_pstart(),
            final(self).spec_vstart() == old(self).spec_vstart(),
            r is Err ==> r == Err::<(PageAllocation, Vec<u64>), InvocationError>(InvocationError::InsufficientResources),
            old(self).nothing_allocated() && 1 <= n_pages <= 8 ==> (r matches Ok(x) && page_allocation_offset(x.0)
                == 0),
            r matches Ok(x) ==> {
                let off = page_allocation_offset(x.0) as int;
                &&& off + n_pages <= DMA_RESERVATION_NUM_PAGES
                &&& x.1@ == old(self).spec_pages().subrange(off, off + n_pages)
            },
    {
        let mut table = self.allocation_table.take().unwrap();
        let res = allocator_allocate(&mut table, n_pages);
        self.allocation_table = Some(table);
        match res {
            None => Err(InvocationError::InsufficientResources),
            Some((offset, alloc)) => {
                let mut v: Vec<u64> = Vec::new();
                let start = offset as usize;
                let end = start + n_pages as usize;
                let mut i = start;
                while i < end
                    invariant
                        start <= i <= end,
                        end <= self.pages@.len(),
                        v@ == self.pages@.subrange(start as int, i as int),
                    decreases end - i,
                {
                    v.push(self.pages[i]);
                    i += 1;
                }
                Ok((alloc, v))
            },
        }
    }
}

} // verus!
