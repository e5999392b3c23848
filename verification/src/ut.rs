//! The untyped table: one entry per 4 KiB page of the untyped memory the root
//! server manages, plus entries for the smaller untypeds split off those
//! pages. Free untypeds wait on one stack per size, from endpoint size
//! (2^4 bytes) to page size (2^12 bytes); the stacks are linked through the
//! entries themselves, as is the stack of spare entries that splits draw on.
//!
//! Capabilities are held as capability pointers. Retyping an untyped is
//! kernel work done by the caller: it hands in the capabilities of the two
//! halves when it splits an untyped.

use vstd::prelude::*;
use crate::error::Sel4Error;

verus! {

/// Size bits of a 4 KiB page.
pub const PAGE_BITS: usize = 12;
/// Size bits of an endpoint, the smallest untyped the table hands out.
pub const ENDPOINT_BITS: usize = 4;
/// One free stack per size from endpoint to page size.
pub const N_UNTYPED_LISTS: usize = 9;
/// Entries that fit in one 4 KiB page of entry storage (24-byte entries).
pub const UT_ENTRIES_PER_PAGE: usize = 170;

/// Marks, in the ghost location of an entry, that it is on no stack.
pub open spec fn no_list() -> int {
    -1
}

/// Marks, in the ghost location of an entry, that it is a spare entry.
pub open spec fn spare_list() -> int {
    9
}

/// One entry of the table.
#[derive(Clone, Copy, Debug)]
pub struct UT {
    pub cap: u64,
    valid: bool,
    size_bits: u8,
    next: Option<usize>,
}

impl UT {
    /// Whether the entry stands for an untyped the kernel gave.
    pub closed spec fn is_valid(&self) -> bool {
        self.valid
    }

    /// Size bits of the untyped.
    pub closed spec fn spec_size_bits(&self) -> int {
        self.size_bits as int
    }

    /// Capability of the untyped.
    pub closed spec fn spec_cap(&self) -> u64 {
        self.cap
    }
}

/// A handle on one entry of the table, with the capability and size it had
/// when it was handed out.
#[derive(Clone, Copy, Debug)]
pub struct UTWrapper {
    ut: usize,
    cap: u64,
    size_bits: u8,
}

impl UTWrapper {
    /// The entry a wrapper names is a machine-word index.
    pub proof fn lemma_index_fits(&self)
        ensures
            0 <= self.index() <= usize::MAX,
    {
    }

    /// Index of the entry in the table.
    pub closed spec fn index(&self) -> int {
        self.ut as int
    }

    /// Capability of the untyped.
    pub closed spec fn spec_cap(&self) -> u64 {
        self.cap
    }

    /// Size bits of the untyped.
    pub closed spec fn spec_size_bits(&self) -> int {
        self.size_bits as int
    }

    pub fn get_size_bits(&self) -> (r: usize)
        ensures
            r == self.spec_size_bits(),
    {
        self.size_bits as usize
    }

    pub fn get_cap(&self) -> (r: u64)
        ensures
            r == self.spec_cap(),
    {
        self.cap
    }
}

/// A range of physical memory.
#[derive(Clone, Copy, Debug)]
pub struct UTRegion {
    pub start: usize,
    pub end: usize,
}

impl UTRegion {
    pub fn new(start: usize, end: usize) -> (r: Self)
        ensures
            r.start == start,
            r.end == end,
    {
        UTRegion { start: start, end: end }
    }
}

/// The untyped table.
pub struct UTTable {
    first_paddr: usize,
    nodes: Vec<UT>,
    n_table: usize,
    free_untypeds: Vec<Option<usize>>,
    n_4k_untyped: usize,
    free_structures: Option<usize>,
    next_free_vaddr: usize,
    lists: Ghost<Seq<Seq<usize>>>,
    spare: Ghost<Seq<usize>>,
    loc: Ghost<Seq<int>>,
}

/// Successor of position `i` of stack `s`.
pub open spec fn stack_next(s: Seq<usize>, i: int) -> Option<usize> {
    if i + 1 < s.len() {
        Some(s[i + 1])
    } else {
        None
    }
}

/// The top of stack `s`.
pub open spec fn stack_head(s: Seq<usize>) -> Option<usize> {
    if s.len() == 0 {
        None
    } else {
        Some(s[0])
    }
}

/// `s` with `x` pushed on top.
pub open spec fn stack_push(s: Seq<usize>, x: usize) -> Seq<usize> {
    seq![x].add(s)
}

/// Stack `s` starts at `head` and is linked through the `next` fields of
/// `nodes`; its members are exactly the entries located at `k`.
#[verifier::opaque]
spec fn chain_wf(nodes: Seq<UT>, loc: Seq<int>, head: Option<usize>, s: Seq<usize>, k: int) -> bool {
    &&& head == stack_head(s)
    &&& s.no_duplicates()
    &&& forall|i: int|
        0 <= i < s.len() ==> {
            &&& (#[trigger] s[i] as int) < nodes.len()
            &&& loc[s[i] as int] == k
            &&& nodes[s[i] as int].next == stack_next(s, i)
        }
    &&& forall|x: int| 0 <= x < nodes.len() && #[trigger] loc[x] == k ==> s.contains(x as usize)
}

/// A stack stays well formed when the entries outside it keep their links
/// and no entry outside it moves to it.
proof fn lemma_chain_frame(
    n0: Seq<UT>,
    l0: Seq<int>,
    n1: Seq<UT>,
    l1: Seq<int>,
    head: Option<usize>,
    s: Seq<usize>,
    k: int,
)
    requires
        chain_wf(n0, l0, head, s, k),
        n0.len() <= n1.len(),
        l1.len() == n1.len(),
        l0.len() == n0.len(),
        forall|i: int| 0 <= i < s.len() ==> n1[#[trigger] s[i] as int].next == n0[s[i] as int].next,
        forall|y: int| 0 <= y < n1.len() ==> (#[trigger] l1[y] == k) == (y < n0.len() && l0[y] == k),
    ensures
        chain_wf(n1, l1, head, s, k),
{
    reveal(chain_wf);
    assert forall|i: int| 0 <= i < s.len() implies {
        &&& (#[trigger] s[i] as int) < n1.len()
        &&& l1[s[i] as int] == k
        &&& n1[s[i] as int].next == stack_next(s, i)
    } by {
        assert(l0[s[i] as int] == k);
    }
}

/// Pushing an entry that is on no stack.
proof fn lemma_chain_push(
    n0: Seq<UT>,
    l0: Seq<int>,
    n1: Seq<UT>,
    l1: Seq<int>,
    head: Option<usize>,
    s: Seq<usize>,
    k: int,
    x: usize,
)
    requires
        chain_wf(n0, l0, head, s, k),
        (x as int) < n1.len(),
        n0.len() <= n1.len(),
        l0.len() == n0.len(),
        l1.len() == n1.len(),
        x >= n0.len() || l0[x as int] != k,
        n1[x as int].next == head,
        l1[x as int] == k,
        forall|i: int| 0 <= i < s.len() ==> n1[#[trigger] s[i] as int].next == n0[s[i] as int].next,
        forall|y: int|
            0 <= y < n1.len() && y != x ==> (#[trigger] l1[y] == k) == (y < n0.len() && l0[y] == k),
    ensures
        chain_wf(n1, l1, Some(x), stack_push(s, x), k),
{
    reveal(chain_wf);
    let t = stack_push(s, x);
    assert(!s.contains(x)) by {
        if s.contains(x) {
            let j = choose|j: int| 0 <= j < s.len() && s[j] == x;
            assert(l0[s[j] as int] == k);
        }
    }
    assert forall|i: int| 0 <= i < t.len() implies {
        &&& (#[trigger] t[i] as int) < n1.len()
        &&& l1[t[i] as int] == k
        &&& n1[t[i] as int].next == stack_next(t, i)
    } by {
        if i > 0 {
            assert(t[i] == s[i - 1]);
            assert(l0[s[i - 1] as int] == k);
            assert(s[i - 1] != x);
        }
    }
    assert forall|y: int| 0 <= y < n1.len() && #[trigger] l1[y] == k implies t.contains(y as usize) by {
        if y != x {
            assert(s.contains(y as usize));
            let j = choose|j: int| 0 <= j < s.len() && s[j] == y as usize;
            assert(t[j + 1] == y as usize);
        } else {
            assert(t[0] == x);
        }
    }
}

/// Popping the top entry of a stack.
proof fn lemma_chain_pop(n0: Seq<UT>, l0: Seq<int>, l1: Seq<int>, head: Option<usize>, s: Seq<usize>, k: int)
    requires
        chain_wf(n0, l0, head, s, k),
        s.len() > 0,
        l0.len() == n0.len(),
        l1 == l0.update(s[0] as int, no_list()),
        k != no_list(),
        n0.len() <= usize::MAX,
    ensures
        chain_wf(n0, l1, n0[s[0] as int].next, s.drop_first(), k),
        (s[0] as int) < n0.len(),
        l0[s[0] as int] == k,
{
    reveal(chain_wf);
    let t = s.drop_first();
    let x = s[0];
    assert(l0[x as int] == k);
    assert(n0[x as int].next == stack_next(s, 0));
    assert(t.no_duplicates()) by {
        assert forall|i: int, j: int| 0 <= i < t.len() && 0 <= j < t.len() && i != j implies t[i] != t[j] by {
            assert(t[i] == s[i + 1]);
            assert(t[j] == s[j + 1]);
        }
    }
    assert forall|i: int| 0 <= i < t.len() implies {
        &&& (#[trigger] t[i] as int) < n0.len()
        &&& l1[t[i] as int] == k
        &&& n0[t[i] as int].next == stack_next(t, i)
    } by {
        let j = i + 1;
        assert(t[i] == s[j]);
        assert(s[j] != s[0]);
        assert((s[j] as int) < n0.len());
        assert(l0[s[j] as int] == k);
        assert(n0[s[j] as int].next == stack_next(s, j));
    }
    assert forall|y: int| 0 <= y < n0.len() && #[trigger] l1[y] == k implies t.contains(y as usize) by {
        assert(y != x as int);
        assert(l0[y] == k);
        assert(s.contains(y as usize));
        let j = choose|j: int| 0 <= j < s.len() && s[j] == y as usize;
        assert(j != 0);
        assert(t[j - 1] == y as usize);
    }
}

/// Facts about the members of a well-formed stack.
proof fn lemma_chain_facts(nodes: Seq<UT>, loc: Seq<int>, head: Option<usize>, s: Seq<usize>, k: int)
    requires
        chain_wf(nodes, loc, head, s, k),
    ensures
        head == stack_head(s),
        forall|i: int| 0 <= i < s.len() ==> (#[trigger] s[i] as int) < nodes.len() && loc[s[i] as int] == k,
        forall|x: int| 0 <= x < nodes.len() && #[trigger] loc[x] == k ==> s.contains(x as usize),
        s.len() > 0 ==> nodes[s[0] as int].next == stack_next(s, 0),
{
    reveal(chain_wf);
}

impl UTTable {
    /// The table is consistent: every stack is well formed, each entry is on
    /// at most one, the entries on the stack of size `k` have size `k`, and
    /// page-size ones are page entries.
    pub closed spec fn wf(&self) -> bool {
        &&& self.free_untypeds@.len() == N_UNTYPED_LISTS
        &&& self.lists@.len() == N_UNTYPED_LISTS
        &&& self.loc@.len() == self.nodes@.len()
        &&& self.nodes@.len() <= usize::MAX
        &&& self.n_table <= self.nodes@.len()
        &&& self.first_paddr + self.n_table * 4096 <= usize::MAX
        &&& forall|k: int|
            0 <= k < N_UNTYPED_LISTS ==> chain_wf(
                self.nodes@,
                self.loc@,
                #[trigger] self.free_untypeds@[k],
                self.lists@[k],
                k,
            )
        &&& chain_wf(self.nodes@, self.loc@, self.free_structures, self.spare@, spare_list())
        &&& forall|x: int|
            0 <= x < self.nodes@.len() ==> {
                ||| #[trigger] self.loc@[x] == no_list()
                ||| self.loc@[x] == spare_list()
                ||| 0 <= self.loc@[x] < N_UNTYPED_LISTS && self.nodes@[x].size_bits == self.loc@[x]
                    + ENDPOINT_BITS
            }
        &&& forall|x: int|
            0 <= x < self.nodes@.len() && #[trigger] self.loc@[x] == N_UNTYPED_LISTS - 1 ==> x
                < self.n_table
    }

    /// The stack of free untypeds of `size_bits`, top first.
    pub closed spec fn free_list(&self, size_bits: int) -> Seq<usize> {
        self.lists@[size_bits - ENDPOINT_BITS]
    }

    /// The stack of spare entries, top first.
    pub closed spec fn spare_entries(&self) -> Seq<usize> {
        self.spare@
    }

    /// The entries of the table.
    pub closed spec fn entries(&self) -> Seq<UT> {
        self.nodes@
    }

    /// Whether entry `i` is on no stack: handed out, or never made free.
    pub closed spec fn is_off_lists(&self, i: int) -> bool {
        self.loc@[i] == no_list()
    }

    /// Number of page entries.
    pub closed spec fn spec_n_table(&self) -> nat {
        self.n_table as nat
    }

    /// Physical address of the first page entry.
    pub closed spec fn spec_first_paddr(&self) -> int {
        self.first_paddr as int
    }

    /// The virtual address at which the next page of entry storage is mapped.
    pub closed spec fn spec_next_free_vaddr(&self) -> int {
        self.next_free_vaddr as int
    }

    /// Number of page-size untypeds ever added as memory.
    pub closed spec fn spec_n_4k(&self) -> nat {
        self.n_4k_untyped as nat
    }

    /// `w` is a handle on an entry of the table, with its current capability
    /// and size.
    pub closed spec fn wrapper_wf(&self, w: UTWrapper) -> bool {
        &&& (w.ut as int) < self.nodes@.len()
        &&& self.nodes@[w.ut as int].cap == w.cap
        &&& self.nodes@[w.ut as int].size_bits == w.size_bits
    }

    /// All stacks but the one of `size_bits`, and the spare stack, are as in `old`.
    pub open spec fn other_lists_kept(&self, old: &UTTable, size_bits: int) -> bool {
        &&& self.spare_entries() == old.spare_entries()
        &&& forall|s: int|
            ENDPOINT_BITS <= s <= PAGE_BITS && s != size_bits ==> #[trigger] self.free_list(s)
                == old.free_list(s)
    }

    /// Page index of physical address `paddr`.
    pub open spec fn page_index(&self, paddr: int) -> int {
        (paddr - self.spec_first_paddr()) / 4096
    }

    /// A table over the pages of `region`, all of them not yet given by the
    /// kernel, with every stack empty.
    pub fn new(region: UTRegion, next_free_vaddr: usize) -> (t: Self)
        requires
            region.start <= region.end,
        ensures
            t.wf(),
            t.spec_first_paddr() == region.start,
            t.spec_n_table() == (region.end - region.start) / 4096,
            t.entries().len() == t.spec_n_table(),
            forall|i: int| 0 <= i < t.entries().len() ==> !(#[trigger] t.entries()[i]).is_valid(),
            forall|i: int| 0 <= i < t.entries().len() ==> #[trigger] t.is_off_lists(i),
            forall|s: int| ENDPOINT_BITS <= s <= PAGE_BITS ==> #[trigger] t.free_list(s).len() == 0,
            t.spare_entries().len() == 0,
            t.spec_n_4k() == 0,
            t.spec_next_free_vaddr() == next_free_vaddr,
    {
        let n: usize = (region.end - region.start) / 4096;
        let mut nodes: Vec<UT> = Vec::new();
        let blank = UT { cap: 0, valid: false, size_bits: 0, next: None };
        let mut i: usize = 0;
        while i < n
            invariant
                i <= n,
                nodes@.len() == i,
                forall|j: int| 0 <= j < i ==> #[trigger] nodes@[j] == blank,
            decreases n - i,
        {
            nodes.push(blank);
            i += 1;
        }
        let mut heads: Vec<Option<usize>> = Vec::new();
        let mut k: usize = 0;
        while k < N_UNTYPED_LISTS
            invariant
                k <= N_UNTYPED_LISTS,
                heads@.len() == k,
                forall|j: int| 0 <= j < k ==> #[trigger] heads@[j] == None::<usize>,
            decreases N_UNTYPED_LISTS - k,
        {
            heads.push(None);
            k += 1;
        }
        let ghost loc = Seq::new(n as nat, |j: int| no_list());
        let ghost lists = Seq::new(N_UNTYPED_LISTS as nat, |j: int| Seq::<usize>::empty());
        assert(n * 4096 <= region.end - region.start) by (nonlinear_arith)
            requires
                n == (region.end - region.start) / 4096,
                region.start <= region.end,
        ;
        let t = UTTable {
            first_paddr: region.start,
            nodes: nodes,
            n_table: n,
            free_untypeds: heads,
            n_4k_untyped: 0,
            free_structures: None,
            next_free_vaddr: next_free_vaddr,
            lists: Ghost(lists),
            spare: Ghost(Seq::empty()),
            loc: Ghost(loc),
        };
        proof {
            reveal(chain_wf);
            assert forall|kk: int| 0 <= kk < N_UNTYPED_LISTS implies chain_wf(
                t.nodes@,
                t.loc@,
                #[trigger] t.free_untypeds@[kk],
                t.lists@[kk],
                kk,
            ) by {
                reveal(chain_wf);
            }
        }
        t
    }

    /// Index of the page entry of physical address `paddr`.
    fn paddr_to_ut(&self, paddr: usize) -> (r: usize)
        requires
            self.wf(),
            self.spec_first_paddr() <= paddr < self.spec_first_paddr() + self.spec_n_table() * 4096,
        ensures
            r == self.page_index(paddr as int),
            r < self.spec_n_table(),
    {
        let off = paddr - self.first_paddr;
        assert(off / 4096 < self.n_table) by (nonlinear_arith)
            requires
                off < self.n_table * 4096,
        ;
        off / 4096
    }

    /// Physical address of page entry `i`.
    fn ut_to_paddr(&self, i: usize) -> (r: usize)
        requires
            self.wf(),
            i < self.spec_n_table(),
        ensures
            r == i * 4096 + self.spec_first_paddr(),
    {
        assert(i * 4096 <= self.n_table * 4096) by (nonlinear_arith)
            requires
                i < self.n_table,
        ;
        i * 4096 + self.first_paddr
    }

    /// Pushes entry `x`, on no stack, onto stack `k` (or the spare stack).
    fn push_entry(&mut self, k: usize, x: usize)
        requires
            old(self).wf(),
            k <= N_UNTYPED_LISTS,
            (x as int) < old(self).nodes@.len(),
            old(self).loc@[x as int] == no_list(),
            k < N_UNTYPED_LISTS ==> old(self).nodes@[x as int].size_bits == k + ENDPOINT_BITS,
            k == N_UNTYPED_LISTS - 1 ==> x < old(self).n_table,
        ensures
            final(self).wf(),
            final(self).nodes@.len() == old(self).nodes@.len(),
            forall|i: int|
                0 <= i < old(self).nodes@.len() && i != x ==> #[trigger] final(self).nodes@[i]
                    == old(self).nodes@[i],
            final(self).nodes@[x as int].cap == old(self).nodes@[x as int].cap,
            final(self).nodes@[x as int].valid == old(self).nodes@[x as int].valid,
            final(self).nodes@[x as int].size_bits == old(self).nodes@[x as int].size_bits,
            final(self).loc@ == old(self).loc@.update(x as int, k as int),
            k < N_UNTYPED_LISTS ==> final(self).lists@ == old(self).lists@.update(
                k as int,
                stack_push(old(self).lists@[k as int], x),
            ),
            k < N_UNTYPED_LISTS ==> final(self).spare@ == old(self).spare@,
            k == N_UNTYPED_LISTS ==> final(self).spare@ == stack_push(old(self).spare@, x),
            k == N_UNTYPED_LISTS ==> final(self).lists@ == old(self).lists@,
            final(self).n_table == old(self).n_table,
            final(self).first_paddr == old(self).first_paddr,
            final(self).n_4k_untyped == old(self).n_4k_untyped,
            final(self).next_free_vaddr == old(self).next_free_vaddr,
    {
        let ghost n0 = self.nodes@;
        let ghost l0 = self.loc@;
        let head = if k < N_UNTYPED_LISTS {
            self.free_untypeds[k]
        } else {
            self.free_structures
        };
        let mut e = self.nodes[x];
        e.next = head;
        self.nodes.set(x, e);
        let ghost l1 = l0.update(x as int, k as int);
        proof {
            self.loc@ = l1;
        }
        if k < N_UNTYPED_LISTS {
            self.free_untypeds.set(k, Some(x));
            proof {
                let s = self.lists@[k as int];
                self.lists@ = self.lists@.update(k as int, stack_push(s, x));
            }
        } else {
            self.free_structures = Some(x);
            proof {
                self.spare@ = stack_push(self.spare@, x);
            }
        }
        proof {
            let n1 = self.nodes@;
            assert forall|kk: int| 0 <= kk < N_UNTYPED_LISTS implies chain_wf(
                n1,
                l1,
                #[trigger] self.free_untypeds@[kk],
                self.lists@[kk],
                kk,
            ) by {
                assert(chain_wf(n0, l0, old(self).free_untypeds@[kk], old(self).lists@[kk], kk));
                lemma_chain_facts(n0, l0, old(self).free_untypeds@[kk], old(self).lists@[kk], kk);
                if kk == k {
                    lemma_chain_push(n0, l0, n1, l1, head, old(self).lists@[kk], kk, x);
                } else {
                    lemma_chain_frame(n0, l0, n1, l1, self.free_untypeds@[kk], self.lists@[kk], kk);
                }
            }
            lemma_chain_facts(n0, l0, old(self).free_structures, old(self).spare@, spare_list());
            if k == N_UNTYPED_LISTS {
                lemma_chain_push(n0, l0, n1, l1, head, old(self).spare@, spare_list(), x);
            } else {
                lemma_chain_frame(n0, l0, n1, l1, self.free_structures, self.spare@, spare_list());
            }
        }
    }

    /// Pops the top entry of stack `k`, which is not empty.
    fn pop_entry(&mut self, k: usize) -> (x: usize)
        requires
            old(self).wf(),
            k < N_UNTYPED_LISTS,
            old(self).lists@[k as int].len() > 0,
        ensures
            final(self).wf(),
            x == old(self).lists@[k as int][0],
            (x as int) < final(self).nodes@.len(),
            final(self).nodes@ == old(self).nodes@,
            final(self).loc@ == old(self).loc@.update(x as int, no_list()),
            final(self).lists@ == old(self).lists@.update(k as int, old(self).lists@[k as int].drop_first()),
            final(self).spare@ == old(self).spare@,
            final(self).n_table == old(self).n_table,
            final(self).first_paddr == old(self).first_paddr,
            final(self).n_4k_untyped == old(self).n_4k_untyped,
            final(self).next_free_vaddr == old(self).next_free_vaddr,
            old(self).loc@[x as int] == k,
    {
        let ghost n0 = self.nodes@;
        let ghost l0 = self.loc@;
        proof {
            assert(chain_wf(n0, l0, self.free_untypeds@[k as int], self.lists@[k as int], k as int));
            lemma_chain_facts(n0, l0, self.free_untypeds@[k as int], self.lists@[k as int], k as int);
        }
        let x = self.free_untypeds[k].unwrap();
        let next = self.nodes[x].next;
        self.free_untypeds.set(k, next);
        let ghost l1 = l0.update(x as int, no_list());
        proof {
            let s = self.lists@[k as int];
            lemma_chain_pop(n0, l0, l1, old(self).free_untypeds@[k as int], s, k as int);
            self.loc@ = l1;
            self.lists@ = self.lists@.update(k as int, s.drop_first());
            assert forall|kk: int| 0 <= kk < N_UNTYPED_LISTS implies chain_wf(
                n0,
                l1,
                #[trigger] self.free_untypeds@[kk],
                self.lists@[kk],
                kk,
            ) by {
                if kk != k {
                    assert(chain_wf(n0, l0, old(self).free_untypeds@[kk], old(self).lists@[kk], kk));
                    lemma_chain_frame(n0, l0, n0, l1, self.free_untypeds@[kk], self.lists@[kk], kk);
                }
            }
            lemma_chain_frame(n0, l0, n0, l1, self.free_structures, self.spare@, spare_list());
        }
        x
    }

    /// Pops the top spare entry; the spare stack is not empty.
    fn pop_spare(&mut self) -> (x: usize)
        requires
            old(self).wf(),
            old(self).spare@.len() > 0,
        ensures
            final(self).wf(),
            x == old(self).spare@[0],
            (x as int) < final(self).nodes@.len(),
            x >= old(self).n_table || old(self).loc@[x as int] == spare_list(),
            final(self).nodes@ == old(self).nodes@,
            final(self).loc@ == old(self).loc@.update(x as int, no_list()),
            final(self).lists@ == old(self).lists@,
            final(self).spare@ == old(self).spare@.drop_first(),
            final(self).n_table == old(self).n_table,
            final(self).first_paddr == old(self).first_paddr,
            final(self).n_4k_untyped == old(self).n_4k_untyped,
            final(self).next_free_vaddr == old(self).next_free_vaddr,
    {
        let ghost n0 = self.nodes@;
        let ghost l0 = self.loc@;
        proof {
            lemma_chain_facts(n0, l0, self.free_structures, self.spare@, spare_list());
        }
        let x = self.free_structures.unwrap();
        let next = self.nodes[x].next;
        self.free_structures = next;
        let ghost l1 = l0.update(x as int, no_list());
        proof {
            let s = self.spare@;
            lemma_chain_pop(n0, l0, l1, old(self).free_structures, s, spare_list());
            self.loc@ = l1;
            self.spare@ = s.drop_first();
            assert forall|kk: int| 0 <= kk < N_UNTYPED_LISTS implies chain_wf(
                n0,
                l1,
                #[trigger] self.free_untypeds@[kk],
                self.lists@[kk],
                kk,
            ) by {
                assert(chain_wf(n0, l0, old(self).free_untypeds@[kk], old(self).lists@[kk], kk));
                lemma_chain_frame(n0, l0, n0, l1, self.free_untypeds@[kk], self.lists@[kk], kk);
            }
        }
        x
    }

    /// Rewrites entry `x`, keeping its link; its size changes only if it is
    /// on no stack.
    fn update_entry(&mut self, x: usize, cap: u64, valid: bool, size_bits: u8)
        requires
            old(self).wf(),
            (x as int) < old(self).nodes@.len(),
            size_bits == old(self).nodes@[x as int].size_bits || old(self).loc@[x as int] == no_list(),
        ensures
            final(self).wf(),
            final(self).nodes@ == old(self).nodes@.update(
                x as int,
                UT { cap: cap, valid: valid, size_bits: size_bits, next: old(self).nodes@[x as int].next },
            ),
            final(self).loc@ == old(self).loc@,
            final(self).lists@ == old(self).lists@,
            final(self).spare@ == old(self).spare@,
            final(self).free_untypeds@ == old(self).free_untypeds@,
            final(self).n_table == old(self).n_table,
            final(self).first_paddr == old(self).first_paddr,
            final(self).n_4k_untyped == old(self).n_4k_untyped,
            final(self).next_free_vaddr == old(self).next_free_vaddr,
    {
        let ghost n0 = self.nodes@;
        let e = UT { cap: cap, valid: valid, size_bits: size_bits, next: self.nodes[x].next };
        self.nodes.set(x, e);
        proof {
            let n1 = self.nodes@;
            let l = self.loc@;
            assert forall|y: int| 0 <= y < n0.len() implies (#[trigger] n1[y]).next == n0[y].next by {}
            assert forall|kk: int| 0 <= kk < N_UNTYPED_LISTS implies chain_wf(
                n1,
                l,
                #[trigger] self.free_untypeds@[kk],
                self.lists@[kk],
                kk,
            ) by {
                assert(chain_wf(n0, l, old(self).free_untypeds@[kk], old(self).lists@[kk], kk));
                lemma_chain_facts(n0, l, old(self).free_untypeds@[kk], old(self).lists@[kk], kk);
                lemma_chain_frame(n0, l, n1, l, self.free_untypeds@[kk], self.lists@[kk], kk);
            }
            lemma_chain_facts(n0, l, self.free_structures, self.spare@, spare_list());
            lemma_chain_frame(n0, l, n1, l, self.free_structures, self.spare@, spare_list());
        }
    }

    /// Entries `base .. base + n` are set to capabilities `cptr ..`, valid,
    /// and, unless `device`, of page size.
    pub open spec fn range_set(&self, old: &UTTable, base: int, n: int, cptr: int, device: bool) -> bool {
        &&& self.entries().len() == old.entries().len()
        &&& forall|j: int|
            0 <= j < n ==> {
                &&& (#[trigger] self.entries()[base + j]).spec_cap() == cptr + j
                &&& self.entries()[base + j].is_valid()
                &&& self.entries()[base + j].spec_size_bits() == (if device {
                    old.entries()[base + j].spec_size_bits()
                } else {
                    PAGE_BITS as int
                })
            }
        &&& forall|i: int|
            0 <= i < self.entries().len() && !(base <= i < base + n) ==> #[trigger] self.entries()[i]
                == old.entries()[i]
    }

    /// The page entries `base + n - 1` down to `base`, in the order pushing
    /// `base` first leaves them on a stack.
    pub open spec fn pushed_range(base: int, n: int) -> Seq<usize> {
        Seq::new(n as nat, |j: int| (base + n - 1 - j) as usize)
    }

    /// Records `n_pages` pages of untyped memory from physical address
    /// `paddr`, whose capabilities are `cptr, cptr + 1, ...`. Memory pages go
    /// on the stack of free page-size untypeds, the first page deepest;
    /// device pages are only marked valid.
    pub fn add_untyped_range(&mut self, paddr: usize, cptr: usize, n_pages: usize, device: bool)
        requires
            old(self).wf(),
            old(self).spec_first_paddr() <= paddr,
            paddr + n_pages * 4096 <= old(self).spec_first_paddr() + old(self).spec_n_table() * 4096,
            cptr + n_pages <= usize::MAX,
            !device ==> old(self).spec_n_4k() + n_pages <= usize::MAX,
            !device ==> forall|j: int|
                0 <= j < n_pages ==> #[trigger] old(self).is_off_lists(old(self).page_index(paddr as int) + j),
        ensures
            final(self).wf(),
            final(self).range_set(old(self), old(self).page_index(paddr as int), n_pages as int, cptr as int, device),
            final(self).spec_n_table() == old(self).spec_n_table(),
            final(self).spec_first_paddr() == old(self).spec_first_paddr(),
            final(self).spec_next_free_vaddr() == old(self).spec_next_free_vaddr(),
            final(self).spare_entries() == old(self).spare_entries(),
            final(self).other_lists_kept(old(self), PAGE_BITS as int),
            device ==> final(self).free_list(PAGE_BITS as int) == old(self).free_list(PAGE_BITS as int),
            device ==> final(self).spec_n_4k() == old(self).spec_n_4k(),
            !device ==> final(self).free_list(PAGE_BITS as int) == Self::pushed_range(
                old(self).page_index(paddr as int),
                n_pages as int,
            ).add(old(self).free_list(PAGE_BITS as int)),
            !device ==> final(self).spec_n_4k() == old(self).spec_n_4k() + n_pages,
    {
        let ghost base = self.page_index(paddr as int);
        let ghost l0 = self.lists@;
        let mut cp = cptr;
        let mut i: usize = 0;
        proof {
            vstd::arithmetic::div_mod::lemma_fundamental_div_mod((paddr - self.first_paddr) as int, 4096);
            if !device {
                assert forall|j: int| 0 <= j < n_pages implies #[trigger] old(self).loc@[base + j] == no_list() by {
                    assert(old(self).is_off_lists(old(self).page_index(paddr as int) + j));
                }
                assert(Self::pushed_range(base, 0).add(l0[N_UNTYPED_LISTS - 1]) =~= l0[N_UNTYPED_LISTS - 1]);
                assert(l0 =~= l0.update(N_UNTYPED_LISTS - 1, Self::pushed_range(base, 0).add(l0[N_UNTYPED_LISTS - 1])));
            }
        }
        while i < n_pages
            invariant
                old(self).wf(),
                self.wf(),
                i <= n_pages,
                cp == cptr + i,
                cptr + n_pages <= usize::MAX,
                base == old(self).page_index(paddr as int),
                self.first_paddr == old(self).first_paddr,
                self.n_table == old(self).n_table,
                self.next_free_vaddr == old(self).next_free_vaddr,
                self.first_paddr <= paddr,
                paddr + n_pages * 4096 <= self.first_paddr + self.n_table * 4096,
                (paddr - self.first_paddr) as int == base * 4096 + (paddr - self.first_paddr) % 4096,
                self.nodes@.len() == old(self).nodes@.len(),
                self.spare@ == old(self).spare@,
                forall|j: int| 0 <= j < i ==> {
                    &&& (#[trigger] self.nodes@[base + j]).cap == cptr + j
                    &&& self.nodes@[base + j].valid
                    &&& self.nodes@[base + j].size_bits == (if device {
                        old(self).nodes@[base + j].size_bits
                    } else {
                        PAGE_BITS as u8
                    })
                },
                forall|x: int|
                    0 <= x < self.nodes@.len() && !(base <= x < base + i) ==> #[trigger] self.nodes@[x]
                        == old(self).nodes@[x],
                forall|x: int|
                    0 <= x < self.nodes@.len() && !(base <= x < base + i) ==> #[trigger] self.loc@[x]
                        == old(self).loc@[x],
                device ==> self.lists@ == old(self).lists@,
                device ==> self.loc@ == old(self).loc@,
                device ==> self.n_4k_untyped == old(self).n_4k_untyped,
                !device ==> self.n_4k_untyped == old(self).n_4k_untyped + i,
                !device ==> old(self).n_4k_untyped + n_pages <= usize::MAX,
                !device ==> forall|j: int| 0 <= j < n_pages ==> #[trigger] old(self).loc@[base + j] == no_list(),
                !device ==> self.lists@ == old(self).lists@.update(
                    N_UNTYPED_LISTS - 1,
                    Self::pushed_range(base, i as int).add(old(self).lists@[N_UNTYPED_LISTS - 1]),
                ),
            decreases n_pages - i,
        {
            let pa = paddr + i * 4096;
            proof {
                assert(i * 4096 + 4096 <= n_pages * 4096) by (nonlinear_arith)
                    requires i < n_pages;
                vstd::arithmetic::div_mod::lemma_fundamental_div_mod_converse(
                    (pa - self.first_paddr) as int,
                    4096,
                    base + i,
                    (paddr - self.first_paddr) % 4096,
                );
            }
            let node = self.paddr_to_ut(pa);
            assert(node == base + i);
            let ghost n_before = self.nodes@;
            let e = self.nodes[node];
            if device {
                self.update_entry(node, cp as u64, true, e.size_bits);
            } else {
                self.update_entry(node, cp as u64, true, PAGE_BITS as u8);
                self.push_entry(N_UNTYPED_LISTS - 1, node);
                self.n_4k_untyped = self.n_4k_untyped + 1;
                proof {
                    assert(Self::pushed_range(base, i + 1) =~= seq![node].add(Self::pushed_range(base, i as int)));
                    assert(Self::pushed_range(base, i + 1).add(old(self).lists@[N_UNTYPED_LISTS - 1]) =~= stack_push(
                        Self::pushed_range(base, i as int).add(old(self).lists@[N_UNTYPED_LISTS - 1]),
                        node,
                    ));
                    assert(self.lists@ =~= old(self).lists@.update(
                        N_UNTYPED_LISTS - 1,
                        Self::pushed_range(base, i + 1).add(old(self).lists@[N_UNTYPED_LISTS - 1]),
                    ));
                }
            }
            assert forall|j: int| 0 <= j < i implies #[trigger] self.nodes@[base + j] == n_before[base + j] by {}
            assert forall|x: int| 0 <= x < self.nodes@.len() && x != base + i implies #[trigger] self.nodes@[x] == n_before[x] by {}
            cp = cp + 1;
            i = i + 1;
        }
        proof {
            if !device {
                assert(Self::pushed_range(base, n_pages as int).add(l0[N_UNTYPED_LISTS - 1]) == self.lists@[N_UNTYPED_LISTS - 1]);
            }
        }
    }

    /// The two tables differ at most in where the next page of entry storage goes.
    pub closed spec fn agrees_except_vaddr(&self, other: &UTTable) -> bool {
        *self == (UTTable { next_free_vaddr: self.next_free_vaddr, ..*other })
    }

    /// Every entry but `x` keeps its place on or off the stacks.
    pub open spec fn places_kept_except(&self, old: &UTTable, x: int) -> bool {
        forall|i: int| 0 <= i < old.entries().len() && i != x ==> #[trigger] self.is_off_lists(i) == old.is_off_lists(i)
    }

    /// Pops a free untyped of `size_bits` from its stack; fails with
    /// `NotEnoughMemory` when that stack is empty, changing nothing.
    pub fn alloc_from_list(&mut self, size_bits: usize) -> (r: Result<UTWrapper, Sel4Error>)
        requires
            old(self).wf(),
            ENDPOINT_BITS <= size_bits <= PAGE_BITS,
        ensures
            final(self).wf(),
            (old(self).free_list(size_bits as int).len() == 0) == (r is Err),
            r is Err ==> r == Err::<UTWrapper, Sel4Error>(Sel4Error::NotEnoughMemory) && *final(self) == *old(self),
            r matches Ok(w) ==> {
                &&& w.index() == old(self).free_list(size_bits as int)[0]
                &&& w.spec_size_bits() == size_bits
                &&& final(self).wrapper_wf(w)
                &&& final(self).is_off_lists(w.index())
                &&& (size_bits == PAGE_BITS ==> w.index() < final(self).spec_n_table())
                &&& final(self).free_list(size_bits as int) == old(self).free_list(size_bits as int).drop_first()
                &&& final(self).other_lists_kept(old(self), size_bits as int)
                &&& final(self).entries() == old(self).entries()
                &&& final(self).places_kept_except(old(self), w.index())
                &&& final(self).spec_n_table() == old(self).spec_n_table()
                &&& final(self).spec_first_paddr() == old(self).spec_first_paddr()
                &&& final(self).spec_n_4k() == old(self).spec_n_4k()
                &&& final(self).spec_next_free_vaddr() == old(self).spec_next_free_vaddr()
            },
    {
        let k = size_bits - ENDPOINT_BITS;
        proof {
            assert(chain_wf(self.nodes@, self.loc@, self.free_untypeds@[k as int], self.lists@[k as int], k as int));
            lemma_chain_facts(self.nodes@, self.loc@, self.free_untypeds@[k as int], self.lists@[k as int], k as int);
        }
        if self.free_untypeds[k].is_none() {
            return Err(Sel4Error::NotEnoughMemory);
        }
        let x = self.pop_entry(k);
        let e = self.nodes[x];
        let w = UTWrapper { ut: x, cap: e.cap, size_bits: e.size_bits };
        proof {
            assert forall|s: int| ENDPOINT_BITS <= s <= PAGE_BITS && s != size_bits implies #[trigger] self.free_list(s)
                == old(self).free_list(s) by {
                assert(self.lists@[s - ENDPOINT_BITS] == old(self).lists@[s - ENDPOINT_BITS]);
            }
        }
        Ok(w)
    }

    /// Pops a free page-size untyped; returns its physical address too.
    pub fn alloc_4k_untyped(&mut self) -> (r: Result<(usize, UTWrapper), Sel4Error>)
        requires
            old(self).wf(),
        ensures
            final(self).wf(),
            (old(self).free_list(PAGE_BITS as int).len() == 0) == (r is Err),
            r is Err ==> r == Err::<(usize, UTWrapper), Sel4Error>(Sel4Error::NotEnoughMemory) && *final(self)
                == *old(self),
            r matches Ok(p) ==> {
                &&& p.1.index() == old(self).free_list(PAGE_BITS as int)[0]
                &&& p.1.spec_size_bits() == PAGE_BITS
                &&& p.1.index() < final(self).spec_n_table()
                &&& p.0 == p.1.index() * 4096 + final(self).spec_first_paddr()
                &&& final(self).wrapper_wf(p.1)
                &&& final(self).is_off_lists(p.1.index())
                &&& final(self).free_list(PAGE_BITS as int) == old(self).free_list(PAGE_BITS as int).drop_first()
                &&& final(self).other_lists_kept(old(self), PAGE_BITS as int)
                &&& final(self).entries() == old(self).entries()
                &&& final(self).places_kept_except(old(self), p.1.index())
                &&& final(self).spec_n_table() == old(self).spec_n_table()
                &&& final(self).spec_first_paddr() == old(self).spec_first_paddr()
                &&& final(self).spec_n_4k() == old(self).spec_n_4k()
                &&& final(self).spec_next_free_vaddr() == old(self).spec_next_free_vaddr()
            },
    {
        match self.alloc_from_list(PAGE_BITS) {
            Err(e) => Err(e),
            Ok(w) => {
                let pa = self.ut_to_paddr(w.ut);
                Ok((pa, w))
            },
        }
    }

    /// The page entry of device memory at physical address `paddr`; fails
    /// with `InvalidArgument` when the kernel gave no untyped for it.
    pub fn alloc_4k_device(&mut self, paddr: usize) -> (r: Result<UTWrapper, Sel4Error>)
        requires
            old(self).wf(),
            old(self).spec_first_paddr() <= paddr < old(self).spec_first_paddr() + old(self).spec_n_table() * 4096,
        ensures
            *final(self) == *old(self),
            !old(self).entries()[old(self).page_index(paddr as int)].is_valid() ==> r == Err::<UTWrapper, Sel4Error>(
                Sel4Error::InvalidArgument,
            ),
            old(self).entries()[old(self).page_index(paddr as int)].is_valid() ==> (r matches Ok(w) && w.index()
                == old(self).page_index(paddr as int) && final(self).wrapper_wf(w)),
    {
        let i = self.paddr_to_ut(paddr);
        let e = self.nodes[i];
        if !e.valid {
            return Err(Sel4Error::InvalidArgument);
        }
        Ok(UTWrapper { ut: i, cap: e.cap, size_bits: e.size_bits })
    }

    /// Returns untyped `ut` to the stack of its size.
    pub fn free(&mut self, ut: UTWrapper)
        requires
            old(self).wf(),
            old(self).wrapper_wf(ut),
            old(self).is_off_lists(ut.index()),
            ENDPOINT_BITS <= ut.spec_size_bits() <= PAGE_BITS,
            ut.spec_size_bits() == PAGE_BITS ==> ut.index() < old(self).spec_n_table(),
        ensures
            final(self).wf(),
            final(self).free_list(ut.spec_size_bits()) == stack_push(old(self).free_list(ut.spec_size_bits()), ut.index() as usize),
            final(self).other_lists_kept(old(self), ut.spec_size_bits()),
            final(self).entries().len() == old(self).entries().len(),
            forall|i: int| 0 <= i < old(self).entries().len() ==> (#[trigger] final(self).entries()[i]).spec_cap()
                == old(self).entries()[i].spec_cap() && final(self).entries()[i].spec_size_bits()
                == old(self).entries()[i].spec_size_bits() && final(self).entries()[i].is_valid()
                == old(self).entries()[i].is_valid(),
            !final(self).is_off_lists(ut.index()),
            final(self).places_kept_except(old(self), ut.index()),
            final(self).spec_n_table() == old(self).spec_n_table(),
            final(self).spec_first_paddr() == old(self).spec_first_paddr(),
            final(self).spec_n_4k() == old(self).spec_n_4k(),
            final(self).spec_next_free_vaddr() == old(self).spec_next_free_vaddr(),
    {
        let k = ut.size_bits as usize - ENDPOINT_BITS;
        self.push_entry(k, ut.ut);
        proof {
            assert forall|s: int| ENDPOINT_BITS <= s <= PAGE_BITS && s != ut.spec_size_bits() implies #[trigger] self.free_list(s)
                == old(self).free_list(s) by {
                assert(self.lists@[s - ENDPOINT_BITS] == old(self).lists@[s - ENDPOINT_BITS]);
            }
        }
    }

    /// Checks that the table can hand out untypeds of `size_bits`: from
    /// endpoint size to page size.
    pub fn check_alloc_size(size_bits: usize) -> (r: Result<(), Sel4Error>)
        ensures
            (ENDPOINT_BITS <= size_bits <= PAGE_BITS) == (r is Ok),
            r is Err ==> r == Err::<(), Sel4Error>(Sel4Error::InvalidArgument),
    {
        if size_bits > PAGE_BITS {
            return Err(Sel4Error::InvalidArgument);
        }
        if size_bits < ENDPOINT_BITS {
            return Err(Sel4Error::InvalidArgument);
        }
        Ok(())
    }

    /// The smallest size, from `size_bits` up to page size, whose stack is
    /// not empty: the untyped an allocation of `size_bits` is split from.
    /// Fails with `NotEnoughMemory` when all of them are empty.
    pub fn split_source(&self, size_bits: usize) -> (r: Result<usize, Sel4Error>)
        requires
            self.wf(),
            ENDPOINT_BITS <= size_bits <= PAGE_BITS,
        ensures
            r matches Ok(s) ==> size_bits <= s <= PAGE_BITS && self.free_list(s as int).len() > 0 && forall|t: int|
                size_bits <= t < s ==> #[trigger] self.free_list(t).len() == 0,
            r is Err ==> r == Err::<usize, Sel4Error>(Sel4Error::NotEnoughMemory) && forall|t: int|
                size_bits <= t <= PAGE_BITS ==> #[trigger] self.free_list(t).len() == 0,
    {
        let mut s = size_bits;
        while s <= PAGE_BITS
            invariant
                self.wf(),
                size_bits <= s <= PAGE_BITS + 1,
                ENDPOINT_BITS <= size_bits,
                forall|t: int| size_bits <= t < s ==> #[trigger] self.free_list(t).len() == 0,
            decreases PAGE_BITS + 1 - s,
        {
            let k = s - ENDPOINT_BITS;
            proof {
                assert(chain_wf(self.nodes@, self.loc@, self.free_untypeds@[k as int], self.lists@[k as int], k as int));
                lemma_chain_facts(self.nodes@, self.loc@, self.free_untypeds@[k as int], self.lists@[k as int], k as int);
            }
            if self.free_untypeds[k].is_some() {
                return Ok(s);
            }
            s = s + 1;
        }
        Err(Sel4Error::NotEnoughMemory)
    }

    /// Whether fewer than two spare entries are left, too few for a split.
    pub fn needs_new_structures(&self) -> (r: bool)
        requires
            self.wf(),
        ensures
            r == (self.spare_entries().len() < 2),
    {
        proof {
            lemma_chain_facts(self.nodes@, self.loc@, self.free_structures, self.spare@, spare_list());
        }
        match self.free_structures {
            None => true,
            Some(h) => self.nodes[h].next.is_none(),
        }
    }

    /// The virtual address at which the next page of entry storage goes; the
    /// one after it is a page further.
    pub fn take_next_free_vaddr(&mut self) -> (r: usize)
        requires
            old(self).wf(),
            old(self).spec_next_free_vaddr() + 4096 <= usize::MAX,
        ensures
            r == old(self).spec_next_free_vaddr(),
            final(self).spec_next_free_vaddr() == old(self).spec_next_free_vaddr() + 4096,
            final(self).agrees_except_vaddr(old(self)),
            final(self).wf(),
    {
        let prev = self.next_free_vaddr;
        self.next_free_vaddr = prev + 4096;
        prev
    }

    /// The spare entries a page of entry storage adds, in the order they
    /// end up on the spare stack.
    pub open spec fn new_spares(first: int) -> Seq<usize> {
        Seq::new(UT_ENTRIES_PER_PAGE as nat, |j: int| (first + UT_ENTRIES_PER_PAGE - 1 - j) as usize)
    }

    /// Adds a page's worth of fresh entries to the spare stack.
    pub fn add_structures(&mut self)
        requires
            old(self).wf(),
            old(self).entries().len() + UT_ENTRIES_PER_PAGE <= usize::MAX,
        ensures
            final(self).wf(),
            final(self).entries().len() == old(self).entries().len() + UT_ENTRIES_PER_PAGE,
            final(self).entries().subrange(0, old(self).entries().len() as int) == old(self).entries(),
            final(self).spare_entries() == Self::new_spares(old(self).entries().len() as int).add(
                old(self).spare_entries(),
            ),
            forall|s: int| ENDPOINT_BITS <= s <= PAGE_BITS ==> #[trigger] final(self).free_list(s) == old(self).free_list(s),
            forall|i: int| 0 <= i < old(self).entries().len() ==> #[trigger] final(self).is_off_lists(i) == old(self).is_off_lists(i),
            final(self).spec_n_table() == old(self).spec_n_table(),
            final(self).spec_first_paddr() == old(self).spec_first_paddr(),
            final(self).spec_n_4k() == old(self).spec_n_4k(),
            final(self).spec_next_free_vaddr() == old(self).spec_next_free_vaddr(),
    {
        let first = self.nodes.len();
        let mut i: usize = 0;
        proof {
            assert(self.nodes@.subrange(0, first as int) =~= self.nodes@);
            assert(self.loc@.subrange(0, first as int) =~= self.loc@);
            assert(Seq::new(0, |j: int| (first + 0 - 1 - j) as usize).add(self.spare@) =~= self.spare@);
        }
        while i < UT_ENTRIES_PER_PAGE
            invariant
                self.wf(),
                i <= UT_ENTRIES_PER_PAGE,
                first == old(self).nodes@.len(),
                first + UT_ENTRIES_PER_PAGE <= usize::MAX,
                self.nodes@.len() == first + i,
                self.nodes@.subrange(0, first as int) == old(self).nodes@,
                self.loc@.subrange(0, first as int) == old(self).loc@,
                self.lists@ == old(self).lists@,
                self.spare@ == Seq::new(i as nat, |j: int| (first + i - 1 - j) as usize).add(old(self).spare@),
                self.n_table == old(self).n_table,
                self.first_paddr == old(self).first_paddr,
                self.n_4k_untyped == old(self).n_4k_untyped,
                self.next_free_vaddr == old(self).next_free_vaddr,
            decreases UT_ENTRIES_PER_PAGE - i,
        {
            let ghost n0 = self.nodes@;
            let ghost l0 = self.loc@;
            let x = self.nodes.len();
            self.nodes.push(UT { cap: 0, valid: false, size_bits: 0, next: None });
            proof {
                let n1 = self.nodes@;
                let l1 = l0.push(no_list());
                self.loc@ = l1;
                assert forall|kk: int| 0 <= kk < N_UNTYPED_LISTS implies chain_wf(
                    n1,
                    l1,
                    #[trigger] self.free_untypeds@[kk],
                    self.lists@[kk],
                    kk,
                ) by {
                    assert(chain_wf(n0, l0, self.free_untypeds@[kk], self.lists@[kk], kk));
                    lemma_chain_facts(n0, l0, self.free_untypeds@[kk], self.lists@[kk], kk);
                    lemma_chain_frame(n0, l0, n1, l1, self.free_untypeds@[kk], self.lists@[kk], kk);
                }
                lemma_chain_facts(n0, l0, self.free_structures, self.spare@, spare_list());
                lemma_chain_frame(n0, l0, n1, l1, self.free_structures, self.spare@, spare_list());
                assert(n1.subrange(0, first as int) =~= n0.subrange(0, first as int));
                assert(l1.subrange(0, first as int) =~= l0.subrange(0, first as int));
            }
            let ghost sp = self.spare@;
            self.push_entry(N_UNTYPED_LISTS, x);
            proof {
                assert(self.nodes@.subrange(0, first as int) =~= old(self).nodes@);
                assert(self.loc@.subrange(0, first as int) =~= old(self).loc@);
                assert(Seq::new((i + 1) as nat, |j: int| (first + (i + 1) - 1 - j) as usize).add(old(self).spare@)
                    =~= stack_push(sp, x));
            }
            i = i + 1;
        }
        proof {
            assert(Self::new_spares(first as int) =~= Seq::new(UT_ENTRIES_PER_PAGE as nat, |j: int| (first + UT_ENTRIES_PER_PAGE - 1 - j) as usize));
            assert forall|ii: int| 0 <= ii < old(self).entries().len() implies #[trigger] self.is_off_lists(ii) == old(self).is_off_lists(ii) by {
                assert(self.loc@.subrange(0, first as int)[ii] == self.loc@[ii]);
            }
        }
    }

    /// Splits `larger`, an untyped the caller has retyped into two halves
    /// with capabilities `cap1` and `cap2`, using two spare entries: the
    /// first half goes on the free stack of its size, the second is handed
    /// out. Without two spare entries nothing is split: `larger` goes back
    /// on its stack and the call fails with `NotEnoughMemory`.
    pub fn split(&mut self, larger: UTWrapper, cap1: u64, cap2: u64) -> (r: Result<UTWrapper, Sel4Error>)
        requires
            old(self).wf(),
            old(self).wrapper_wf(larger),
            old(self).is_off_lists(larger.index()),
            ENDPOINT_BITS < larger.spec_size_bits() <= PAGE_BITS,
            larger.spec_size_bits() == PAGE_BITS ==> larger.index() < old(self).spec_n_table(),
        ensures
            final(self).wf(),
            final(self).spec_n_table() == old(self).spec_n_table(),
            final(self).spec_first_paddr() == old(self).spec_first_paddr(),
            final(self).spec_n_4k() == old(self).spec_n_4k(),
            final(self).spec_next_free_vaddr() == old(self).spec_next_free_vaddr(),
            (old(self).spare_entries().len() < 2) == (r is Err),
            r is Err ==> {
                &&& r == Err::<UTWrapper, Sel4Error>(Sel4Error::NotEnoughMemory)
                &&& final(self).free_list(larger.spec_size_bits()) == stack_push(
                    old(self).free_list(larger.spec_size_bits()),
                    larger.index() as usize,
                )
                &&& final(self).other_lists_kept(old(self), larger.spec_size_bits())
            },
            r matches Ok(w) ==> {
                let half = larger.spec_size_bits() - 1;
                let new1 = old(self).spare_entries()[0];
                let new2 = old(self).spare_entries()[1];
                &&& w.index() == new2
                &&& w.spec_cap() == cap2
                &&& w.spec_size_bits() == half
                &&& final(self).wrapper_wf(w)
                &&& final(self).is_off_lists(w.index())
                &&& final(self).entries()[new1 as int].spec_cap() == cap1
                &&& final(self).entries()[new1 as int].spec_size_bits() == half
                &&& final(self).spare_entries() == old(self).spare_entries().subrange(2, old(self).spare_entries().len() as int)
                &&& final(self).free_list(half) == stack_push(old(self).free_list(half), new1)
                &&& forall|s: int|
                    ENDPOINT_BITS <= s <= PAGE_BITS && s != half ==> #[trigger] final(self).free_list(s)
                        == old(self).free_list(s)
            },
    {
        let sb = larger.size_bits as usize;
        if self.needs_new_structures() {
            self.free(larger);
            return Err(Sel4Error::NotEnoughMemory);
        }
        let ghost sp = self.spare@;
        let new1 = self.pop_spare();
        let new2 = self.pop_spare();
        let half = sb - 1;
        let e1 = self.nodes[new1];
        self.update_entry(new1, cap1, e1.valid, half as u8);
        let e2 = self.nodes[new2];
        self.update_entry(new2, cap2, e2.valid, half as u8);
        self.push_entry(half - ENDPOINT_BITS, new1);
        proof {
            assert(new1 != new2) by {
                reveal(chain_wf);
                assert(sp.no_duplicates());
            }
            assert(self.spare@ =~= sp.subrange(2, sp.len() as int));
            assert forall|s: int| ENDPOINT_BITS <= s <= PAGE_BITS && s != half implies #[trigger] self.free_list(s)
                == old(self).free_list(s) by {
                assert(self.lists@[s - ENDPOINT_BITS] == old(self).lists@[s - ENDPOINT_BITS]);
            }
        }
        Ok(UTWrapper { ut: new2, cap: cap2, size_bits: half as u8 })
    }
}

/// What allocating an untyped of a given size calls for next.
#[derive(Clone, Copy, Debug)]
pub enum UtAllocAction {
    /// The allocation is done: `ut` has the size asked for and is on no
    /// free list.
    Done { ut: UTWrapper },
    /// The allocation failed with `err`.
    Fail { err: Sel4Error },
    /// `cur`, still too large, can be split only once the table has two
    /// spare entries: a page of entries is to be added, then `alloc_next`
    /// asked again.
    NeedStructures { cur: UTWrapper },
    /// `cur` is to be retyped into two untypeds of `half` size bits, in two
    /// fresh slots whose capabilities go to `alloc_split`.
    Split { cur: UTWrapper, half: usize },
}

/// The untyped an allocation step holds, if any.
pub open spec fn action_ut(r: UtAllocAction) -> Option<UTWrapper> {
    match r {
        UtAllocAction::Done { ut } => Some(ut),
        UtAllocAction::NeedStructures { cur } => Some(cur),
        UtAllocAction::Split { cur, .. } => Some(cur),
        UtAllocAction::Fail { .. } => None,
    }
}

impl UTTable {
    /// `cur` is held by an allocation of `size_bits`: handed out, on no free
    /// list, at least that large.
    pub open spec fn holds_for_alloc(&self, cur: UTWrapper, size_bits: int) -> bool {
        &&& self.wrapper_wf(cur)
        &&& self.is_off_lists(cur.index())
        &&& size_bits <= cur.spec_size_bits() <= PAGE_BITS
        &&& ENDPOINT_BITS <= size_bits
        &&& (cur.spec_size_bits() == PAGE_BITS ==> cur.index() < self.spec_n_table())
    }

    /// What an allocation of `size_bits` holding `cur` calls for: done when
    /// `cur` has the size; else a split, or spare entries first when the
    /// table has fewer than two.
    pub open spec fn alloc_next_spec(&self, cur: UTWrapper, size_bits: int) -> UtAllocAction {
        if cur.spec_size_bits() == size_bits {
            UtAllocAction::Done { ut: cur }
        } else if self.spare_entries().len() < 2 {
            UtAllocAction::NeedStructures { cur: cur }
        } else {
            UtAllocAction::Split { cur: cur, half: (cur.spec_size_bits() - 1) as usize }
        }
    }

    /// The next step of an allocation of `size_bits` that holds `cur`.
    pub fn alloc_next(&self, cur: UTWrapper, size_bits: usize) -> (r: UtAllocAction)
        requires
            self.wf(),
            self.holds_for_alloc(cur, size_bits as int),
        ensures
            r == self.alloc_next_spec(cur, size_bits as int),
    {
        if cur.get_size_bits() == size_bits {
            UtAllocAction::Done { ut: cur }
        } else if self.needs_new_structures() {
            UtAllocAction::NeedStructures { cur: cur }
        } else {
            UtAllocAction::Split { cur: cur, half: cur.get_size_bits() - 1 }
        }
    }

    /// Starts an allocation of an untyped of `size_bits`: fails with
    /// `InvalidArgument` on a size outside endpoint to page size, and with
    /// `NotEnoughMemory` when no free list from that size up holds an
    /// untyped, changing nothing; otherwise takes the first untyped of the
    /// smallest such size and goes on as `alloc_next` says.
    pub fn alloc_start(&mut self, size_bits: usize) -> (r: UtAllocAction)
        requires
            old(self).wf(),
        ensures
            final(self).wf(),
            !(ENDPOINT_BITS <= size_bits <= PAGE_BITS) ==> r == (UtAllocAction::Fail { err: Sel4Error::InvalidArgument })
                && *final(self) == *old(self),
            ENDPOINT_BITS <= size_bits <= PAGE_BITS && (forall|t: int|
                size_bits <= t <= PAGE_BITS ==> #[trigger] old(self).free_list(t).len() == 0) ==> r == (UtAllocAction::Fail {
                err: Sel4Error::NotEnoughMemory,
            }) && *final(self) == *old(self),
            ENDPOINT_BITS <= size_bits <= PAGE_BITS && (exists|t: int|
                size_bits <= t <= PAGE_BITS && #[trigger] old(self).free_list(t).len() > 0) ==> r !is Fail,
            r matches UtAllocAction::Done { ut } ==> final(self).holds_for_alloc(ut, size_bits as int)
                && ut.spec_size_bits() == size_bits,
            r matches UtAllocAction::NeedStructures { cur } ==> final(self).holds_for_alloc(cur, size_bits as int)
                && r == final(self).alloc_next_spec(cur, size_bits as int),
            r matches UtAllocAction::Split { cur, half } ==> final(self).holds_for_alloc(cur, size_bits as int)
                && r == final(self).alloc_next_spec(cur, size_bits as int),
            forall|src: int|
                ENDPOINT_BITS <= size_bits <= src <= PAGE_BITS && #[trigger] old(self).free_list(src).len() > 0 && (
                forall|t: int| size_bits <= t < src ==> #[trigger] old(self).free_list(t).len() == 0) ==> (action_ut(r) matches Some(
                    w,
                ) && w.index() == old(self).free_list(src)[0] && w.spec_size_bits() == src && final(self).free_list(src)
                    == old(self).free_list(src).drop_first()),
            ENDPOINT_BITS <= size_bits <= PAGE_BITS && old(self).free_list(size_bits as int).len() > 0 ==> (r matches UtAllocAction::Done {
                ut,
            } && ut.index() == old(self).free_list(size_bits as int)[0]),
    {
        if Self::check_alloc_size(size_bits).is_err() {
            return UtAllocAction::Fail { err: Sel4Error::InvalidArgument };
        }
        match self.split_source(size_bits) {
            Err(_) => UtAllocAction::Fail { err: Sel4Error::NotEnoughMemory },
            Ok(source) => {
                match self.alloc_from_list(source) {
                    Err(e) => UtAllocAction::Fail { err: e },
                    Ok(cur) => self.alloc_next(cur, size_bits),
                }
            },
        }
    }

    /// Splits `cur`, which `alloc_next` said to split, now that it has been
    /// retyped into the untypeds `cap1` and `cap2`: the first goes to the
    /// free list of the half size, the allocation holds the second, and
    /// goes on as `alloc_next` says.
    pub fn alloc_split(&mut self, cur: UTWrapper, size_bits: usize, cap1: u64, cap2: u64) -> (r: UtAllocAction)
        requires
            old(self).wf(),
            old(self).holds_for_alloc(cur, size_bits as int),
            cur.spec_size_bits() > size_bits,
            old(self).spare_entries().len() >= 2,
        ensures
            final(self).wf(),
            r !is Fail,
            r matches UtAllocAction::Done { ut } ==> final(self).holds_for_alloc(ut, size_bits as int)
                && ut.spec_cap() == cap2 && ut.spec_size_bits() == size_bits,
            r matches UtAllocAction::NeedStructures { cur: c } ==> final(self).holds_for_alloc(c, size_bits as int)
                && c.spec_size_bits() == cur.spec_size_bits() - 1 && r == final(self).alloc_next_spec(c, size_bits as int),
            r matches UtAllocAction::Split { cur: c, half } ==> final(self).holds_for_alloc(c, size_bits as int)
                && c.spec_size_bits() == cur.spec_size_bits() - 1 && r == final(self).alloc_next_spec(c, size_bits as int),
    {
        match self.split(cur, cap1, cap2) {
            Err(e) => UtAllocAction::Fail { err: e },
            Ok(w) => self.alloc_next(w, size_bits),
        }
    }
}

/// A step of the kernel work an allocation calls for, by which it may fail.
#[derive(Clone, Copy, Debug, PartialEq, Eq, Structural)]
pub enum UtAllocStep {
    /// Adding spare entries (`NeedStructures`).
    EnsureStructures,
    /// Allocating the slot of the first half of a split.
    AllocSlot1,
    /// Allocating the slot of the second half.
    AllocSlot2,
    /// Retyping the first half.
    Retype1,
    /// Retyping the second half.
    Retype2,
}

/// What undoes the work of an allocation step that failed.
#[derive(Clone, Copy, Debug, PartialEq, Eq, Structural)]
pub enum UtUndo {
    /// Give the untyped the allocation held back to its free list (`free`).
    FreeHeld,
    /// Delete the capability retyped into the first slot.
    DeleteSlot1,
    /// Give the first slot back to the CSpace.
    FreeSlot1,
    /// Give the second slot back to the CSpace.
    FreeSlot2,
}

/// What undoes an allocation whose step `failed` failed, in order: the
/// untyped it held goes back to its list, then what the split had taken
/// is given back.
pub open spec fn ut_undo_for(failed: UtAllocStep) -> Seq<UtUndo> {
    match failed {
        UtAllocStep::EnsureStructures => seq![UtUndo::FreeHeld],
        UtAllocStep::AllocSlot1 => seq![UtUndo::FreeHeld],
        UtAllocStep::AllocSlot2 => seq![UtUndo::FreeHeld, UtUndo::FreeSlot1],
        UtAllocStep::Retype1 => seq![UtUndo::FreeHeld, UtUndo::FreeSlot1, UtUndo::FreeSlot2],
        UtAllocStep::Retype2 => seq![UtUndo::FreeHeld, UtUndo::DeleteSlot1, UtUndo::FreeSlot1, UtUndo::FreeSlot2],
    }
}

/// What undoes an allocation whose step `failed` failed (see `ut_undo_for`).
pub fn ut_alloc_undo(failed: UtAllocStep) -> (r: Vec<UtUndo>)
    ensures
        r@ == ut_undo_for(failed),
{
    let mut v: Vec<UtUndo> = Vec::new();
    v.push(UtUndo::FreeHeld);
    match failed {
        UtAllocStep::Retype2 => {
            v.push(UtUndo::DeleteSlot1);
            v.push(UtUndo::FreeSlot1);
            v.push(UtUndo::FreeSlot2);
        },
        UtAllocStep::Retype1 => {
            v.push(UtUndo::FreeSlot1);
            v.push(UtUndo::FreeSlot2);
        },
        UtAllocStep::AllocSlot2 => {
            v.push(UtUndo::FreeSlot1);
        },
        _ => {},
    }
    assert(v@ =~= ut_undo_for(failed));
    v
}

/// An untyped freed to a table (its free list gains it on top, as `free`
/// states) is the one the next `alloc_start` of its size takes (the head
/// of that list, as `alloc_start` states), and taking it leaves the list as
/// it was before the free.
pub proof fn law_free_then_alloc(before: UTTable, after_free: UTTable, size_bits: int, x: usize)
    requires
        after_free.free_list(size_bits) == stack_push(before.free_list(size_bits), x),
    ensures
        after_free.free_list(size_bits).len() > 0,
        after_free.free_list(size_bits)[0] == x,
        after_free.free_list(size_bits).drop_first() == before.free_list(size_bits),
{
    assert(stack_push(before.free_list(size_bits), x).drop_first() =~= before.free_list(size_bits));
}

/// Law: when a step of an allocation fails, the untyped it held goes back
/// to its list first, the capability retyped into the first slot is deleted
/// exactly when that retype was done, and each slot is freed exactly when it
/// was allocated; nothing else is undone, and nothing twice.
pub proof fn law_ut_undo_matches_steps_taken(failed: UtAllocStep)
    ensures
        ({
            let undo = ut_undo_for(failed);
            let slot1_taken = failed is AllocSlot2 || failed is Retype1 || failed is Retype2;
            let slot2_taken = failed is Retype1 || failed is Retype2;
            &&& undo.len() > 0 && undo[0] == UtUndo::FreeHeld
            &&& undo.contains(UtUndo::FreeSlot1) <==> slot1_taken
            &&& undo.contains(UtUndo::FreeSlot2) <==> slot2_taken
            &&& undo.contains(UtUndo::DeleteSlot1) <==> failed is Retype2
            &&& undo.no_duplicates()
        }),
{
    let undo = ut_undo_for(failed);
    let h = UtUndo::FreeHeld;
    let d = UtUndo::DeleteSlot1;
    let s1 = UtUndo::FreeSlot1;
    let s2 = UtUndo::FreeSlot2;
    match failed {
        UtAllocStep::EnsureStructures | UtAllocStep::AllocSlot1 => {
            assert(undo =~= seq![h]);
            assert(undo[0] == h);
        },
        UtAllocStep::AllocSlot2 => {
            assert(undo =~= seq![h, s1]);
            assert(undo[0] == h && undo[1] == s1);
        },
        UtAllocStep::Retype1 => {
            assert(undo =~= seq![h, s1, s2]);
            assert(undo[0] == h && undo[1] == s1 && undo[2] == s2);
        },
        UtAllocStep::Retype2 => {
            assert(undo =~= seq![h, d, s1, s2]);
            assert(undo[0] == h && undo[1] == d && undo[2] == s1 && undo[3] == s2);
        },
    }
}

} // verus!
