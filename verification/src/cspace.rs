//! Capability-slot allocation for the root server's CSpace and for the
//! CSpaces of user processes.
//!
//! A one-level CSpace tracks its slots in one bitfield. A two-level CSpace
//! tracks in its top-level bitfield which second-level CNodes are full, and
//! keeps one bitfield per second-level CNode; those live in bottom-level
//! nodes of `BOT_LVL_PER_NODE` CNodes each. Capabilities are held as their
//! capability pointers; the kernel invocations that create CNodes are made
//! by the caller.
#![allow(non_snake_case)]

use vstd::prelude::*;
use vstd::arithmetic::power2::pow2;
use crate::bitfield::{bit_at, clr_bit_spec, first_free, n_bits, set_bit_spec};
use crate::error::Sel4Error;
use crate::page::{BIT, BYTES_TO_4K_PAGES, ceil_div};
use crate::rs_bitfield::{bf_clr_bit, bf_first_free, bf_set_bit};
use crate::util::MASK;

verus! {

/// Size bits of one capability slot.
pub const SLOT_BITS: usize = 5;
/// Size bits of a second-level CNode.
pub const CNODE_SIZE_BITS: usize = 13;
/// Slots a mapping may need for paging structures.
pub const MAPPING_SLOTS: usize = 3;
/// Slots kept in reserve for mappings.
pub const WATERMARK_SLOTS: usize = 4;
/// Bytes taken by the record of one second-level CNode.
pub const BOT_LVL_T_SIZE: usize = 40;
/// Second-level CNodes recorded per bottom-level node.
pub const BOT_LVL_PER_NODE: usize = 97;
/// Size bits of the root server's top-level CNode.
pub const INITIAL_TASK_CNODE_SIZE_BITS: usize = 18;
/// Slots of a second-level CNode.
pub const BOT_LVL_SLOTS: usize = 256;
/// Words of the bitfield of a second-level CNode.
pub const BOT_LVL_BF_WORDS: usize = 4;

/// Slot-index bits of a CNode of `x` size bits.
pub fn CNODE_SLOT_BITS(x: usize) -> (r: usize)
    requires
        x >= 5,
    ensures
        r == x - 5,
{
    x - SLOT_BITS
}

/// Slots of a CNode of `x` size bits.
pub fn CNODE_SLOTS(x: usize) -> (r: usize)
    requires
        5 <= x,
        x - 5 < usize::BITS,
    ensures
        r == pow2((x - 5) as nat),
{
    BIT(CNODE_SLOT_BITS(x))
}

/// Top-level index of a slot of a two-level CSpace.
pub fn TOP_LVL_INDEX(cptr: usize) -> (r: usize)
    ensures
        r == cptr / 256,
{
    assert(cptr >> 8usize == cptr / 256) by (bit_vector);
    cptr >> CNODE_SLOT_BITS(CNODE_SIZE_BITS)
}

/// Index of a slot inside its second-level CNode.
pub fn BOT_LVL_INDEX(cptr: usize) -> (r: usize)
    ensures
        r == cptr % 256,
{
    proof {
        vstd::arithmetic::power2::lemma2_to64();
    }
    let m = MASK(CNODE_SLOT_BITS(CNODE_SIZE_BITS));
    assert(cptr & 255usize == cptr % 256) by (bit_vector);
    cptr & m
}

/// Pages holding the bottom-level nodes of a CSpace of `bits` top-level size bits.
pub fn NUM_BOT_LVL_NODES(bits: usize) -> (r: usize)
    requires
        5 <= bits,
        bits - 5 < usize::BITS,
        40 * pow2((bits - 5) as nat) <= usize::MAX,
    ensures
        r == ceil_div((40 * pow2((bits - 5) as nat)) as int, 4096),
{
    BYTES_TO_4K_PAGES(BOT_LVL_T_SIZE * CNODE_SLOTS(bits))
}

/// Bottom-level node of a slot of a two-level CSpace.
pub fn NODE_INDEX(cptr: usize) -> (r: usize)
    ensures
        r == cptr / 256 / 97,
{
    proof {
        vstd::arithmetic::power2::lemma2_to64();
    }
    cptr / CNODE_SLOTS(CNODE_SIZE_BITS) / BOT_LVL_PER_NODE
}

/// Second-level CNode of a slot within its bottom-level node.
pub fn CNODE_INDEX(cptr: usize) -> (r: usize)
    ensures
        r == cptr / 256 % 97,
{
    proof {
        vstd::arithmetic::power2::lemma2_to64();
    }
    cptr / CNODE_SLOTS(CNODE_SIZE_BITS) % BOT_LVL_PER_NODE
}

/// The record of one second-level CNode: which of its slots are in use.
pub struct BotLvlT {
    pub bf: Vec<u64>,
    pub untyped: u64,
}

/// A bottom-level node: the records of up to `BOT_LVL_PER_NODE` second-level
/// CNodes, of which the first `n_cnodes` exist.
pub struct BotLvlNodeT {
    pub n_cnodes: usize,
    pub untyped: u64,
    pub frame: u64,
    pub cnodes: Vec<BotLvlT>,
}

/// A CSpace and its slot allocator.
pub struct CSpace {
    root_cnode: u64,
    two_level: bool,
    top_lvl_size_bits: usize,
    top_bf: Vec<u64>,
    bot_lvl_nodes: Vec<Option<BotLvlNodeT>>,
    n_bot_lvl_nodes: usize,
    watermark: Vec<usize>,
}

/// The abstract state of a CSpace allocator. `bots` maps the top-level
/// index of every existing second-level CNode to its bitfield.
pub struct CSpaceView {
    pub two_level: bool,
    pub top_lvl_size_bits: nat,
    pub top: Seq<u64>,
    pub bots: Map<int, Seq<u64>>,
    pub watermark: Seq<usize>,
}

/// Slots of the top-level CNode.
pub open spec fn top_slots(v: CSpaceView) -> int {
    pow2((v.top_lvl_size_bits - 5) as nat) as int
}

/// Slots a two-level CSpace covers.
pub open spec fn two_level_slots(v: CSpaceView) -> int {
    pow2((v.top_lvl_size_bits + 8) as nat) as int
}

/// The view is of a CSpace these functions can work on.
pub open spec fn cspace_view_wf(v: CSpaceView) -> bool {
    &&& 5 <= v.top_lvl_size_bits < 24
    &&& v.top.len() * 64 <= usize::MAX
    &&& forall|g: int| #[trigger] v.bots.contains_key(g) ==> v.bots[g].len() == 4
}

/// Whether `alloc_slot` completes on this state: when it must take a slot
/// from a second-level CNode, that CNode exists and has a free slot.
pub open spec fn alloc_allowed(v: CSpaceView) -> bool {
    let t = first_free(v.top);
    &&& t < top_slots(v) ==> t < n_bits(v.top)
    &&& t < top_slots(v) && v.two_level ==> v.bots.contains_key(t) && first_free(v.bots[t]) < n_bits(v.bots[t])
}

/// Whether bit `i` of `used` is set: reserve slot `i` was used up.
pub open spec fn uses_slot(used: usize, i: int) -> bool {
    used & (pow2(i as nat) as usize) != 0
}

/// The lowest reserve slot at or above `i` that `used` marks.
pub open spec fn first_used_from(used: usize, i: int) -> Option<int>
    decreases 4 - i,
{
    if i >= 4 || i < 0 {
        None
    } else if uses_slot(used, i) {
        Some(i)
    } else {
        first_used_from(used, i + 1)
    }
}

/// What `alloc_slot` returns and leaves.
pub open spec fn alloc_result(v: CSpaceView) -> (Result<usize, Sel4Error>, CSpaceView) {
    let t = first_free(v.top);
    if t >= top_slots(v) {
        (Err(Sel4Error::InvalidCapability), v)
    } else if !v.two_level {
        (Ok(t as usize), CSpaceView { top: set_bit_spec(v.top, t), ..v })
    } else {
        let bot = v.bots[t];
        let b = first_free(bot);
        let nb = set_bit_spec(bot, b);
        let top2 = if first_free(nb) >= 255 { set_bit_spec(v.top, t) } else { v.top };
        (Ok((t * 256 + b) as usize), CSpaceView { top: top2, bots: v.bots.insert(t, nb), ..v })
    }
}

/// Whether `free_slot` completes on this state: the bit it clears lies in the bitfield.
pub open spec fn free_allowed(v: CSpaceView, cptr: int) -> bool {
    &&& !v.two_level && cptr != 0 && cptr <= top_slots(v) ==> cptr / 64 < v.top.len()
    &&& v.two_level && cptr != 0 && cptr <= two_level_slots(v) ==> cptr / 256 / 64 < v.top.len()
}

/// What `free_slot` leaves. Slot 0 (the null capability) and slots beyond
/// the CSpace are left alone.
pub open spec fn free_result(v: CSpaceView, cptr: int) -> CSpaceView {
    if cptr == 0 {
        v
    } else if !v.two_level {
        if cptr > top_slots(v) {
            v
        } else {
            CSpaceView { top: clr_bit_spec(v.top, cptr), ..v }
        }
    } else if cptr > two_level_slots(v) {
        v
    } else {
        let g = cptr / 256;
        let top2 = clr_bit_spec(v.top, g);
        if v.bots.contains_key(g) {
            CSpaceView { top: top2, bots: v.bots.insert(g, clr_bit_spec(v.bots[g], cptr % 256)), ..v }
        } else {
            CSpaceView { top: top2, ..v }
        }
    }
}

impl CSpace {
    spec fn node_of(&self, i: int) -> BotLvlNodeT {
        self.bot_lvl_nodes@[i].unwrap()
    }

    spec fn present(&self, g: int) -> bool {
        &&& 0 <= g
        &&& g / 97 < self.n_bot_lvl_nodes
        &&& g % 97 < self.node_of(g / 97).n_cnodes
    }

    /// The internal layout is consistent.
    pub closed spec fn wf(&self) -> bool {
        &&& 5 <= self.top_lvl_size_bits < 24
        &&& self.top_bf@.len() * 64 <= usize::MAX
        &&& self.watermark@.len() == WATERMARK_SLOTS
        &&& self.n_bot_lvl_nodes <= self.bot_lvl_nodes@.len()
        &&& forall|i: int| 0 <= i < self.n_bot_lvl_nodes ==> (#[trigger] self.bot_lvl_nodes@[i]) is Some
        &&& forall|i: int|
            0 <= i < self.bot_lvl_nodes@.len() && (#[trigger] self.bot_lvl_nodes@[i]) is Some ==> {
                let nd = self.bot_lvl_nodes@[i].unwrap();
                &&& nd.cnodes@.len() == BOT_LVL_PER_NODE
                &&& nd.n_cnodes <= BOT_LVL_PER_NODE
                &&& forall|j: int| 0 <= j < BOT_LVL_PER_NODE ==> (#[trigger] nd.cnodes@[j]).bf@.len() == 4
            }
    }

    /// Number of existing second-level CNodes of bottom-level node `i`.
    pub closed spec fn spec_n_cnodes(&self, i: int) -> int {
        self.node_of(i).n_cnodes as int
    }

    /// Bitfield of the record of second-level CNode `j` of bottom-level node `i`.
    pub closed spec fn spec_cnode_bf(&self, i: int, j: int) -> Seq<u64> {
        self.node_of(i).cnodes@[j].bf@
    }

    /// Number of bottom-level nodes set up.
    pub closed spec fn spec_n_bot_lvl_nodes(&self) -> int {
        self.n_bot_lvl_nodes as int
    }

    /// Number of bottom-level nodes there is room for.
    pub closed spec fn spec_node_room(&self) -> int {
        self.bot_lvl_nodes@.len() as int
    }

    /// The capability of the top-level CNode.
    pub closed spec fn spec_root_cnode(&self) -> u64 {
        self.root_cnode
    }

    /// The frame that holds bottom-level node `i`.
    pub closed spec fn spec_node_frame(&self, i: int) -> u64 {
        self.node_of(i).frame
    }

    /// Every well-formed CSpace has a view the allocator's laws speak of.
    pub proof fn lemma_view_wf(&self)
        requires
            self.wf(),
        ensures
            cspace_view_wf(self@),
    {
        assert forall|g: int| #[trigger] self@.bots.contains_key(g) implies self@.bots[g].len() == 4 by {
            assert(self.present(g));
            let i = g / 97;
            assert(0 <= i < self.n_bot_lvl_nodes);
            assert(self.bot_lvl_nodes@[i] is Some);
            let nd = self.bot_lvl_nodes@[i].unwrap();
            assert(0 <= g % 97 < BOT_LVL_PER_NODE);
            assert(nd.cnodes@[g % 97].bf@.len() == 4);
        }
    }
}

impl View for CSpace {
    type V = CSpaceView;

    closed spec fn view(&self) -> CSpaceView {
        CSpaceView {
            two_level: self.two_level,
            top_lvl_size_bits: self.top_lvl_size_bits as nat,
            top: self.top_bf@,
            bots: Map::new(|g: int| self.present(g), |g: int| self.node_of(g / 97).cnodes@[g % 97].bf@),
            watermark: self.watermark@,
        }
    }
}

fn zeroed_words(n: usize) -> (v: Vec<u64>)
    ensures
        v@ == Seq::new(n as nat, |i: int| 0u64),
{
    let mut v: Vec<u64> = Vec::new();
    let mut i: usize = 0;
    while i < n
        invariant
            i <= n,
            v@ == Seq::new(i as nat, |k: int| 0u64),
        decreases n - i,
    {
        v.push(0);
        i += 1;
    }
    v
}

impl CSpace {
    /// A CSpace over the CNode `root_cnode`, with no slot in use and room
    /// for `n_node_slots` bottom-level nodes, none of them set up. The
    /// top-level bitfield covers the root server's top-level CNode.
    pub fn new(root_cnode: u64, two_level: bool, top_lvl_size_bits: usize, n_node_slots: usize) -> (c: Self)
        requires
            5 <= top_lvl_size_bits < 24,
        ensures
            c.wf(),
            c@.two_level == two_level,
            c@.top_lvl_size_bits == top_lvl_size_bits,
            c@.top == Seq::new(128, |i: int| 0u64),
            c@.bots == Map::<int, Seq<u64>>::empty(),
            c@.watermark == Seq::new(4, |i: int| 0usize),
            c.spec_root_cnode() == root_cnode,
    {
        let mut nodes: Vec<Option<BotLvlNodeT>> = Vec::new();
        let mut i: usize = 0;
        while i < n_node_slots
            invariant
                i <= n_node_slots,
                nodes@.len() == i,
                forall|k: int| 0 <= k < i ==> (#[trigger] nodes@[k]) is None,
            decreases n_node_slots - i,
        {
            nodes.push(None);
            i += 1;
        }
        let mut watermark: Vec<usize> = Vec::new();
        watermark.push(0);
        watermark.push(0);
        watermark.push(0);
        watermark.push(0);
        let c = CSpace {
            root_cnode: root_cnode,
            two_level: two_level,
            top_lvl_size_bits: top_lvl_size_bits,
            top_bf: zeroed_words(128),
            bot_lvl_nodes: nodes,
            n_bot_lvl_nodes: 0,
            watermark: watermark,
        };
        assert(c@.bots =~= Map::<int, Seq<u64>>::empty());
        assert(c@.watermark =~= Seq::new(4, |i: int| 0usize));
        c
    }

    /// The CSpace of a user process over the CNode `root_cnode`: one level of
    /// 256 slots, with slot 0 (the null capability) taken.
    pub fn new_user(root_cnode: u64, two_lvl: bool) -> (r: Result<Self, Sel4Error>)
        requires
            !two_lvl,
        ensures
            r matches Ok(c) && c.wf() && c@.two_level == false && c@.top_lvl_size_bits == CNODE_SIZE_BITS
                && c@.top == set_bit_spec(Seq::new(4, |i: int| 0u64), 0) && c@.bots == Map::<int, Seq<u64>>::empty()
                && c.spec_root_cnode() == root_cnode,
    {
        let mut watermark: Vec<usize> = Vec::new();
        watermark.push(0);
        watermark.push(0);
        watermark.push(0);
        watermark.push(0);
        let mut c = CSpace {
            root_cnode: root_cnode,
            two_level: two_lvl,
            top_lvl_size_bits: CNODE_SIZE_BITS,
            top_bf: zeroed_words(BOT_LVL_BF_WORDS),
            bot_lvl_nodes: Vec::new(),
            n_bot_lvl_nodes: 0,
            watermark: watermark,
        };
        proof {
            vstd::arithmetic::power2::lemma2_to64();
            let z = c.top_bf@;
            assert(!bit_at(z, 0)) by {
                assert((0u64 >> 0u64) & 1u64 == 0u64) by (bit_vector);
            }
            crate::bitfield::lemma_first_free_unique(z, 0);
        }
        let slot = c.alloc_slot()?;
        if slot != 0 {
            return Err(Sel4Error::IllegalOperation);
        }
        assert(c@.bots =~= Map::<int, Seq<u64>>::empty());
        Ok(c)
    }

    /// Whether the CSpace has two levels.
    pub fn is_two_level(&self) -> (r: bool)
        ensures
            r == self@.two_level,
    {
        self.two_level
    }

    /// The capability of the top-level CNode.
    pub fn root_cnode(&self) -> (r: u64)
        ensures
            r == self.spec_root_cnode(),
    {
        self.root_cnode
    }

    /// Size bits of the top-level CNode.
    pub fn top_lvl_size_bits(&self) -> (r: usize)
        ensures
            r == self@.top_lvl_size_bits,
    {
        self.top_lvl_size_bits
    }

    /// Number of bottom-level nodes set up.
    pub fn n_bot_lvl_nodes(&self) -> (r: usize)
        requires
            self.wf(),
        ensures
            forall|g: int| #[trigger] self@.bots.contains_key(g) ==> g / 97 < r,
    {
        self.n_bot_lvl_nodes
    }

    /// The top-level bitfield.
    pub fn top_bf(&self) -> (r: &[u64])
        ensures
            r@ == self@.top,
    {
        self.top_bf.as_slice()
    }

    /// Records slot `idx` of the reserve.
    pub fn set_watermark(&mut self, idx: usize, cptr: usize)
        requires
            old(self).wf(),
            idx < WATERMARK_SLOTS,
        ensures
            final(self).wf(),
            final(self)@ == (CSpaceView { watermark: old(self)@.watermark.update(idx as int, cptr), ..old(self)@ }),
            final(self).spec_root_cnode() == old(self).spec_root_cnode(),
    {
        self.watermark[idx] = cptr;
        proof {
            assert(self@.bots =~= old(self)@.bots);
        }
    }

    /// Sets up bottom-level node `i`, held in frame `frame`, with no
    /// second-level CNode yet; the nodes below it must be set up already.
    pub fn init_bot_lvl_node(&mut self, i: usize, frame: u64)
        requires
            old(self).wf(),
            i == old(self).spec_n_bot_lvl_nodes(),
            i < old(self).spec_node_room(),
        ensures
            final(self).wf(),
            final(self)@ == old(self)@,
            final(self).spec_n_bot_lvl_nodes() == i + 1,
            final(self).spec_node_room() == old(self).spec_node_room(),
            final(self).spec_n_cnodes(i as int) == 0,
            final(self).spec_node_frame(i as int) == frame,
            forall|j: int| 0 <= j < BOT_LVL_PER_NODE ==> final(self).spec_cnode_bf(i as int, j) == Seq::new(4, |k: int| 0u64),
            final(self).spec_root_cnode() == old(self).spec_root_cnode(),
    {
        let mut cnodes: Vec<BotLvlT> = Vec::new();
        let mut j: usize = 0;
        while j < BOT_LVL_PER_NODE
            invariant
                j <= BOT_LVL_PER_NODE,
                cnodes@.len() == j,
                forall|k: int| 0 <= k < j ==> (#[trigger] cnodes@[k]).bf@ == Seq::new(4, |q: int| 0u64),
            decreases BOT_LVL_PER_NODE - j,
        {
            cnodes.push(BotLvlT { bf: zeroed_words(BOT_LVL_BF_WORDS), untyped: 0 });
            j += 1;
        }
        let room = self.bot_lvl_nodes.len();
        self.bot_lvl_nodes[i] = Some(BotLvlNodeT { n_cnodes: 0, untyped: 0, frame: frame, cnodes: cnodes });
        self.n_bot_lvl_nodes = i + 1;
        proof {
            assert forall|g: int| self.present(g) == old(self).present(g) by {
                if 0 <= g && g / 97 == i as int {
                    assert(!old(self).present(g));
                }
            }
            assert(self@.bots =~= old(self)@.bots);
        }
    }

    /// Makes the next second-level CNode of bottom-level node `i` exist.
    pub fn add_bot_lvl_cnode(&mut self, i: usize)
        requires
            old(self).wf(),
            i < old(self).spec_n_bot_lvl_nodes(),
            old(self).spec_n_cnodes(i as int) < BOT_LVL_PER_NODE,
        ensures
            final(self).wf(),
            final(self)@.bots == old(self)@.bots.insert(
                i * 97 + old(self).spec_n_cnodes(i as int),
                old(self).spec_cnode_bf(i as int, old(self).spec_n_cnodes(i as int)),
            ),
            final(self).spec_n_bot_lvl_nodes() == old(self).spec_n_bot_lvl_nodes(),
            final(self).spec_node_room() == old(self).spec_node_room(),
            final(self).spec_n_cnodes(i as int) == old(self).spec_n_cnodes(i as int) + 1,
            forall|k: int| 0 <= k < old(self).spec_n_bot_lvl_nodes() && k != i ==> #[trigger] final(self).spec_n_cnodes(k)
                == old(self).spec_n_cnodes(k),
            forall|k: int, j: int|
                0 <= k < old(self).spec_n_bot_lvl_nodes() && 0 <= j < BOT_LVL_PER_NODE ==> #[trigger] final(self).spec_cnode_bf(k, j)
                    == old(self).spec_cnode_bf(k, j),
            final(self)@.top == old(self)@.top,
            final(self)@.two_level == old(self)@.two_level,
            final(self)@.top_lvl_size_bits == old(self)@.top_lvl_size_bits,
            final(self)@.watermark == old(self)@.watermark,
            final(self).spec_root_cnode() == old(self).spec_root_cnode(),
    {
        let mut slot: Option<BotLvlNodeT> = None;
        std::mem::swap(&mut slot, &mut self.bot_lvl_nodes[i]);
        let mut nd = slot.unwrap();
        nd.n_cnodes = nd.n_cnodes + 1;
        self.bot_lvl_nodes[i] = Some(nd);
        proof {
            let n0 = old(self).node_of(i as int).n_cnodes as int;
            let key = i * 97 + n0;
            assert(key / 97 == i as int && key % 97 == n0);
            assert forall|g: int| #[trigger] self.present(g) == (old(self).present(g) || g == key) by {
                if 0 <= g && g / 97 == i as int {
                    assert(g == (g / 97) * 97 + g % 97);
                }
            }
            assert(self@.bots =~= old(self)@.bots.insert(key, old(self).node_of(i as int).cnodes@[n0].bf@));
        }
    }

    fn bot_first_free(&self, g: usize) -> (r: usize)
        requires
            self.wf(),
            self@.bots.contains_key(g as int),
        ensures
            r == first_free(self@.bots[g as int]),
    {
        let node = g / BOT_LVL_PER_NODE;
        let cnode = g % BOT_LVL_PER_NODE;
        match &self.bot_lvl_nodes[node] {
            Some(nd) => bf_first_free(nd.cnodes[cnode].bf.as_slice()),
            None => 0,
        }
    }

    fn bot_update_bit(&mut self, g: usize, bit: usize, set: bool)
        requires
            old(self).wf(),
            old(self)@.bots.contains_key(g as int),
            bit < 256,
        ensures
            final(self).wf(),
            final(self)@ == (CSpaceView {
                bots: old(self)@.bots.insert(
                    g as int,
                    if set {
                        set_bit_spec(old(self)@.bots[g as int], bit as int)
                    } else {
                        clr_bit_spec(old(self)@.bots[g as int], bit as int)
                    },
                ),
                ..old(self)@
            }),
            final(self).spec_root_cnode() == old(self).spec_root_cnode(),
            final(self).spec_n_bot_lvl_nodes() == old(self).spec_n_bot_lvl_nodes(),
            final(self).spec_node_room() == old(self).spec_node_room(),
            forall|k: int| 0 <= k < old(self).spec_n_bot_lvl_nodes() ==> #[trigger] final(self).spec_n_cnodes(k)
                == old(self).spec_n_cnodes(k),
            forall|k: int, j: int|
                0 <= k < old(self).spec_n_bot_lvl_nodes() && 0 <= j < BOT_LVL_PER_NODE && k * 97 + j != g ==> #[trigger] final(self).spec_cnode_bf(k, j)
                    == old(self).spec_cnode_bf(k, j),
    {
        let node = g / BOT_LVL_PER_NODE;
        let cnode = g % BOT_LVL_PER_NODE;
        let mut slot: Option<BotLvlNodeT> = None;
        std::mem::swap(&mut slot, &mut self.bot_lvl_nodes[node]);
        let mut nd = slot.unwrap();
        let mut rec = BotLvlT { bf: Vec::new(), untyped: 0 };
        std::mem::swap(&mut rec, &mut nd.cnodes[cnode]);
        if set {
            bf_set_bit(rec.bf.as_mut_slice(), bit);
        } else {
            bf_clr_bit(rec.bf.as_mut_slice(), bit);
        }
        nd.cnodes[cnode] = rec;
        self.bot_lvl_nodes[node] = Some(nd);
        proof {
            let nb = if set {
                set_bit_spec(old(self)@.bots[g as int], bit as int)
            } else {
                clr_bit_spec(old(self)@.bots[g as int], bit as int)
            };
            assert forall|h: int| #[trigger] self.present(h) == old(self).present(h) by {}
            assert(self@.bots =~= old(self)@.bots.insert(g as int, nb)) by {
                assert forall|h: int| self@.bots.contains_key(h) implies self@.bots[h] == old(self)@.bots.insert(g as int, nb)[h] by {
                    if h != g as int && h / 97 == node as int {
                        assert(h % 97 != cnode as int);
                    }
                }
            }
        }
    }
}

/// `bf` with its lowest `k` bits set.
pub open spec fn low_bits_set(bf: Seq<u64>, k: nat) -> Seq<u64>
    decreases k,
{
    if k == 0 {
        bf
    } else {
        set_bit_spec(low_bits_set(bf, (k - 1) as nat), k - 1)
    }
}

proof fn lemma_low_bits_len(bf: Seq<u64>, k: nat)
    requires
        k <= bf.len() * 64,
    ensures
        low_bits_set(bf, k).len() == bf.len(),
    decreases k,
{
    if k > 0 {
        lemma_low_bits_len(bf, (k - 1) as nat);
    }
}

/// The bitfield of a second-level CNode with no slot in use.
pub open spec fn empty_cnode_bf() -> Seq<u64> {
    Seq::new(4, |q: int| 0u64)
}

/// The bitfield the bootstrap leaves for second-level CNode `h` when the
/// slots below `first_free_slot` are in use: full below the CNode of that
/// slot, its lower slots in that CNode, empty above.
pub open spec fn bootstrap_cnode_bf(h: int, first_free_slot: int) -> Seq<u64> {
    if h < first_free_slot / 256 {
        low_bits_set(empty_cnode_bf(), 256)
    } else if h == first_free_slot / 256 {
        low_bits_set(empty_cnode_bf(), (first_free_slot % 256) as nat)
    } else {
        empty_cnode_bf()
    }
}

/// Second-level CNodes of bottom-level node `i` that exist once the first
/// `g` CNodes do.
pub open spec fn cnodes_of_node(i: int, g: int) -> int {
    if g <= i * 97 {
        0
    } else if g >= i * 97 + 97 {
        97
    } else {
        g - i * 97
    }
}

impl CSpace {
    /// Sets the lowest `k` slots of second-level CNode `g` in use.
    fn set_low_bits(&mut self, g: usize, k: usize)
        requires
            old(self).wf(),
            old(self)@.bots.contains_key(g as int),
            k <= 256,
        ensures
            final(self).wf(),
            final(self)@ == (CSpaceView {
                bots: old(self)@.bots.insert(g as int, low_bits_set(old(self)@.bots[g as int], k as nat)),
                ..old(self)@
            }),
            final(self).spec_root_cnode() == old(self).spec_root_cnode(),
            final(self).spec_n_bot_lvl_nodes() == old(self).spec_n_bot_lvl_nodes(),
            final(self).spec_node_room() == old(self).spec_node_room(),
            forall|i: int| 0 <= i < old(self).spec_n_bot_lvl_nodes() ==> #[trigger] final(self).spec_n_cnodes(i)
                == old(self).spec_n_cnodes(i),
            forall|i: int, j: int|
                0 <= i < old(self).spec_n_bot_lvl_nodes() && 0 <= j < BOT_LVL_PER_NODE && i * 97 + j != g ==> #[trigger] final(self).spec_cnode_bf(i, j)
                    == old(self).spec_cnode_bf(i, j),
    {
        let ghost v0 = self@;
        let mut b: usize = 0;
        proof {
            assert(v0.bots.insert(g as int, low_bits_set(v0.bots[g as int], 0)) =~= v0.bots);
        }
        while b < k
            invariant
                b <= k <= 256,
                self.wf(),
                v0 == old(self)@,
                self@ == (CSpaceView { bots: v0.bots.insert(g as int, low_bits_set(v0.bots[g as int], b as nat)), ..v0 }),
                self.spec_root_cnode() == old(self).spec_root_cnode(),
                self.spec_n_bot_lvl_nodes() == old(self).spec_n_bot_lvl_nodes(),
                self.spec_node_room() == old(self).spec_node_room(),
                forall|i: int| 0 <= i < old(self).spec_n_bot_lvl_nodes() ==> #[trigger] self.spec_n_cnodes(i)
                    == old(self).spec_n_cnodes(i),
                forall|i: int, j: int|
                    0 <= i < old(self).spec_n_bot_lvl_nodes() && 0 <= j < BOT_LVL_PER_NODE && i * 97 + j != g ==> #[trigger] self.spec_cnode_bf(i, j)
                        == old(self).spec_cnode_bf(i, j),
            decreases k - b,
        {
            self.bot_update_bit(g, b, true);
            proof {
                assert(self@.bots =~= v0.bots.insert(g as int, low_bits_set(v0.bots[g as int], (b + 1) as nat)));
            }
            b += 1;
        }
        proof {
            if k == 0 {
                assert(self@.bots =~= v0.bots.insert(g as int, low_bits_set(v0.bots[g as int], 0)));
            }
        }
    }

    /// Records the slots below `first_free_slot`, used while bootstrapping,
    /// in a two-level CSpace whose first `n_cnodes` second-level CNodes are
    /// to exist: every CNode below the one of that slot is full (and marked
    /// so in the top level), that one has its lower slots in use, and the
    /// CNodes above it exist with none in use. The bottom-level nodes are set
    /// up, with no CNode yet.
    pub fn record_bootstrap_slots(&mut self, first_free_slot: usize, n_cnodes: usize)
        requires
            old(self).wf(),
            old(self)@.two_level,
            old(self)@.bots == Map::<int, Seq<u64>>::empty(),
            forall|i: int, j: int| 0 <= i < old(self).spec_n_bot_lvl_nodes() && 0 <= j < BOT_LVL_PER_NODE ==> #[trigger] old(self).spec_cnode_bf(i, j)
                == empty_cnode_bf(),
            first_free_slot / 256 < n_cnodes,
            n_cnodes <= old(self).spec_n_bot_lvl_nodes() * 97,
            n_cnodes <= n_bits(old(self)@.top),
        ensures
            final(self).wf(),
            final(self)@.two_level == old(self)@.two_level,
            final(self)@.top_lvl_size_bits == old(self)@.top_lvl_size_bits,
            final(self)@.watermark == old(self)@.watermark,
            final(self).spec_root_cnode() == old(self).spec_root_cnode(),
            final(self).spec_n_bot_lvl_nodes() == old(self).spec_n_bot_lvl_nodes(),
            final(self)@.top == low_bits_set(old(self)@.top, (first_free_slot / 256) as nat),
            forall|h: int| #[trigger] final(self)@.bots.contains_key(h) <==> 0 <= h < n_cnodes,
            forall|h: int| 0 <= h < n_cnodes ==> #[trigger] final(self)@.bots[h] == bootstrap_cnode_bf(h, first_free_slot as int),
    {
        let ghost v0 = self@;
        let full = first_free_slot / 256;
        let part = first_free_slot % 256;
        proof {
            vstd::arithmetic::power2::lemma2_to64();
            assert forall|i: int| 0 <= i < self.spec_n_bot_lvl_nodes() implies #[trigger] self.spec_n_cnodes(i) == 0 by {
                if self.spec_n_cnodes(i) > 0 {
                    assert(self.present(i * 97));
                    assert(self@.bots.contains_key(i * 97));
                }
            }
            assert(low_bits_set(v0.top, 0) == v0.top);
        }
        let mut g: usize = 0;
        while g < n_cnodes
            invariant
                g <= n_cnodes,
                full == first_free_slot / 256,
                part == first_free_slot % 256,
                full < n_cnodes <= self.spec_n_bot_lvl_nodes() * 97,
                n_cnodes <= n_bits(v0.top),
                v0 == old(self)@,
                self.wf(),
                self@.two_level == v0.two_level,
                self@.top_lvl_size_bits == v0.top_lvl_size_bits,
                self@.watermark == v0.watermark,
                self.spec_root_cnode() == old(self).spec_root_cnode(),
                self.spec_n_bot_lvl_nodes() == old(self).spec_n_bot_lvl_nodes(),
                self.spec_node_room() == old(self).spec_node_room(),
                forall|i: int| 0 <= i < self.spec_n_bot_lvl_nodes() ==> #[trigger] self.spec_n_cnodes(i) == cnodes_of_node(i, g as int),
                forall|i: int, j: int|
                    0 <= i < self.spec_n_bot_lvl_nodes() && 0 <= j < BOT_LVL_PER_NODE && i * 97 + j >= g ==> #[trigger] self.spec_cnode_bf(i, j)
                        == empty_cnode_bf(),
                forall|h: int| #[trigger] self@.bots.contains_key(h) <==> 0 <= h < g,
                forall|h: int| 0 <= h < g ==> #[trigger] self@.bots[h] == bootstrap_cnode_bf(h, first_free_slot as int),
                self@.top == low_bits_set(v0.top, (if g < full { g } else { full }) as nat),
                self@.top.len() == v0.top.len(),
            decreases n_cnodes - g,
        {
            let node = g / BOT_LVL_PER_NODE;
            proof {
                assert(self.spec_n_cnodes(node as int) == g % 97);
            }
            let ghost before = self@;
            self.add_bot_lvl_cnode(node);
            proof {
                assert(node * 97 + g % 97 == g);
                assert(self@.bots[g as int] == empty_cnode_bf());
                assert forall|i: int| 0 <= i < self.spec_n_bot_lvl_nodes() implies #[trigger] self.spec_n_cnodes(i)
                    == cnodes_of_node(i, g + 1) by {
                    if i != node {
                        if i < node {
                            assert(g >= i * 97 + 97);
                        } else {
                            assert(g + 1 <= i * 97);
                        }
                    }
                }
            }
            if g < full {
                self.set_low_bits(g, 256);
                let ghost mid = self@;
                let ghost pre = *self;
                proof {
                    lemma_low_bits_len(v0.top, g as nat);
                }
                bf_set_bit(self.top_bf.as_mut_slice(), g);
                proof {
                    assert(self.bot_lvl_nodes@ == pre.bot_lvl_nodes@);
                    assert(self@.bots =~= mid.bots);
                    assert forall|i: int| 0 <= i < self.spec_n_bot_lvl_nodes() implies #[trigger] self.spec_n_cnodes(i)
                        == pre.spec_n_cnodes(i) by {}
                    assert forall|i: int, j: int| 0 <= i < self.spec_n_bot_lvl_nodes() && 0 <= j < BOT_LVL_PER_NODE implies #[trigger] self.spec_cnode_bf(i, j)
                        == pre.spec_cnode_bf(i, j) by {}
                }
            } else if g == full {
                self.set_low_bits(g, part);
            }
            proof {
                assert forall|h: int| 0 <= h < g + 1 implies #[trigger] self@.bots[h] == bootstrap_cnode_bf(
                    h,
                    first_free_slot as int,
                ) by {
                    if h < g {
                        assert(before.bots[h] == bootstrap_cnode_bf(h, first_free_slot as int));
                    }
                }
                assert forall|h: int| #[trigger] self@.bots.contains_key(h) <==> 0 <= h < g + 1 by {}
            }
            g += 1;
        }
    }
}

impl CSpace {
    /// Whether `alloc_slot` can run on this CSpace (`alloc_allowed`): the
    /// slot it would take lies in the bitfields kept.
    pub fn alloc_slot_allowed(&self) -> (r: bool)
        requires
            self.wf(),
        ensures
            r == alloc_allowed(self@),
    {
        let t = bf_first_free(self.top_bf.as_slice());
        let slots = CNODE_SLOTS(self.top_lvl_size_bits);
        if t >= slots {
            return true;
        }
        if t >= self.top_bf.len() * 64 {
            return false;
        }
        if !self.two_level {
            return true;
        }
        let node = t / BOT_LVL_PER_NODE;
        if node >= self.n_bot_lvl_nodes {
            assert(!self@.bots.contains_key(t as int));
            return false;
        }
        if t % BOT_LVL_PER_NODE >= self.node_n_cnodes(node) {
            assert(!self@.bots.contains_key(t as int));
            return false;
        }
        assert(self@.bots.contains_key(t as int));
        proof {
            self.lemma_view_wf();
        }
        self.bot_first_free(t) < 256
    }

    /// Whether `free_slot` can run on this CSpace for `cptr`
    /// (`free_allowed`): the bit it clears lies in the top-level bitfield.
    pub fn free_slot_allowed(&self, cptr: usize) -> (r: bool)
        requires
            self.wf(),
        ensures
            r == free_allowed(self@, cptr as int),
    {
        if cptr == 0 {
            return true;
        }
        if !self.two_level {
            if cptr > CNODE_SLOTS(self.top_lvl_size_bits) {
                return true;
            }
            cptr / 64 < self.top_bf.len()
        } else {
            if cptr > CNODE_SLOTS(CNODE_SIZE_BITS + self.top_lvl_size_bits) {
                return true;
            }
            cptr / 256 / 64 < self.top_bf.len()
        }
    }
}

impl CSpace {
    fn node_n_cnodes(&self, node: usize) -> (r: usize)
        requires
            self.wf(),
            node < self.n_bot_lvl_nodes,
        ensures
            r == self.node_of(node as int).n_cnodes,
    {
        match &self.bot_lvl_nodes[node] {
            Some(nd) => nd.n_cnodes,
            None => 0,
        }
    }

    /// Takes a free slot. A two-level CSpace takes it from the first
    /// second-level CNode that is not full, and marks that CNode full in the
    /// top level when at most its last slot is left free.
    pub fn alloc_slot(&mut self) -> (r: Result<usize, Sel4Error>)
        requires
            old(self).wf(),
            alloc_allowed(old(self)@),
        ensures
            final(self).wf(),
            r == alloc_result(old(self)@).0,
            final(self)@ == alloc_result(old(self)@).1,
            final(self).spec_root_cnode() == old(self).spec_root_cnode(),
    {
        let top_index = bf_first_free(self.top_bf.as_slice());
        let slots = CNODE_SLOTS(self.top_lvl_size_bits);
        if self.two_level && top_index > slots || top_index >= slots {
            return Err(Sel4Error::InvalidCapability);
        }
        proof {
            vstd::arithmetic::power2::lemma_pow2_strictly_increases((self.top_lvl_size_bits - 5) as nat, 19);
            vstd::arithmetic::power2::lemma2_to64();
        }
        let mut cptr = top_index;
        if self.two_level {
            assert(cptr << 8usize == cptr * 256) by (bit_vector)
                requires
                    cptr < 0x80000,
            ;
            cptr = cptr << CNODE_SLOT_BITS(CNODE_SIZE_BITS);
            let bot_index = self.bot_first_free(top_index);
            self.bot_update_bit(top_index, bot_index, true);
            if self.bot_first_free(top_index) >= CNODE_SLOTS(CNODE_SIZE_BITS) - 1 {
                bf_set_bit(self.top_bf.as_mut_slice(), top_index);
            }
            cptr = cptr + bot_index;
        } else {
            bf_set_bit(self.top_bf.as_mut_slice(), top_index);
        }
        proof {
            assert(self@.bots =~= alloc_result(old(self)@).1.bots);
        }
        Ok(cptr)
    }

    /// Returns slot `cptr`. Slot 0 and slots beyond the CSpace are left
    /// alone; in a two-level CSpace the slot's CNode is marked not full,
    /// and the slot is cleared in it when that CNode exists.
    pub fn free_slot(&mut self, cptr: usize)
        requires
            old(self).wf(),
            free_allowed(old(self)@, cptr as int),
        ensures
            final(self).wf(),
            final(self)@ == free_result(old(self)@, cptr as int),
            final(self).spec_root_cnode() == old(self).spec_root_cnode(),
    {
        if cptr == 0 {
            return;
        }
        if !self.two_level {
            if cptr > CNODE_SLOTS(self.top_lvl_size_bits) {
                return;
            }
            bf_clr_bit(self.top_bf.as_mut_slice(), cptr);
            proof {
                assert(self@.bots =~= old(self)@.bots);
            }
        } else {
            if cptr > CNODE_SLOTS(CNODE_SIZE_BITS + self.top_lvl_size_bits) {
                return;
            }
            let g = TOP_LVL_INDEX(cptr);
            bf_clr_bit(self.top_bf.as_mut_slice(), g);
            proof {
                assert(self@.bots =~= old(self)@.bots);
            }
            let node = NODE_INDEX(cptr);
            if self.n_bot_lvl_nodes > node {
                let cnode = CNODE_INDEX(cptr);
                if self.node_n_cnodes(node) > cnode {
                    assert(self@.bots.contains_key(g as int));
                    self.bot_update_bit(g, BOT_LVL_INDEX(cptr), false);
                } else {
                    assert(!self@.bots.contains_key(g as int));
                }
            } else {
                assert(!self@.bots.contains_key(g as int));
            }
        }
    }

    /// Takes a slot for the lowest reserve slot that `used` marks, if any,
    /// and records it there.
    pub fn refill_watermark(&mut self, used: usize) -> (r: Result<(), Sel4Error>)
        requires
            old(self).wf(),
            alloc_allowed(old(self)@),
        ensures
            final(self).wf(),
            final(self).spec_root_cnode() == old(self).spec_root_cnode(),
            first_used_from(used, 0) is None ==> r is Ok && final(self)@ == old(self)@,
            first_used_from(used, 0) matches Some(i) ==> match alloc_result(old(self)@).0 {
                Ok(c) => r is Ok && final(self)@ == (CSpaceView {
                    watermark: alloc_result(old(self)@).1.watermark.update(i, c),
                    ..alloc_result(old(self)@).1
                }),
                Err(e) => r == Err::<(), Sel4Error>(e) && final(self)@ == old(self)@,
            },
    {
        let mut i: usize = 0;
        while i < WATERMARK_SLOTS
            invariant
                i <= WATERMARK_SLOTS,
                first_used_from(used, 0) == first_used_from(used, i as int),
                self@ == old(self)@,
                alloc_allowed(old(self)@),
                self.wf(),
                self.spec_root_cnode() == old(self).spec_root_cnode(),
            decreases WATERMARK_SLOTS - i,
        {
            if used & BIT(i) != 0 {
                let slot = self.alloc_slot()?;
                self.set_watermark(i, slot);
                return Ok(());
            }
            i += 1;
        }
        Ok(())
    }
}

/// Law: a slot taken by `alloc_slot` was free and is in use after; handing
/// it back with `free_slot` restores the allocator exactly, so the next
/// `alloc_slot` gives the same slot again. Slot 0 is the exception: it is
/// never handed back.
pub proof fn law_alloc_free_roundtrip(v: CSpaceView)
    requires
        cspace_view_wf(v),
        alloc_allowed(v),
        alloc_result(v).0 is Ok,
        alloc_result(v).0 != Ok::<usize, Sel4Error>(0),
    ensures
        free_allowed(alloc_result(v).1, alloc_result(v).0->Ok_0 as int),
        free_result(alloc_result(v).1, alloc_result(v).0->Ok_0 as int) == v,
        alloc_result(free_result(alloc_result(v).1, alloc_result(v).0->Ok_0 as int)).0 == alloc_result(v).0,
{
    let t = first_free(v.top);
    let w = alloc_result(v).1;
    let c = alloc_result(v).0->Ok_0 as int;
    crate::bitfield::lemma_first_free_props(v.top);
    assert(t < n_bits(v.top));
    assert(!bit_at(v.top, t));
    vstd::arithmetic::power2::lemma_pow2_pos((v.top_lvl_size_bits - 5) as nat);
    if !v.two_level {
        assert(c == t);
        crate::bitfield::law_set_then_clear(v.top, t);
        assert(w == (CSpaceView { top: set_bit_spec(v.top, t), ..v }));
        assert(free_result(w, c) == (CSpaceView { top: clr_bit_spec(set_bit_spec(v.top, t), t), ..v }));
    } else {
        let bot = v.bots[t];
        let b = first_free(bot);
        crate::bitfield::lemma_first_free_props(bot);
        assert(bot.len() == 4);
        assert(!bit_at(bot, b));
        assert(0 <= b < 256);
        vstd::arithmetic::power2::lemma2_to64();
        vstd::arithmetic::power2::lemma_pow2_adds((v.top_lvl_size_bits - 5) as nat, 8);
        vstd::arithmetic::power2::lemma_pow2_strictly_increases((v.top_lvl_size_bits + 3) as nat, (v.top_lvl_size_bits + 8) as nat);
        assert(c == t * 256 + b);
        assert(c < top_slots(v) * 256) by (nonlinear_arith)
            requires
                c == t * 256 + b,
                t < top_slots(v),
                b < 256,
        ;
        assert(c / 256 == t && c % 256 == b);
        let nb = set_bit_spec(bot, b);
        crate::bitfield::law_set_then_clear(bot, b);
        crate::bitfield::law_set_then_clear(v.top, t);
        crate::bitfield::law_clear_clear_bit(v.top, t);
        assert(w.bots.contains_key(t));
        assert(w.bots[t] == nb);
        assert(w.bots.insert(t, clr_bit_spec(nb, b)) =~= v.bots);
        if first_free(nb) >= 255 {
            assert(free_result(w, c).top == clr_bit_spec(set_bit_spec(v.top, t), t));
        } else {
            assert(free_result(w, c).top == clr_bit_spec(v.top, t));
        }
    }
}

} // verus!
