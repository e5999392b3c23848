//! A four-level radix table from page offsets to entries, nine index bits a
//! level, as the page tables below it: the page tables of memory objects
//! (their frames) and of views (their frame capabilities).
//!
//! The tables live in one arena, 512 slots each, table 0 being the root; a
//! slot of an upper level holds the index of a lower table, a slot of the
//! last level an entry.

use vstd::prelude::*;
use crate::error::Sel4Error;

verus! {

/// Slots of one table.
pub const OBJ_LVL_MAX: usize = 512;
/// Levels of tables.
pub const NUM_LEVELS: usize = 4;

/// A slot of a table: an entry (last level) or a lower table.
#[derive(Clone, Copy, Debug)]
pub enum RadixSlot<T> {
    Entry(T),
    Table(usize),
}

/// Index, into the table of level `l`, of offset `off`.
pub open spec fn digit(off: u64, l: int) -> int {
    ((off >> ((39 - 9 * l) as u64)) & 511u64) as int
}

/// The indices of levels `0 .. l` of `off`, read as one number.
pub open spec fn prefix_of(off: u64, l: int) -> int
    decreases l,
{
    if l <= 0 {
        0
    } else {
        prefix_of(off, l - 1) * 512 + digit(off, l - 1)
    }
}

/// The page an offset falls in, as the table sees it: its indices at all
/// four levels.
pub open spec fn page_key(off: u64) -> int {
    prefix_of(off, 4)
}

/// The slot `d` of table `n`.
pub open spec fn slot_of<T>(s: Seq<Option<RadixSlot<T>>>, n: int, d: int) -> Option<RadixSlot<T>> {
    s[n * 512 + d]
}

/// The lower table in slot `d` of table `n`, if any.
pub open spec fn child<T>(s: Seq<Option<RadixSlot<T>>>, n: int, d: int) -> Option<int> {
    match slot_of(s, n, d) {
        Some(RadixSlot::Table(c)) => Some(c as int),
        _ => None,
    }
}

/// The entry in slot `d` of table `n`, if any.
pub open spec fn entry_in<T>(s: Seq<Option<RadixSlot<T>>>, n: int, d: int) -> Option<T> {
    match slot_of(s, n, d) {
        Some(RadixSlot::Entry(v)) => Some(v),
        _ => None,
    }
}

/// The table a walk from the root along the indices of `off` reaches
/// after `l` levels.
pub open spec fn reach<T>(s: Seq<Option<RadixSlot<T>>>, off: u64, l: int) -> Option<int>
    decreases l,
{
    if l <= 0 {
        Some(0)
    } else {
        match reach(s, off, l - 1) {
            None => None,
            Some(n) => child(s, n, digit(off, l - 1)),
        }
    }
}

/// The entry a walk from the root along the indices of `off` finds.
pub open spec fn walk<T>(s: Seq<Option<RadixSlot<T>>>, off: u64) -> Option<T> {
    match reach(s, off, 3) {
        None => None,
        Some(n) => entry_in(s, n, digit(off, 3)),
    }
}

/// The entries under slots `d ..` of table `n`, depth first, in index order.
pub open spec fn entries_from<T>(s: Seq<Option<RadixSlot<T>>>, n: int, level: int, d: int) -> Seq<T>
    decreases 4 - level, 512 - d,
{
    if level < 0 || level > 3 || d < 0 || d >= 512 {
        Seq::empty()
    } else {
        let rest = entries_from(s, n, level, d + 1);
        match slot_of(s, n, d) {
            Some(RadixSlot::Entry(v)) => seq![v].add(rest),
            Some(RadixSlot::Table(c)) => entries_from(s, c as int, level + 1, 0).add(rest),
            None => rest,
        }
    }
}

/// A four-level radix table.
pub struct RadixTable<T> {
    slots: Vec<Option<RadixSlot<T>>>,
    level: Ghost<Seq<int>>,
    prefix: Ghost<Seq<int>>,
}

/// Digits are below 512.
proof fn lemma_digit_bound(off: u64, l: int)
    requires
        0 <= l <= 3,
    ensures
        0 <= digit(off, l) < 512,
{
    let s = (39 - 9 * l) as u64;
    assert((off >> s) & 511u64 <= 511u64) by (bit_vector);
}

/// The arena `s` holds a tree of four levels: table `n` has level `lv[n]`
/// and is reached from the root along the indices `px[n]` spells; entries
/// are only on the last level.
spec fn tree_wf<T>(s: Seq<Option<RadixSlot<T>>>, lv: Seq<int>, px: Seq<int>) -> bool {
    &&& lv.len() >= 1
    &&& px.len() == lv.len()
    &&& s.len() == 512 * lv.len()
    &&& lv[0] == 0
    &&& px[0] == 0
    &&& forall|n: int| 0 <= n < lv.len() ==> 0 <= #[trigger] lv[n] <= 3
    &&& forall|n: int, d: int|
        0 <= n < lv.len() && 0 <= d < 512 ==> match #[trigger] slot_of(s, n, d) {
            Some(RadixSlot::Table(c)) => {
                &&& lv[n] < 3
                &&& 0 < c < lv.len()
                &&& lv[c as int] == lv[n] + 1
                &&& px[c as int] == px[n] * 512 + d
            },
            Some(RadixSlot::Entry(_)) => lv[n] == 3,
            None => true,
        }
}

/// A table a walk reaches after `l` levels has level `l` and the prefix of
/// the walk's offset.
proof fn lemma_reach_props<T>(s: Seq<Option<RadixSlot<T>>>, lv: Seq<int>, px: Seq<int>, o: u64, l: int)
    requires
        tree_wf(s, lv, px),
        0 <= l <= 3,
    ensures
        reach(s, o, l) matches Some(n) ==> 0 <= n < lv.len() && lv[n] == l && px[n] == prefix_of(o, l),
    decreases l,
{
    if l > 0 {
        lemma_reach_props(s, lv, px, o, l - 1);
        lemma_digit_bound(o, l - 1);
        match reach(s, o, l - 1) {
            None => {},
            Some(n) => {
                assert(0 <= n < lv.len());
                let d = digit(o, l - 1);
                match slot_of(s, n, d) {
                    Some(RadixSlot::Table(c)) => {},
                    _ => {},
                }
            },
        }
    }
}

/// Offsets with the same indices on the first `l` levels walk alike.
proof fn lemma_reach_same_digits<T>(s: Seq<Option<RadixSlot<T>>>, o: u64, p: u64, l: int)
    requires
        0 <= l <= 3,
        forall|k: int| 0 <= k < l ==> #[trigger] digit(o, k) == digit(p, k),
    ensures
        reach(s, o, l) == reach(s, p, l),
    decreases l,
{
    if l > 0 {
        lemma_reach_same_digits(s, o, p, l - 1);
        assert(digit(o, l - 1) == digit(p, l - 1));
    }
}

/// Equal prefixes have equal indices.
proof fn lemma_prefix_injective(o: u64, p: u64, l: int)
    requires
        0 <= l <= 4,
        prefix_of(o, l) == prefix_of(p, l),
    ensures
        forall|k: int| 0 <= k < l ==> #[trigger] digit(o, k) == digit(p, k),
    decreases l,
{
    if l > 0 {
        lemma_digit_bound(o, l - 1);
        lemma_digit_bound(p, l - 1);
        lemma_prefix_nonneg(o, l - 1);
        lemma_prefix_nonneg(p, l - 1);
        vstd::arithmetic::div_mod::lemma_fundamental_div_mod_converse(
            prefix_of(o, l),
            512,
            prefix_of(o, l - 1),
            digit(o, l - 1),
        );
        vstd::arithmetic::div_mod::lemma_fundamental_div_mod_converse(
            prefix_of(p, l),
            512,
            prefix_of(p, l - 1),
            digit(p, l - 1),
        );
        lemma_prefix_injective(o, p, l - 1);
    }
}

/// Equal indices give equal prefixes.
proof fn lemma_prefix_same_digits(o: u64, p: u64, l: int)
    requires
        0 <= l <= 4,
        forall|k: int| 0 <= k < l ==> #[trigger] digit(o, k) == digit(p, k),
    ensures
        prefix_of(o, l) == prefix_of(p, l),
    decreases l,
{
    if l > 0 {
        lemma_prefix_same_digits(o, p, l - 1);
        assert(digit(o, l - 1) == digit(p, l - 1));
    }
}

proof fn lemma_prefix_nonneg(o: u64, l: int)
    requires
        0 <= l <= 4,
    ensures
        prefix_of(o, l) >= 0,
    decreases l,
{
    if l > 0 {
        lemma_prefix_nonneg(o, l - 1);
        lemma_digit_bound(o, l - 1);
    }
}

/// Slot `j0` is the one of table `n0` and index `d0`, and no other.
proof fn lemma_slot_index(n: int, d: int, n0: int, d0: int)
    requires
        0 <= d < 512,
        0 <= d0 < 512,
        n * 512 + d == n0 * 512 + d0,
    ensures
        n == n0,
        d == d0,
{
    vstd::arithmetic::div_mod::lemma_fundamental_div_mod_converse(n * 512 + d, 512, n, d);
    vstd::arithmetic::div_mod::lemma_fundamental_div_mod_converse(n0 * 512 + d0, 512, n0, d0);
}

/// Changing slot `d0` of table `n0`, and adding tables, leaves the walks of
/// the first `k` levels alone for an offset whose walk does not pass there.
proof fn lemma_reach_frame<T>(
    s: Seq<Option<RadixSlot<T>>>,
    lv: Seq<int>,
    px: Seq<int>,
    s2: Seq<Option<RadixSlot<T>>>,
    n0: int,
    d0: int,
    o: u64,
    k: int,
)
    requires
        tree_wf(s, lv, px),
        0 <= k <= 3,
        0 <= d0 < 512,
        s2.len() >= s.len(),
        forall|j: int| 0 <= j < s.len() && j != n0 * 512 + d0 ==> #[trigger] s2[j] == s[j],
        forall|l: int| 0 <= l < k ==> !(reach(s, o, l) == Some(n0) && #[trigger] digit(o, l) == d0),
    ensures
        reach(s2, o, k) == reach(s, o, k),
    decreases k,
{
    if k > 0 {
        lemma_reach_frame(s, lv, px, s2, n0, d0, o, k - 1);
        lemma_reach_props(s, lv, px, o, k - 1);
        lemma_digit_bound(o, k - 1);
        match reach(s, o, k - 1) {
            None => {},
            Some(n) => {
                let d = digit(o, k - 1);
                assert(0 <= n * 512 + d < s.len()) by (nonlinear_arith)
                    requires
                        0 <= n < lv.len(),
                        0 <= d < 512,
                        s.len() == 512 * lv.len(),
                ;
                if n * 512 + d == n0 * 512 + d0 {
                    lemma_slot_index(n, d, n0, d0);
                    assert(!(reach(s, o, k - 1) == Some(n0) && digit(o, k - 1) == d0));
                }
                assert(s2[n * 512 + d] == s[n * 512 + d]);
            },
        }
    }
}

/// The arena after an empty table `c` is added below slot `d0` of table `n0`.
spec fn with_table<T>(s: Seq<Option<RadixSlot<T>>>, n0: int, d0: int, c: int) -> Seq<Option<RadixSlot<T>>> {
    s.add(Seq::new(512, |j: int| None::<RadixSlot<T>>)).update(n0 * 512 + d0, Some(RadixSlot::Table(c as usize)))
}

/// Adding an empty table below an empty slot changes no walk's result.
proof fn lemma_add_table_keeps_walks<T>(s: Seq<Option<RadixSlot<T>>>, lv: Seq<int>, px: Seq<int>, n0: int, d0: int, o: u64)
    requires
        tree_wf(s, lv, px),
        0 <= n0 < lv.len(),
        0 <= d0 < 512,
        lv[n0] < 3,
        slot_of(s, n0, d0) is None,
        lv.len() < usize::MAX,
    ensures
        walk(with_table(s, n0, d0, lv.len() as int), o) == walk(s, o),
{
    let c = lv.len() as int;
    let s2 = with_table(s, n0, d0, c);
    let big_l = lv[n0];
    assert(0 <= n0 * 512 + d0 < s.len()) by (nonlinear_arith)
        requires
            0 <= n0 < lv.len(),
            0 <= d0 < 512,
            s.len() == 512 * lv.len(),
    ;
    assert forall|j: int| 0 <= j < s.len() && j != n0 * 512 + d0 implies #[trigger] s2[j] == s[j] by {}
    assert forall|l: int| 0 <= l <= 3 implies (reach(s, o, l) == Some(n0) ==> l == big_l) by {
        lemma_reach_props(s, lv, px, o, l);
    }
    lemma_reach_props(s, lv, px, o, 3);
    lemma_digit_bound(o, 3);
    if reach(s, o, big_l) == Some(n0) && digit(o, big_l) == d0 {
        assert(reach(s, o, big_l + 1) is None);
        lemma_reach_none_after(s, o, big_l + 1);
        assert forall|l: int| 0 <= l < big_l implies !(reach(s, o, l) == Some(n0) && #[trigger] digit(o, l) == d0) by {
            lemma_reach_props(s, lv, px, o, l);
        }
        lemma_reach_frame(s, lv, px, s2, n0, d0, o, big_l);
        assert(s2[n0 * 512 + d0] == Some(RadixSlot::<T>::Table(c as usize)));
        assert(reach(s2, o, big_l + 1) == Some(c));
        lemma_digit_bound(o, big_l + 1);
        assert(0 <= c * 512 + digit(o, big_l + 1) - s.len() < 512) by (nonlinear_arith)
            requires
                c == lv.len(),
                s.len() == 512 * lv.len(),
                0 <= digit(o, big_l + 1) < 512,
        ;
        if big_l + 1 < 3 {
            assert(s2[c * 512 + digit(o, big_l + 1)] is None);
            assert(reach(s2, o, big_l + 2) is None);
            lemma_reach_none_after(s2, o, big_l + 2);
        } else {
            assert(s2[c * 512 + digit(o, 3)] is None);
        }
    } else {
        assert forall|l: int| 0 <= l < 3 implies !(reach(s, o, l) == Some(n0) && #[trigger] digit(o, l) == d0) by {
            lemma_reach_props(s, lv, px, o, l);
        }
        lemma_reach_frame(s, lv, px, s2, n0, d0, o, 3);
        match reach(s, o, 3) {
            None => {},
            Some(n) => {
                let d = digit(o, 3);
                assert(0 <= n * 512 + d < s.len()) by (nonlinear_arith)
                    requires
                        0 <= n < lv.len(),
                        0 <= d < 512,
                        s.len() == 512 * lv.len(),
                ;
                if n * 512 + d == n0 * 512 + d0 {
                    lemma_slot_index(n, d, n0, d0);
                }
                assert(s2[n * 512 + d] == s[n * 512 + d]);
            },
        }
    }
}

/// Putting an entry in an empty slot of the last level makes exactly the
/// walks that end there find it.
proof fn lemma_set_entry_walks<T>(s: Seq<Option<RadixSlot<T>>>, lv: Seq<int>, px: Seq<int>, n0: int, d0: int, v: T, o: u64)
    requires
        tree_wf(s, lv, px),
        0 <= n0 < lv.len(),
        0 <= d0 < 512,
        lv[n0] == 3,
    ensures
        walk(s.update(n0 * 512 + d0, Some(RadixSlot::Entry(v))), o) == (if reach(s, o, 3) == Some(n0) && digit(o, 3)
            == d0 {
            Some(v)
        } else {
            walk(s, o)
        }),
{
    let s2 = s.update(n0 * 512 + d0, Some(RadixSlot::Entry(v)));
    assert(0 <= n0 * 512 + d0 < s.len()) by (nonlinear_arith)
        requires
            0 <= n0 < lv.len(),
            0 <= d0 < 512,
            s.len() == 512 * lv.len(),
    ;
    assert forall|j: int| 0 <= j < s.len() && j != n0 * 512 + d0 implies #[trigger] s2[j] == s[j] by {}
    assert forall|l: int| 0 <= l < 3 implies !(reach(s, o, l) == Some(n0) && #[trigger] digit(o, l) == d0) by {
        lemma_reach_props(s, lv, px, o, l);
    }
    lemma_reach_frame(s, lv, px, s2, n0, d0, o, 3);
    lemma_reach_props(s, lv, px, o, 3);
    lemma_digit_bound(o, 3);
    match reach(s, o, 3) {
        None => {},
        Some(n) => {
            let d = digit(o, 3);
            assert(0 <= n * 512 + d < s.len()) by (nonlinear_arith)
                requires
                    0 <= n < lv.len(),
                    0 <= d < 512,
                    s.len() == 512 * lv.len(),
            ;
            if n * 512 + d == n0 * 512 + d0 {
                lemma_slot_index(n, d, n0, d0);
            }
        },
    }
}

/// A root with no slot used finds nothing.
proof fn lemma_empty_root<T>(s: Seq<Option<RadixSlot<T>>>)
    requires
        s.len() >= 512,
        forall|j: int| 0 <= j < 512 ==> #[trigger] s[j] is None,
    ensures
        forall|off: u64| (#[trigger] walk(s, off)) is None,
{
    assert forall|off: u64| (#[trigger] walk(s, off)) is None by {
        lemma_digit_bound(off, 0);
        assert(s[0 * 512 + digit(off, 0)] is None);
        assert(reach(s, off, 0) == Some(0int));
        assert(reach(s, off, 1) is None);
        lemma_reach_none_after(s, off, 1);
    }
}

/// A walk that stops stays stopped.
proof fn lemma_reach_none_after<T>(s: Seq<Option<RadixSlot<T>>>, off: u64, l: int)
    requires
        0 <= l <= 3,
        reach(s, off, l) is None,
    ensures
        reach(s, off, 3) is None,
    decreases 3 - l,
{
    if l < 3 {
        assert(reach(s, off, l + 1) is None);
        lemma_reach_none_after(s, off, l + 1);
    }
}

impl<T: Copy> RadixTable<T> {
    /// The tables form a tree of four levels: a table of level `l` below the
    /// root is reached from the one slot named by its prefix, and entries
    /// are only on the last level.
    pub closed spec fn wf(&self) -> bool {
        tree_wf(self.slots@, self.level@, self.prefix@)
    }

    /// The entry at offset `off`, if any.
    pub closed spec fn at(&self, off: u64) -> Option<T> {
        walk(self.slots@, off)
    }

    /// Every entry, depth first in index order: by increasing page.
    pub closed spec fn entries(&self) -> Seq<T> {
        entries_from(self.slots@, 0, 0, 0)
    }

    /// An empty table: the root alone, with every slot empty.
    pub fn new() -> (t: Self)
        ensures
            t.wf(),
            forall|off: u64| (#[trigger] t.at(off)) is None,
            t.arena_len() == OBJ_LVL_MAX,
    {
        let mut slots: Vec<Option<RadixSlot<T>>> = Vec::new();
        let mut i: usize = 0;
        while i < OBJ_LVL_MAX
            invariant
                i <= OBJ_LVL_MAX,
                slots@.len() == i,
                forall|j: int| 0 <= j < i ==> #[trigger] slots@[j] is None,
            decreases OBJ_LVL_MAX - i,
        {
            slots.push(None);
            i += 1;
        }
        let t = RadixTable { slots: slots, level: Ghost(Seq::<int>::empty().push(0)), prefix: Ghost(Seq::<int>::empty().push(0)) };
        proof {
            lemma_empty_root(t.slots@);
        }
        t
    }

    /// Index, into the table of level `l`, of offset `off`.
    fn index_at(off: u64, l: usize) -> (r: usize)
        requires
            l <= 3,
        ensures
            r == digit(off, l as int),
            r < 512,
    {
        proof {
            lemma_digit_bound(off, l as int);
        }
        let shift: u64 = 39 - 9 * (l as u64);
        ((off >> shift) & 511u64) as usize
    }

    /// The entry at offset `off`, if any.
    pub fn lookup(&self, off: u64) -> (r: Option<T>)
        requires
            self.wf(),
        ensures
            r == self.at(off),
    {
        let ghost s = self.slots@;
        let n_slots = self.slots.len();
        let mut table: usize = 0;
        let mut l: usize = 0;
        while l < NUM_LEVELS
            invariant
                self.wf(),
                s == self.slots@,
                n_slots == s.len(),
                l <= 4,
                (table as int) < self.level@.len(),
                self.level@[table as int] == l,
                reach(s, off, l as int) == Some(table as int),
            decreases 4 - l,
        {
            let d = Self::index_at(off, l);
            proof {
                assert(0 <= table * 512 + d < s.len()) by (nonlinear_arith)
                    requires
                        table < self.level@.len(),
                        d < 512,
                        s.len() == 512 * self.level@.len(),
                ;
                assert(table * 512 + d < n_slots);
            }
            let ghost sl = slot_of(s, table as int, d as int);
            match self.slots[table * 512 + d] {
                None => {
                    proof {
                        if l < 3 {
                            lemma_reach_none_after(s, off, l as int + 1);
                        }
                    }
                    return None;
                },
                Some(RadixSlot::Entry(v)) => {
                    assert(sl matches Some(RadixSlot::Entry(_)));
                    assert(l == 3);
                    return Some(v);
                },
                Some(RadixSlot::Table(c)) => {
                    assert(sl == Some(RadixSlot::<T>::Table(c)));
                    table = c;
                },
            }
            l += 1;
        }
        assert(false);
        None
    }

    /// Slots of the arena: room the table has taken.
    pub closed spec fn arena_len(&self) -> nat {
        self.slots@.len()
    }

    /// Adds an empty table below the empty slot `d0` of table `n0`.
    fn add_table(&mut self, n0: usize, d0: usize) -> (c: usize)
        requires
            old(self).wf(),
            (n0 as int) < old(self).level@.len(),
            d0 < 512,
            old(self).level@[n0 as int] < 3,
            slot_of(old(self).slots@, n0 as int, d0 as int) is None,
            old(self).slots@.len() + 512 <= usize::MAX,
        ensures
            final(self).wf(),
            c == old(self).level@.len(),
            final(self).slots@ == with_table(old(self).slots@, n0 as int, d0 as int, c as int),
            final(self).level@ == old(self).level@.push(old(self).level@[n0 as int] + 1),
            final(self).prefix@ == old(self).prefix@.push(old(self).prefix@[n0 as int] * 512 + d0),
    {
        let ghost s0 = self.slots@;
        let ghost lv0 = self.level@;
        let ghost px0 = self.prefix@;
        let c = self.slots.len() / 512;
        let mut i: usize = 0;
        while i < OBJ_LVL_MAX
            invariant
                i <= OBJ_LVL_MAX,
                self.slots@ == s0.add(Seq::new(i as nat, |j: int| None::<RadixSlot<T>>)),
                s0.len() + 512 <= usize::MAX,
                self.level@ == lv0,
                self.prefix@ == px0,
            decreases OBJ_LVL_MAX - i,
        {
            self.slots.push(None);
            proof {
                assert(self.slots@ =~= s0.add(Seq::new((i + 1) as nat, |j: int| None::<RadixSlot<T>>)));
            }
            i += 1;
        }
        assert(n0 * 512 + d0 < s0.len()) by (nonlinear_arith)
            requires
                n0 < lv0.len(),
                d0 < 512,
                s0.len() == 512 * lv0.len(),
        ;
        self.slots.set(n0 * 512 + d0, Some(RadixSlot::Table(c)));
        proof {
            let lv = lv0.push(lv0[n0 as int] + 1);
            let px = px0.push(px0[n0 as int] * 512 + d0);
            self.level@ = lv;
            self.prefix@ = px;
            let s2 = self.slots@;
            assert(s2 =~= with_table(s0, n0 as int, d0 as int, c as int));
            assert forall|n: int, d: int| 0 <= n < lv.len() && 0 <= d < 512 implies match #[trigger] slot_of(s2, n, d) {
                Some(RadixSlot::Table(cc)) => {
                    &&& lv[n] < 3
                    &&& 0 < cc < lv.len()
                    &&& lv[cc as int] == lv[n] + 1
                    &&& px[cc as int] == px[n] * 512 + d
                },
                Some(RadixSlot::Entry(_)) => lv[n] == 3,
                None => true,
            } by {
                if n < lv0.len() {
                    assert(0 <= n * 512 + d < s0.len()) by (nonlinear_arith)
                        requires
                            0 <= n < lv0.len(),
                            0 <= d < 512,
                            s0.len() == 512 * lv0.len(),
                    ;
                    if n * 512 + d == n0 * 512 + d0 {
                        lemma_slot_index(n, d, n0 as int, d0 as int);
                    } else {
                        assert(slot_of(s2, n, d) == slot_of(s0, n, d));
                        assert(tree_wf(s0, lv0, px0));
                        assert(lv[n] == lv0[n]);
                        match slot_of(s0, n, d) {
                            Some(RadixSlot::Table(cc)) => {
                                assert(lv[cc as int] == lv0[cc as int]);
                                assert(px[cc as int] == px0[cc as int]);
                            },
                            _ => {},
                        }
                    }
                } else {
                    assert(n == c);
                    assert(0 <= n * 512 + d - s0.len() < 512) by (nonlinear_arith)
                        requires
                            n == lv0.len(),
                            0 <= d < 512,
                            s0.len() == 512 * lv0.len(),
                    ;
                    assert(slot_of(s2, n, d) is None);
                }
            }
            assert forall|n: int| 0 <= n < lv.len() implies 0 <= #[trigger] lv[n] <= 3 by {
                if n < lv0.len() {
                    assert(lv[n] == lv0[n]);
                }
            }
        }
        c
    }

    /// Puts `v` at offset `off`. Fails with `DeleteFirst`, changing no entry,
    /// when the page already holds one.
    pub fn insert_at(&mut self, off: u64, v: T) -> (r: Result<(), Sel4Error>)
        requires
            old(self).wf(),
            old(self).arena_len() + 3 * 512 <= usize::MAX,
        ensures
            final(self).wf(),
            final(self).arena_len() <= old(self).arena_len() + 3 * 512,
            r is Ok <==> old(self).at(off) is None,
            r is Err ==> r == Err::<(), Sel4Error>(Sel4Error::DeleteFirst) && forall|o: u64| #[trigger] final(self).at(o) == old(self).at(o),
            r is Ok ==> forall|o: u64| #[trigger] final(self).at(o) == (if page_key(o) == page_key(off) {
                Some(v)
            } else {
                old(self).at(o)
            }),
    {
        let mut table: usize = 0;
        let mut l: usize = 0;
        while l < NUM_LEVELS - 1
            invariant
                self.wf(),
                l <= 3,
                (table as int) < self.level@.len(),
                self.level@[table as int] == l,
                reach(self.slots@, off, l as int) == Some(table as int),
                self.slots@.len() <= old(self).slots@.len() + 512 * l,
                old(self).slots@.len() + 3 * 512 <= usize::MAX,
                forall|o: u64| #[trigger] walk(self.slots@, o) == walk(old(self).slots@, o),
            decreases 3 - l,
        {
            let d = Self::index_at(off, l);
            let n_slots = self.slots.len();
            proof {
                assert(table * 512 + d < self.slots@.len()) by (nonlinear_arith)
                    requires
                        table < self.level@.len(),
                        d < 512,
                        self.slots@.len() == 512 * self.level@.len(),
                ;
            }
            let ghost sl = slot_of(self.slots@, table as int, d as int);
            match self.slots[table * 512 + d] {
                None => {
                    let ghost s_before = self.slots@;
                    let ghost lv_before = self.level@;
                    let ghost px_before = self.prefix@;
                    proof {
                        assert forall|o: u64| #[trigger] walk(with_table(s_before, table as int, d as int, lv_before.len() as int), o) == walk(s_before, o) by {
                            lemma_add_table_keeps_walks(s_before, lv_before, px_before, table as int, d as int, o);
                        }
                    }
                    let c = self.add_table(table, d);
                    proof {
                        assert forall|ll: int| 0 <= ll < l implies !(reach(s_before, off, ll) == Some(table as int) && #[trigger] digit(off, ll) == d) by {
                            lemma_reach_props(s_before, lv_before, px_before, off, ll);
                        }
                        assert forall|j: int| 0 <= j < s_before.len() && j != table * 512 + d implies #[trigger] self.slots@[j] == s_before[j] by {}
                        lemma_reach_frame(s_before, lv_before, px_before, self.slots@, table as int, d as int, off, l as int);
                        assert(self.slots@[table * 512 + d] == Some(RadixSlot::<T>::Table(c)));
                    }
                    table = c;
                },
                Some(RadixSlot::Entry(_)) => {
                    assert(sl matches Some(RadixSlot::Entry(_)));
                    assert(false);
                    return Err(Sel4Error::DeleteFirst);
                },
                Some(RadixSlot::Table(c)) => {
                    assert(sl == Some(RadixSlot::<T>::Table(c)));
                    table = c;
                },
            }
            l += 1;
        }
        let d = Self::index_at(off, 3);
        proof {
            assert(table * 512 + d < self.slots@.len()) by (nonlinear_arith)
                requires
                    table < self.level@.len(),
                    d < 512,
                    self.slots@.len() == 512 * self.level@.len(),
            ;
        }
        let ghost sl = slot_of(self.slots@, table as int, d as int);
        match self.slots[table * 512 + d] {
            None => {
                let ghost s_before = self.slots@;
                let ghost lv_before = self.level@;
                let ghost px_before = self.prefix@;
                self.slots.set(table * 512 + d, Some(RadixSlot::Entry(v)));
                proof {
                    assert forall|o: u64| #[trigger] walk(self.slots@, o) == (if page_key(o) == page_key(off) {
                        Some(v)
                    } else {
                        walk(old(self).slots@, o)
                    }) by {
                        lemma_set_entry_walks(s_before, lv_before, px_before, table as int, d as int, v, o);
                        lemma_reach_props(s_before, lv_before, px_before, o, 3);
                        lemma_reach_props(s_before, lv_before, px_before, off, 3);
                        if page_key(o) == page_key(off) {
                            lemma_prefix_injective(o, off, 4);
                            lemma_reach_same_digits(s_before, o, off, 3);
                        }
                        if reach(s_before, o, 3) == Some(table as int) && digit(o, 3) == d {
                            lemma_prefix_injective(o, off, 3);
                            assert forall|k: int| 0 <= k < 4 implies #[trigger] digit(o, k) == digit(off, k) by {}
                            lemma_prefix_same_digits(o, off, 4);
                        }
                    }
                    assert(walk(s_before, off) is None);
                    assert forall|j: int| 0 <= j < self.slots@.len() implies #[trigger] self.slots@[j] == s_before.update(table * 512 + d, Some(RadixSlot::Entry(v)))[j] by {}
                    let lv = self.level@;
                    let px = self.prefix@;
                    let s2 = self.slots@;
                    assert forall|n: int, dd: int| 0 <= n < lv.len() && 0 <= dd < 512 implies match #[trigger] slot_of(s2, n, dd) {
                        Some(RadixSlot::Table(cc)) => {
                            &&& lv[n] < 3
                            &&& 0 < cc < lv.len()
                            &&& lv[cc as int] == lv[n] + 1
                            &&& px[cc as int] == px[n] * 512 + dd
                        },
                        Some(RadixSlot::Entry(_)) => lv[n] == 3,
                        None => true,
                    } by {
                        assert(0 <= n * 512 + dd < s2.len()) by (nonlinear_arith)
                            requires
                                0 <= n < lv.len(),
                                0 <= dd < 512,
                                s2.len() == 512 * lv.len(),
                        ;
                        if n * 512 + dd == table * 512 + d {
                            lemma_slot_index(n, dd, table as int, d as int);
                        } else {
                            assert(slot_of(s2, n, dd) == slot_of(s_before, n, dd));
                        }
                    }
                }
                Ok(())
            },
            Some(RadixSlot::Entry(_)) => {
                proof {
                    assert(walk(self.slots@, off) is Some);
                }
                Err(Sel4Error::DeleteFirst)
            },
            Some(RadixSlot::Table(c)) => {
                assert(sl == Some(RadixSlot::<T>::Table(c)));
                assert(false);
                Err(Sel4Error::DeleteFirst)
            },
        }
    }

    /// Appends the entries under table `n`, of level `level`, depth first
    /// in index order.
    fn collect(&self, n: usize, level: usize, out: &mut Vec<T>)
        requires
            self.wf(),
            (n as int) < self.level@.len(),
            self.level@[n as int] == level,
        ensures
            final(out)@ == old(out)@.add(entries_from(self.slots@, n as int, level as int, 0)),
        decreases 3 - level,
    {
        let ghost s = self.slots@;
        let n_slots = self.slots.len();
        let mut d: usize = 0;
        proof {
            assert(tree_wf(s, self.level@, self.prefix@));
            assert(0 <= self.level@[n as int] <= 3);
        }
        while d < OBJ_LVL_MAX
            invariant
                self.wf(),
                s == self.slots@,
                n_slots == s.len(),
                (n as int) < self.level@.len(),
                self.level@[n as int] == level,
                level <= 3,
                d <= 512,
                out@.add(entries_from(s, n as int, level as int, d as int)) == old(out)@.add(
                    entries_from(s, n as int, level as int, 0),
                ),
            decreases 512 - d,
        {
            proof {
                assert(n * 512 + d < s.len()) by (nonlinear_arith)
                    requires
                        n < self.level@.len(),
                        d < 512,
                        s.len() == 512 * self.level@.len(),
                ;
            }
            let ghost out_before = out@;
            let ghost rest = entries_from(s, n as int, level as int, d + 1);
            let ghost sl = slot_of(s, n as int, d as int);
            match self.slots[n * 512 + d] {
                None => {
                    assert(entries_from(s, n as int, level as int, d as int) == rest);
                },
                Some(RadixSlot::Entry(v)) => {
                    out.push(v);
                    proof {
                        assert(sl == Some(RadixSlot::<T>::Entry(v)));
                        assert(entries_from(s, n as int, level as int, d as int) == seq![v].add(rest));
                        assert(out_before.add(seq![v].add(rest)) =~= out@.add(rest));
                    }
                },
                Some(RadixSlot::Table(c)) => {
                    proof {
                        assert(sl == Some(RadixSlot::<T>::Table(c)));
                        assert(slot_of(s, n as int, d as int) == Some(RadixSlot::<T>::Table(c)));
                    }
                    self.collect(c, level + 1, out);
                    proof {
                        let sub = entries_from(s, c as int, level + 1, 0);
                        assert(entries_from(s, n as int, level as int, d as int) == sub.add(rest));
                        assert(out_before.add(sub.add(rest)) =~= out@.add(rest));
                    }
                },
            }
            d += 1;
        }
        proof {
            assert(entries_from(s, n as int, level as int, 512) == Seq::<T>::empty());
            assert(out@.add(Seq::<T>::empty()) =~= out@);
        }
    }

    /// Every entry, depth first in index order: by increasing page.
    pub fn entries_list(&self) -> (r: Vec<T>)
        requires
            self.wf(),
        ensures
            r@ == self.entries(),
    {
        let mut out: Vec<T> = Vec::new();
        self.collect(0, 0, &mut out);
        proof {
            assert(Seq::<T>::empty().add(self.entries()) =~= self.entries());
        }
        out
    }
}

} // verus!
