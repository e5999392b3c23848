//! The frame table: every frame the root server hands out has an entry, and
//! each entry sits on at most one of two doubly linked lists, the free list
//! and the allocated list. The links are frame references (indices into the
//! table), kept in the entries themselves.
//!
//! The capability of a frame is held as its capability pointer (`u64`). The
//! kernel work that produces a fresh frame (retyping an untyped and mapping
//! it) is done by the caller, which hands the resulting capability in.

use vstd::prelude::*;

verus! {

/// Index of a frame in the frame table.
pub type FrameRef = u32;

/// Where the root server maps the data of the frames in the table: frame
/// `r` at `FRAME_DATA + r * 4096`.
pub const FRAME_DATA: u64 = 0x82_0000_0000;

/// Bytes of one frame.
pub const FRAME_BYTES: u64 = 4096;

/// Which list a frame is on.
#[derive(PartialEq, Eq, Structural, Clone, Copy, Debug)]
pub enum ListID {
    NoList,
    FreeList,
    AllocatedList,
}

/// One entry of the frame table.
#[derive(Clone, Copy, Debug)]
pub struct Frame {
    pub cap: u64,
    pub prev: Option<FrameRef>,
    pub next: Option<FrameRef>,
    pub list_id: ListID,
}

/// Head, tail and length of one list.
#[derive(Clone, Copy, Debug)]
pub struct FrameList {
    pub list_id: ListID,
    pub first: Option<FrameRef>,
    pub last: Option<FrameRef>,
    pub length: usize,
}

/// The abstract state of a frame table: the two lists, front first, and the
/// capability of every frame.
pub struct FrameTableView {
    pub free: Seq<FrameRef>,
    pub allocated: Seq<FrameRef>,
    pub caps: Seq<u64>,
}

/// The frame table.
pub struct FrameTable {
    frames: Vec<Frame>,
    free: FrameList,
    allocated: FrameList,
    vspace: u64,
    free_seq: Ghost<Seq<FrameRef>>,
    alloc_seq: Ghost<Seq<FrameRef>>,
}

/// Predecessor of position `i` of list `s`.
pub open spec fn link_prev(s: Seq<FrameRef>, i: int) -> Option<FrameRef> {
    if i == 0 {
        None
    } else {
        Some(s[i - 1])
    }
}

/// Successor of position `i` of list `s`.
pub open spec fn link_next(s: Seq<FrameRef>, i: int) -> Option<FrameRef> {
    if i + 1 >= s.len() {
        None
    } else {
        Some(s[i + 1])
    }
}

/// The entries of `frames` marked `id` are exactly those of `s`, linked in order.
#[verifier::opaque]
pub open spec fn list_links_wf(frames: Seq<Frame>, s: Seq<FrameRef>, id: ListID) -> bool {
    &&& frames.len() <= u32::MAX
    &&& s.no_duplicates()
    &&& forall|i: int| 0 <= i < s.len() ==> (#[trigger] s[i] as int) < frames.len()
    &&& forall|i: int|
        0 <= i < s.len() ==> {
            &&& frames[#[trigger] s[i] as int].list_id == id
            &&& frames[s[i] as int].prev == link_prev(s, i)
            &&& frames[s[i] as int].next == link_next(s, i)
        }
    &&& forall|f: int|
        0 <= f < frames.len() && #[trigger] frames[f].list_id == id ==> s.contains(f as FrameRef)
}

/// `l` heads the list `s` of `frames`, whose members are exactly the
/// entries marked `id`, linked in order.
pub open spec fn list_wf(frames: Seq<Frame>, l: FrameList, s: Seq<FrameRef>, id: ListID) -> bool {
    &&& l.list_id == id
    &&& l.length == s.len()
    &&& l.first == (if s.len() == 0 { None::<FrameRef> } else { Some(s[0]) })
    &&& l.last == (if s.len() == 0 { None::<FrameRef> } else { Some(s.last()) })
    &&& list_links_wf(frames, s, id)
}

/// Entries on no list have no links.
#[verifier::opaque]
pub open spec fn unlinked_wf(frames: Seq<Frame>) -> bool {
    forall|f: int|
        0 <= f < frames.len() && #[trigger] frames[f].list_id == ListID::NoList ==> frames[f].prev
            == None::<FrameRef> && frames[f].next == None::<FrameRef>
}

/// Only entries of `s` and entry `r` differ between `a` and `b`, and no entry
/// but `r` changes list.
#[verifier::opaque]
pub open spec fn changed_only(a: Seq<Frame>, b: Seq<Frame>, s: Seq<FrameRef>, r: int) -> bool {
    &&& a.len() == b.len()
    &&& forall|k: int|
        0 <= k < a.len() && k != r && !s.contains(k as FrameRef) ==> #[trigger] b[k] == a[k]
    &&& forall|k: int|
        0 <= k < a.len() && k != r ==> (#[trigger] b[k]).list_id == a[k].list_id && b[k].cap
            == a[k].cap
}

/// The two lists hold distinct frames, none twice, all in the table.
pub open spec fn view_wf(v: FrameTableView) -> bool {
    &&& v.caps.len() <= u32::MAX
    &&& v.free.no_duplicates()
    &&& v.allocated.no_duplicates()
    &&& forall|i: int| 0 <= i < v.free.len() ==> (#[trigger] v.free[i] as int) < v.caps.len()
    &&& forall|i: int|
        0 <= i < v.allocated.len() ==> (#[trigger] v.allocated[i] as int) < v.caps.len()
    &&& forall|r: FrameRef| !(#[trigger] v.free.contains(r) && #[trigger] v.allocated.contains(r))
}

/// Allocation from a non-empty free list: its front moves to the back of
/// the allocated list.
pub open spec fn reuse_step(v: FrameTableView) -> FrameTableView {
    FrameTableView { free: v.free.drop_first(), allocated: v.allocated.push(v.free[0]), caps: v.caps }
}

/// Allocation of a fresh frame with capability `cap`: it becomes the last
/// entry of the table and the back of the allocated list.
pub open spec fn fresh_step(v: FrameTableView, cap: u64) -> FrameTableView {
    FrameTableView {
        free: v.free,
        allocated: v.allocated.push(v.caps.len() as FrameRef),
        caps: v.caps.push(cap),
    }
}

/// Freeing allocated frame `r`: it leaves the allocated list and goes to the
/// front of the free list.
pub open spec fn release_step(v: FrameTableView, r: FrameRef) -> FrameTableView {
    FrameTableView {
        free: seq![r].add(v.free),
        allocated: v.allocated.remove_value(r),
        caps: v.caps,
    }
}

/// What `alloc_frame` returns and leaves, given the capability of a fresh
/// frame if the caller could make one.
pub open spec fn alloc_result(v: FrameTableView, fresh_cap: Option<u64>) -> (Option<FrameRef>, FrameTableView) {
    if v.free.len() > 0 {
        (Some(v.free[0]), reuse_step(v))
    } else {
        match fresh_cap {
            Some(c) => if v.caps.len() < u32::MAX {
                (Some(v.caps.len() as FrameRef), fresh_step(v, c))
            } else {
                (None, v)
            },
            None => (None, v),
        }
    }
}

fn set_next(frames: &mut Vec<Frame>, r: FrameRef, next: Option<FrameRef>)
    requires
        (r as int) < old(frames)@.len(),
    ensures
        final(frames)@ == old(frames)@.update(r as int, Frame { next: next, ..old(frames)@[r as int] }),
{
    let mut fr = frames[r as usize];
    fr.next = next;
    frames[r as usize] = fr;
}

fn set_prev(frames: &mut Vec<Frame>, r: FrameRef, prev: Option<FrameRef>)
    requires
        (r as int) < old(frames)@.len(),
    ensures
        final(frames)@ == old(frames)@.update(r as int, Frame { prev: prev, ..old(frames)@[r as int] }),
{
    let mut fr = frames[r as usize];
    fr.prev = prev;
    frames[r as usize] = fr;
}

fn set_entry(frames: &mut Vec<Frame>, r: FrameRef, prev: Option<FrameRef>, next: Option<FrameRef>, id: ListID)
    requires
        (r as int) < old(frames)@.len(),
    ensures
        final(frames)@ == old(frames)@.update(
            r as int,
            Frame { prev: prev, next: next, list_id: id, ..old(frames)@[r as int] },
        ),
{
    let mut fr = frames[r as usize];
    fr.prev = prev;
    fr.next = next;
    fr.list_id = id;
    frames[r as usize] = fr;
}

proof fn lemma_index_of_member(s: Seq<FrameRef>, r: FrameRef) -> (i: int)
    requires
        s.contains(r),
    ensures
        0 <= i < s.len(),
        s[i] == r,
{
    choose|i: int| 0 <= i < s.len() && s[i] == r
}

proof fn lemma_pop_front_links(f0: Seq<Frame>, f1: Seq<Frame>, s: Seq<FrameRef>, id: ListID)
    requires
        list_links_wf(f0, s, id),
        unlinked_wf(f0),
        id != ListID::NoList,
        s.len() > 0,
        f1 == (if s.len() > 1 {
            f0.update(s[1] as int, Frame { prev: None, ..f0[s[1] as int] })
        } else {
            f0
        }).update(s[0] as int, Frame { prev: None, next: None, list_id: ListID::NoList, ..f0[s[0] as int] }),
    ensures
        list_links_wf(f1, s.drop_first(), id),
        changed_only(f0, f1, s, s[0] as int),
        unlinked_wf(f1),
{
    reveal(list_links_wf);
    reveal(changed_only);
    reveal(unlinked_wf);
    let head = s[0];
    let s2 = s.drop_first();
    assert forall|i: int| 0 <= i < s2.len() implies {
        &&& f1[#[trigger] s2[i] as int].list_id == id
        &&& f1[s2[i] as int].prev == link_prev(s2, i)
        &&& f1[s2[i] as int].next == link_next(s2, i)
    } by {
        assert(s2[i] == s[i + 1]);
        assert(s[i + 1] != s[0]);
        if i + 2 < s.len() {
            assert(s2[i + 1] == s[i + 2]);
        }
        if i > 0 {
            assert(s2[i - 1] == s[i]);
            assert(s[i + 1] != s[1]);
        }
    }
    assert forall|f: int| 0 <= f < f1.len() && #[trigger] f1[f].list_id == id implies s2.contains(
        f as FrameRef,
    ) by {
        assert(f != head as int);
        assert(f0[f].list_id == id);
        assert(s.contains(f as FrameRef));
        let j = lemma_index_of_member(s, f as FrameRef);
        assert(j != 0);
        assert(s2[j - 1] == f as FrameRef);
    }
    assert forall|i: int| 0 <= i < s2.len() implies (#[trigger] s2[i] as int) < f1.len() by {
        assert(s2[i] == s[i + 1]);
    }
    assert forall|k: int|
        0 <= k < f0.len() && k != head as int && !s.contains(k as FrameRef) implies #[trigger] f1[k]
        == f0[k] by {
        if s.len() > 1 {
            assert(s.contains(s[1]));
        }
    }
    assert forall|k: int| 0 <= k < f0.len() && k != head as int implies (#[trigger] f1[k]).list_id
        == f0[k].list_id && f1[k].cap == f0[k].cap by {}
    assert forall|f: int|
        0 <= f < f1.len() && #[trigger] f1[f].list_id == ListID::NoList implies f1[f].prev == None::<
        FrameRef,
    > && f1[f].next == None::<FrameRef> by {
        if f != head as int {
            assert(f0[f].list_id == ListID::NoList);
            if s.len() > 1 {
                assert(f != s[1] as int);
            }
        }
    }
    assert(s2.no_duplicates());
}

/// Takes the front entry off list `l`.
fn list_pop_front(frames: &mut Vec<Frame>, l: &mut FrameList, Ghost(s): Ghost<Seq<FrameRef>>, Ghost(id): Ghost<ListID>) -> (r: Option<FrameRef>)
    requires
        list_wf(old(frames)@, *old(l), s, id),
        unlinked_wf(old(frames)@),
        id != ListID::NoList,
    ensures
        s.len() == 0 ==> r == None::<FrameRef> && final(frames)@ == old(frames)@ && *final(l) == *old(l),
        s.len() > 0 ==> {
            &&& r == Some(s[0])
            &&& list_wf(final(frames)@, *final(l), s.drop_first(), id)
            &&& changed_only(old(frames)@, final(frames)@, s, s[0] as int)
            &&& final(frames)@[s[0] as int] == Frame {
                prev: None,
                next: None,
                list_id: ListID::NoList,
                ..old(frames)@[s[0] as int]
            }
        },
        unlinked_wf(final(frames)@),
{
    reveal(list_links_wf);
    reveal(changed_only);
    reveal(unlinked_wf);
    if l.first.is_none() {
        return None;
    }
    let head = l.first.unwrap();
    let ghost f0 = frames@;
    assert(s[0] == head);
    let next = frames[head as usize].next;
    if l.last == l.first {
        assert(s.len() == 1) by {
            if s.len() > 1 {
                assert(s[s.len() - 1] != s[0]);
            }
        }
        l.last = None;
    } else {
        assert(s.len() > 1);
        let nx = next.unwrap();
        set_prev(frames, nx, None);
    }
    l.first = next;
    set_entry(frames, head, None, None, ListID::NoList);
    l.length = l.length - 1;
    proof {
        lemma_pop_front_links(f0, frames@, s, id);
    }
    Some(head)
}

/// Puts unlinked entry `r` at the back of list `l`.
fn list_push_back(frames: &mut Vec<Frame>, l: &mut FrameList, Ghost(s): Ghost<Seq<FrameRef>>, Ghost(id): Ghost<ListID>, r: FrameRef)
    requires
        list_wf(old(frames)@, *old(l), s, id),
        unlinked_wf(old(frames)@),
        id != ListID::NoList,
        (r as int) < old(frames)@.len(),
        old(frames)@[r as int].list_id == ListID::NoList,
        s.len() < usize::MAX,
    ensures
        list_wf(final(frames)@, *final(l), s.push(r), id),
        changed_only(old(frames)@, final(frames)@, s, r as int),
        final(frames)@[r as int].list_id == id,
        final(frames)@[r as int].cap == old(frames)@[r as int].cap,
        unlinked_wf(final(frames)@),
{
    reveal(list_links_wf);
    reveal(changed_only);
    reveal(unlinked_wf);
    let ghost f0 = frames@;
    assert(!s.contains(r)) by {
        if s.contains(r) {
            let j = lemma_index_of_member(s, r);
        }
    }
    let old_last = l.last;
    match old_last {
        Some(last) => {
            set_next(frames, last, Some(r));
        },
        None => {
            l.first = Some(r);
        },
    }
    set_entry(frames, r, old_last, None, l.list_id);
    l.last = Some(r);
    l.length = l.length + 1;
    proof {
        let s2 = s.push(r);
        let f1 = frames@;
        assert forall|i: int| 0 <= i < s2.len() implies {
            &&& f1[#[trigger] s2[i] as int].list_id == id
            &&& f1[s2[i] as int].prev == link_prev(s2, i)
            &&& f1[s2[i] as int].next == link_next(s2, i)
        } by {
            if i < s.len() {
                assert(s2[i] == s[i]);
                assert(s[i] != r);
            }
        }
        assert forall|f: int| 0 <= f < f1.len() && #[trigger] f1[f].list_id == id implies s2.contains(
            f as FrameRef,
        ) by {
            if f == r as int {
                assert(s2[s.len() as int] == r);
            } else {
                assert(f0[f].list_id == id);
                let j = lemma_index_of_member(s, f as FrameRef);
                assert(s2[j] == f as FrameRef);
            }
        }
        assert forall|i: int| 0 <= i < s2.len() implies (#[trigger] s2[i] as int) < f1.len() by {
            if i < s.len() {
                assert(s2[i] == s[i]);
            }
        }
        assert(s2.no_duplicates()) by {
            assert forall|i: int, j: int| 0 <= i < s2.len() && 0 <= j < s2.len() && i != j implies s2[i]
                != s2[j] by {
                if i < s.len() && j < s.len() {
                    assert(s2[i] == s[i] && s2[j] == s[j]);
                } else if i < s.len() {
                    assert(s2[i] == s[i]);
                } else if j < s.len() {
                    assert(s2[j] == s[j]);
                }
            }
        }
        assert forall|k: int|
            0 <= k < f0.len() && k != r as int && !s.contains(k as FrameRef) implies #[trigger] f1[k]
            == f0[k] by {
            if s.len() > 0 {
                assert(s.contains(s.last()));
            }
        }
        assert(f1[r as int].prev == link_prev(s2, s.len() as int));
    }
}

/// Puts unlinked entry `r` at the front of list `l`.
fn list_push_front(frames: &mut Vec<Frame>, l: &mut FrameList, Ghost(s): Ghost<Seq<FrameRef>>, Ghost(id): Ghost<ListID>, r: FrameRef)
    requires
        list_wf(old(frames)@, *old(l), s, id),
        unlinked_wf(old(frames)@),
        id != ListID::NoList,
        (r as int) < old(frames)@.len(),
        old(frames)@[r as int].list_id == ListID::NoList,
        s.len() < usize::MAX,
    ensures
        list_wf(final(frames)@, *final(l), seq![r].add(s), id),
        changed_only(old(frames)@, final(frames)@, s, r as int),
        final(frames)@[r as int].list_id == id,
        final(frames)@[r as int].cap == old(frames)@[r as int].cap,
        unlinked_wf(final(frames)@),
{
    reveal(list_links_wf);
    reveal(changed_only);
    reveal(unlinked_wf);
    let ghost f0 = frames@;
    assert(!s.contains(r)) by {
        if s.contains(r) {
            let j = lemma_index_of_member(s, r);
        }
    }
    let old_first = l.first;
    if l.last.is_none() {
        l.last = Some(r);
    }
    set_entry(frames, r, None, old_first, l.list_id);
    match old_first {
        Some(first) => {
            set_prev(frames, first, Some(r));
        },
        None => {},
    }
    l.first = Some(r);
    l.length = l.length + 1;
    proof {
        let s2 = seq![r].add(s);
        let f1 = frames@;
        assert(s2.len() == s.len() + 1);
        assert(s2[0] == r);
        assert forall|i: int| 0 < i < s2.len() implies s2[i] == s[i - 1] by {}
        assert forall|i: int| 0 <= i < s2.len() implies {
            &&& f1[#[trigger] s2[i] as int].list_id == id
            &&& f1[s2[i] as int].prev == link_prev(s2, i)
            &&& f1[s2[i] as int].next == link_next(s2, i)
        } by {
            if i > 0 {
                assert(s2[i] == s[i - 1]);
                assert(s[i - 1] != r);
                if i + 1 < s2.len() {
                    assert(s2[i + 1] == s[i]);
                }
                if i > 1 {
                    assert(s2[i - 1] == s[i - 2]);
                }
            } else {
                if s.len() > 0 {
                    assert(s2[1] == s[0]);
                }
            }
        }
        assert forall|f: int| 0 <= f < f1.len() && #[trigger] f1[f].list_id == id implies s2.contains(
            f as FrameRef,
        ) by {
            if f == r as int {
                assert(s2[0] == r);
            } else {
                assert(f0[f].list_id == id);
                let j = lemma_index_of_member(s, f as FrameRef);
                assert(s2[j + 1] == f as FrameRef);
            }
        }
        assert forall|i: int| 0 <= i < s2.len() implies (#[trigger] s2[i] as int) < f1.len() by {
            if i > 0 {
                assert(s2[i] == s[i - 1]);
            }
        }
        assert(s2.no_duplicates()) by {
            assert forall|i: int, j: int| 0 <= i < s2.len() && 0 <= j < s2.len() && i != j implies s2[i]
                != s2[j] by {
                if i > 0 && j > 0 {
                    assert(s2[i] == s[i - 1] && s2[j] == s[j - 1]);
                } else if i > 0 {
                    assert(s2[i] == s[i - 1]);
                } else if j > 0 {
                    assert(s2[j] == s[j - 1]);
                }
            }
        }
        assert forall|k: int|
            0 <= k < f0.len() && k != r as int && !s.contains(k as FrameRef) implies #[trigger] f1[k]
            == f0[k] by {
            if s.len() > 0 {
                assert(s.contains(s[0]));
            }
        }
        if s.len() > 0 {
            assert(s2.last() == s.last());
        }
    }
}

/// The entries after unlinking `s[i]`: its neighbours are joined and it is reset.
pub open spec fn frames_after_remove(f0: Seq<Frame>, s: Seq<FrameRef>, i: int) -> Seq<Frame> {
    let fa = if i > 0 {
        f0.update(s[i - 1] as int, Frame { next: link_next(s, i), ..f0[s[i - 1] as int] })
    } else {
        f0
    };
    let fb = if i + 1 < s.len() {
        fa.update(s[i + 1] as int, Frame { prev: link_prev(s, i), ..fa[s[i + 1] as int] })
    } else {
        fa
    };
    fb.update(s[i] as int, Frame { prev: None, next: None, list_id: ListID::NoList, ..fb[s[i] as int] })
}

proof fn lemma_remove_links(f0: Seq<Frame>, f1: Seq<Frame>, s: Seq<FrameRef>, id: ListID, i: int)
    requires
        list_links_wf(f0, s, id),
        unlinked_wf(f0),
        id != ListID::NoList,
        0 <= i < s.len(),
        f1 == frames_after_remove(f0, s, i),
    ensures
        list_links_wf(f1, s.remove(i), id),
        changed_only(f0, f1, s, s[i] as int),
        unlinked_wf(f1),
        f1[s[i] as int] == (Frame { prev: None, next: None, list_id: ListID::NoList, ..f0[s[i] as int] }),
{
    reveal(list_links_wf);
    reveal(changed_only);
    reveal(unlinked_wf);
    let r = s[i];
    let s2 = s.remove(i);
    assert forall|k: int| 0 <= k < s2.len() implies #[trigger] s2[k] == (if k < i { s[k] } else { s[k + 1] }) by {}
    assert forall|k: int| 0 <= k < s2.len() implies {
        &&& f1[#[trigger] s2[k] as int].list_id == id
        &&& f1[s2[k] as int].prev == link_prev(s2, k)
        &&& f1[s2[k] as int].next == link_next(s2, k)
    } by {
        if k < i {
            assert(s2[k] == s[k]);
            assert(s[k] != r);
            if k + 1 < i {
                assert(s2[k + 1] == s[k + 1]);
                assert(s[k] != s[i - 1]);
            } else if k + 1 < s2.len() {
                assert(s2[k + 1] == s[k + 2]);
            }
            if k > 0 {
                assert(s2[k - 1] == s[k - 1]);
            }
            if i + 1 < s.len() {
                assert(s[k] != s[i + 1]);
            }
        } else {
            assert(s2[k] == s[k + 1]);
            assert(s[k + 1] != r);
            if k + 1 < s2.len() {
                assert(s2[k + 1] == s[k + 2]);
            }
            if k > i {
                assert(s2[k - 1] == s[k]);
                assert(s[k + 1] != s[i + 1]);
            } else if k > 0 {
                assert(s2[k - 1] == s[k - 1]);
            }
            if i > 0 {
                assert(s[k + 1] != s[i - 1]);
            }
        }
    }
    assert forall|f: int| 0 <= f < f1.len() && #[trigger] f1[f].list_id == id implies s2.contains(
        f as FrameRef,
    ) by {
        assert(f != r as int);
        assert(f0[f].list_id == id);
        let j = lemma_index_of_member(s, f as FrameRef);
        assert(j != i);
        if j < i {
            assert(s2[j] == f as FrameRef);
        } else {
            assert(s2[j - 1] == f as FrameRef);
        }
    }
    assert forall|k: int| 0 <= k < s2.len() implies (#[trigger] s2[k] as int) < f1.len() by {
        if k < i {
            assert(s2[k] == s[k]);
        } else {
            assert(s2[k] == s[k + 1]);
        }
    }
    assert forall|k: int|
        0 <= k < f0.len() && k != r as int && !s.contains(k as FrameRef) implies #[trigger] f1[k]
        == f0[k] by {
        if i > 0 {
            assert(s.contains(s[i - 1]));
        }
        if i + 1 < s.len() {
            assert(s.contains(s[i + 1]));
        }
    }
    assert forall|f: int|
        0 <= f < f1.len() && #[trigger] f1[f].list_id == ListID::NoList implies f1[f].prev == None::<
        FrameRef,
    > && f1[f].next == None::<FrameRef> by {
        if f != r as int {
            if i > 0 {
                assert(f != s[i - 1] as int);
            }
            if i + 1 < s.len() {
                assert(f != s[i + 1] as int);
            }
        }
    }
    assert(s2.no_duplicates()) by {
        assert forall|a: int, b: int| 0 <= a < s2.len() && 0 <= b < s2.len() && a != b implies s2[a]
            != s2[b] by {
            let a0 = if a < i { a } else { a + 1 };
            let b0 = if b < i { b } else { b + 1 };
            assert(s2[a] == s[a0] && s2[b] == s[b0]);
        }
    }
    if i + 1 < s.len() {
        assert(s[i + 1] != r);
    }
}

/// Unlinks entry `s[i]` from list `l`.
fn list_remove(frames: &mut Vec<Frame>, l: &mut FrameList, Ghost(s): Ghost<Seq<FrameRef>>, Ghost(id): Ghost<ListID>, Ghost(i): Ghost<int>, r: FrameRef)
    requires
        list_wf(old(frames)@, *old(l), s, id),
        unlinked_wf(old(frames)@),
        id != ListID::NoList,
        0 <= i < s.len(),
        s[i] == r,
    ensures
        list_wf(final(frames)@, *final(l), s.remove(i), id),
        changed_only(old(frames)@, final(frames)@, s, r as int),
        final(frames)@[r as int] == (Frame { prev: None, next: None, list_id: ListID::NoList, ..old(frames)@[r as int] }),
        unlinked_wf(final(frames)@),
{
    reveal(list_links_wf);
    reveal(changed_only);
    reveal(unlinked_wf);
    let ghost f0 = frames@;
    let prev = frames[r as usize].prev;
    let next = frames[r as usize].next;
    match prev {
        None => {
            l.first = next;
        },
        Some(p) => {
            set_next(frames, p, next);
        },
    }
    match next {
        None => {
            l.last = prev;
        },
        Some(n) => {
            set_prev(frames, n, prev);
        },
    }
    l.length = l.length - 1;
    set_entry(frames, r, None, None, ListID::NoList);
    proof {
        lemma_remove_links(f0, frames@, s, id, i);
        let s2 = s.remove(i);
        if s2.len() > 0 {
            if i == 0 {
                assert(s2[0] == s[1]);
            } else {
                assert(s2[0] == s[0]);
            }
            if i == s.len() - 1 {
                assert(s2.last() == s[i - 1]);
            } else {
                assert(s2.last() == s.last());
            }
        }
    }
}

/// Plain consequences of a list's links.
proof fn lemma_links_facts(frames: Seq<Frame>, s: Seq<FrameRef>, id: ListID)
    requires
        list_links_wf(frames, s, id),
    ensures
        frames.len() <= u32::MAX,
        s.no_duplicates(),
        forall|k: int|
            0 <= k < s.len() ==> (#[trigger] s[k] as int) < frames.len() && frames[s[k] as int].list_id
                == id,
{
    reveal(list_links_wf);
}

/// Plain consequences of a change confined to one list and one entry.
proof fn lemma_changed_facts(a: Seq<Frame>, b: Seq<Frame>, s: Seq<FrameRef>, r: int)
    requires
        changed_only(a, b, s, r),
    ensures
        a.len() == b.len(),
        forall|k: int| 0 <= k < a.len() && k != r ==> (#[trigger] b[k]).list_id == a[k].list_id && b[k].cap == a[k].cap,
{
    reveal(changed_only);
}

/// A list whose entries are untouched keeps its links when another list changes.
proof fn lemma_other_list_kept(f0: Seq<Frame>, f1: Seq<Frame>, s: Seq<FrameRef>, r: int, t: Seq<FrameRef>, id2: ListID)
    requires
        list_links_wf(f0, t, id2),
        changed_only(f0, f1, s, r),
        forall|k: int| 0 <= k < s.len() ==> f0[#[trigger] s[k] as int].list_id != id2,
        0 <= r < f0.len(),
        f0[r].list_id != id2,
        f1[r].list_id != id2,
        forall|k: int| 0 <= k < s.len() ==> (#[trigger] s[k] as int) < f0.len(),
    ensures
        list_links_wf(f1, t, id2),
{
    reveal(list_links_wf);
    reveal(changed_only);
    reveal(unlinked_wf);
    assert forall|i: int| 0 <= i < t.len() implies f1[#[trigger] t[i] as int] == f0[t[i] as int] by {
        let k = t[i] as int;
        assert(k != r);
        if s.contains(k as FrameRef) {
            let j = lemma_index_of_member(s, k as FrameRef);
            assert(f0[s[j] as int].list_id != id2);
        }
    }
    assert forall|f: int| 0 <= f < f1.len() && #[trigger] f1[f].list_id == id2 implies t.contains(
        f as FrameRef,
    ) by {
        assert(f != r);
        assert(f0[f].list_id == id2);
    }
}

impl View for FrameTable {
    type V = FrameTableView;

    closed spec fn view(&self) -> FrameTableView {
        FrameTableView {
            free: self.free_seq@,
            allocated: self.alloc_seq@,
            caps: self.frames@.map_values(|f: Frame| f.cap),
        }
    }
}

impl FrameTable {
    /// The table's internal links agree with its abstract lists.
    pub closed spec fn wf(&self) -> bool {
        &&& list_wf(self.frames@, self.free, self.free_seq@, ListID::FreeList)
        &&& list_wf(self.frames@, self.allocated, self.alloc_seq@, ListID::AllocatedList)
        &&& unlinked_wf(self.frames@)
        &&& self.free_seq@.len() + self.alloc_seq@.len() <= self.frames@.len()
        &&& self.frames@.len() <= u32::MAX
    }

    /// The address space the frames are mapped into.
    pub closed spec fn spec_vspace(&self) -> u64 {
        self.vspace
    }

    /// An empty frame table for frames mapped into `vspace`.
    pub fn init(vspace: u64) -> (t: Self)
        ensures
            t.wf(),
            t@.free == Seq::<FrameRef>::empty(),
            t@.allocated == Seq::<FrameRef>::empty(),
            t@.caps == Seq::<u64>::empty(),
            t.spec_vspace() == vspace,
    {
        reveal(list_links_wf);
        reveal(unlinked_wf);
        let t = FrameTable {
            frames: Vec::new(),
            free: FrameList { list_id: ListID::FreeList, first: None, last: None, length: 0 },
            allocated: FrameList { list_id: ListID::AllocatedList, first: None, last: None, length: 0 },
            vspace: vspace,
            free_seq: Ghost(Seq::empty()),
            alloc_seq: Ghost(Seq::empty()),
        };
        assert(t@.caps =~= Seq::<u64>::empty());
        t
    }

    /// A well-formed table has a well-formed view.
    pub proof fn lemma_view_wf(&self)
        requires
            self.wf(),
        ensures
            view_wf(self@),
    {
        reveal(list_links_wf);
        reveal(unlinked_wf);
        assert forall|r: FrameRef| !(#[trigger] self@.free.contains(r) && #[trigger] self@.allocated.contains(r)) by {
            if self@.free.contains(r) && self@.allocated.contains(r) {
                let i = lemma_index_of_member(self.free_seq@, r);
                let j = lemma_index_of_member(self.alloc_seq@, r);
                assert(self.frames@[self.free_seq@[i] as int].list_id == ListID::FreeList);
                assert(self.frames@[self.alloc_seq@[j] as int].list_id == ListID::AllocatedList);
            }
        }
    }

    /// The address space the frames are mapped into.
    pub fn vspace(&self) -> (v: u64)
        ensures
            v == self.spec_vspace(),
    {
        self.vspace
    }

    /// The capability of frame `frame_ref`.
    pub fn get_cap(&self, frame_ref: FrameRef) -> (cap: u64)
        requires
            (frame_ref as int) < self@.caps.len(),
        ensures
            cap == self@.caps[frame_ref as int],
    {
        self.frames[frame_ref as usize].cap
    }

    /// Appends a fresh entry, on no list, for a new frame with capability `cap`.
    fn alloc_fresh_frame(&mut self, cap: u64) -> (r: FrameRef)
        requires
            old(self).wf(),
            old(self).frames@.len() < u32::MAX,
        ensures
            r as int == old(self).frames@.len(),
            final(self).frames@ == old(self).frames@.push(
                Frame { cap: cap, prev: None, next: None, list_id: ListID::NoList },
            ),
            final(self).wf(),
            final(self).free_seq@ == old(self).free_seq@,
            final(self).alloc_seq@ == old(self).alloc_seq@,
            final(self).free == old(self).free,
            final(self).allocated == old(self).allocated,
            final(self).vspace == old(self).vspace,
    {
        reveal(list_links_wf);
        reveal(unlinked_wf);
        let r = self.frames.len() as FrameRef;
        let ghost f0 = self.frames@;
        self.frames.push(Frame { cap: cap, prev: None, next: None, list_id: ListID::NoList });
        proof {
            let f1 = self.frames@;
            assert forall|id: ListID, t: Seq<FrameRef>| #[trigger] list_links_wf(f0, t, id) && id != ListID::NoList implies list_links_wf(f1, t, id) by {
                assert forall|i: int| 0 <= i < t.len() implies f1[#[trigger] t[i] as int] == f0[t[i] as int] by {}
                assert forall|f: int| 0 <= f < f1.len() && #[trigger] f1[f].list_id == id implies t.contains(
                    f as FrameRef,
                ) by {
                    assert(f < f0.len());
                    assert(f0[f].list_id == id);
                }
            }
            assert(list_links_wf(f0, self.free_seq@, ListID::FreeList));
            assert(list_links_wf(f0, self.alloc_seq@, ListID::AllocatedList));
        }
        r
    }

    /// Where the data of frame `frame_ref` is mapped in the root server.
    pub fn frame_data(&self, frame_ref: FrameRef) -> (vaddr: u64)
        requires
            (frame_ref as int) < self@.caps.len(),
        ensures
            vaddr == FRAME_DATA + frame_ref * FRAME_BYTES,
    {
        FRAME_DATA + frame_ref as u64 * FRAME_BYTES
    }

    /// Whether `alloc_frame` needs a fresh frame, and where to map it: when
    /// the free list is empty, the address the next entry's data goes to.
    pub fn fresh_frame_vaddr(&self) -> (r: Option<u64>)
        requires
            self.wf(),
        ensures
            self@.free.len() > 0 ==> r is None,
            self@.free.len() == 0 ==> r == Some((FRAME_DATA + self@.caps.len() * FRAME_BYTES) as u64),
    {
        if self.free.first.is_some() {
            proof {
                reveal(list_links_wf);
            }
            return None;
        }
        proof {
            reveal(list_links_wf);
        }
        let n = self.frames.len() as u64;
        Some(FRAME_DATA + n * FRAME_BYTES)
    }

    /// Hands out a frame: the front of the free list if there is one, else a
    /// fresh frame with capability `fresh_cap` when the caller could make one.
    /// The frame goes to the back of the allocated list.
    pub fn alloc_frame(&mut self, fresh_cap: Option<u64>) -> (r: Option<FrameRef>)
        requires
            old(self).wf(),
        ensures
            final(self).wf(),
            r == alloc_result(old(self)@, fresh_cap).0,
            final(self)@ == alloc_result(old(self)@, fresh_cap).1,
            final(self).spec_vspace() == old(self).spec_vspace(),
    {
        let ghost v0 = self@;
        let ghost f0 = self.frames@;
        proof {
            lemma_links_facts(f0, self.free_seq@, ListID::FreeList);
            lemma_links_facts(f0, self.alloc_seq@, ListID::AllocatedList);
        }
        let popped = list_pop_front(&mut self.frames, &mut self.free, Ghost(self.free_seq@), Ghost(ListID::FreeList));
        let frame = match popped {
            Some(f) => {
                proof {
                    let s = self.free_seq@;
                    lemma_other_list_kept(f0, self.frames@, s, s[0] as int, self.alloc_seq@, ListID::AllocatedList);
                    lemma_changed_facts(f0, self.frames@, s, s[0] as int);
                    self.free_seq@ = s.drop_first();
                }
                f
            },
            None => {
                match fresh_cap {
                    Some(c) => {
                        if self.frames.len() >= 0xffff_ffffusize {
                            return None;
                        }
                        self.alloc_fresh_frame(c)
                    },
                    None => {
                        return None;
                    },
                }
            },
        };
        let ghost f1 = self.frames@;
        proof {
            lemma_links_facts(f1, self.alloc_seq@, ListID::AllocatedList);
            lemma_links_facts(f1, self.free_seq@, ListID::FreeList);
        }
        list_push_back(&mut self.frames, &mut self.allocated, Ghost(self.alloc_seq@), Ghost(ListID::AllocatedList), frame);
        proof {
            let s = self.alloc_seq@;
            lemma_other_list_kept(f1, self.frames@, s, frame as int, self.free_seq@, ListID::FreeList);
            lemma_changed_facts(f1, self.frames@, s, frame as int);
            self.alloc_seq@ = s.push(frame);
            assert(self@.caps =~= alloc_result(v0, fresh_cap).1.caps);
        }
        Some(frame)
    }

    /// Returns allocated frame `frame_ref` to the front of the free list.
    pub fn free_frame(&mut self, frame_ref: FrameRef)
        requires
            old(self).wf(),
            old(self)@.allocated.contains(frame_ref),
        ensures
            final(self).wf(),
            final(self)@ == release_step(old(self)@, frame_ref),
            final(self).spec_vspace() == old(self).spec_vspace(),
    {
        let ghost v0 = self@;
        let ghost f0 = self.frames@;
        let ghost s = self.alloc_seq@;
        let ghost i = lemma_index_of_member(s, frame_ref);
        proof {
            lemma_links_facts(f0, s, ListID::AllocatedList);
            lemma_links_facts(f0, self.free_seq@, ListID::FreeList);
        }
        list_remove(&mut self.frames, &mut self.allocated, Ghost(s), Ghost(ListID::AllocatedList), Ghost(i), frame_ref);
        proof {
            lemma_other_list_kept(f0, self.frames@, s, frame_ref as int, self.free_seq@, ListID::FreeList);
            lemma_changed_facts(f0, self.frames@, s, frame_ref as int);
            self.alloc_seq@ = s.remove(i);
            s.index_of_first_ensures(frame_ref);
            assert(s.index_of_first(frame_ref) == Some(i));
            assert(s.remove(i) =~= s.remove_value(frame_ref));
        }
        let ghost f1 = self.frames@;
        proof {
            lemma_links_facts(f1, self.free_seq@, ListID::FreeList);
            lemma_links_facts(f1, self.alloc_seq@, ListID::AllocatedList);
        }
        list_push_front(&mut self.frames, &mut self.free, Ghost(self.free_seq@), Ghost(ListID::FreeList), frame_ref);
        proof {
            let t = self.free_seq@;
            lemma_other_list_kept(f1, self.frames@, t, frame_ref as int, self.alloc_seq@, ListID::AllocatedList);
            lemma_changed_facts(f1, self.frames@, t, frame_ref as int);
            self.free_seq@ = seq![frame_ref].add(t);
            assert(self@.caps =~= v0.caps);
        }
    }
}

proof fn lemma_remove_value_of_pushed(s: Seq<FrameRef>, r: FrameRef)
    requires
        !s.contains(r),
    ensures
        s.push(r).remove_value(r) =~= s,
{
    s.push(r).index_of_first_ensures(r);
    assert(s.push(r)[s.len() as int] == r);
    assert(s.push(r).index_of_first(r) == Some(s.len() as int)) by {
        match s.push(r).index_of_first(r) {
            Some(j) => {
                if j < s.len() {
                    assert(s[j] == r);
                }
            },
            None => {},
        }
    }
}

proof fn lemma_remove_value_facts(s: Seq<FrameRef>, r: FrameRef)
    requires
        s.no_duplicates(),
        s.contains(r),
    ensures
        s.remove_value(r).no_duplicates(),
        !s.remove_value(r).contains(r),
        s.remove_value(r).len() == s.len() - 1,
        forall|x: FrameRef| #[trigger] s.remove_value(r).contains(x) ==> s.contains(x),
{
    s.index_of_first_ensures(r);
    let i = s.index_of_first(r).unwrap();
    let t = s.remove(i);
    assert forall|k: int| 0 <= k < t.len() implies #[trigger] t[k] == (if k < i { s[k] } else { s[k + 1] }) by {}
    assert forall|x: FrameRef| #[trigger] t.contains(x) implies s.contains(x) by {
        let k = choose|k: int| 0 <= k < t.len() && t[k] == x;
        if k < i {
            assert(s[k] == x);
        } else {
            assert(s[k + 1] == x);
        }
    }
    assert(!t.contains(r)) by {
        if t.contains(r) {
            let k = choose|k: int| 0 <= k < t.len() && t[k] == r;
            if k < i {
                assert(s[k] == s[i]);
            } else {
                assert(s[k + 1] == s[i]);
            }
        }
    }
    assert(t.no_duplicates()) by {
        assert forall|a: int, b: int| 0 <= a < t.len() && 0 <= b < t.len() && a != b implies t[a] != t[b] by {
            let a0 = if a < i { a } else { a + 1 };
            let b0 = if b < i { b } else { b + 1 };
            assert(t[a] == s[a0] && t[b] == s[b0]);
        }
    }
}

/// Law: taking a frame from the free list and freeing it again leaves the
/// table as it was.
pub proof fn law_alloc_then_free_restores(v: FrameTableView)
    requires
        view_wf(v),
        v.free.len() > 0,
    ensures
        release_step(reuse_step(v), v.free[0]) == v,
{
    let r = v.free[0];
    assert(v.free.contains(r));
    lemma_remove_value_of_pushed(v.allocated, r);
    assert(seq![r].add(v.free.drop_first()) =~= v.free);
}

/// Law: the frame freed last is the next one `alloc_frame` hands out.
pub proof fn law_freed_frame_allocated_next(v: FrameTableView, r: FrameRef, fresh_cap: Option<u64>)
    requires
        view_wf(v),
        v.allocated.contains(r),
    ensures
        alloc_result(release_step(v, r), fresh_cap).0 == Some(r),
{
    assert(seq![r].add(v.free)[0] == r);
}

/// The table after freeing the frames of `rs`, in order.
pub open spec fn releases(v: FrameTableView, rs: Seq<FrameRef>) -> FrameTableView
    decreases rs.len(),
{
    if rs.len() == 0 {
        v
    } else {
        release_step(releases(v, rs.drop_last()), rs.last())
    }
}

/// The frames `n` allocations hand out, in order, with no fresh frame to
/// be had, and the table they leave.
pub open spec fn allocs(v: FrameTableView, n: nat) -> (Seq<FrameRef>, FrameTableView)
    decreases n,
{
    if n == 0 {
        (Seq::empty(), v)
    } else {
        let (got, w) = allocs(v, (n - 1) as nat);
        let (r, w2) = alloc_result(w, None);
        (
            match r {
                Some(x) => got.push(x),
                None => got,
            },
            w2,
        )
    }
}

proof fn lemma_releases_free(v: FrameTableView, rs: Seq<FrameRef>)
    ensures
        releases(v, rs).free == rs.reverse().add(v.free),
    decreases rs.len(),
{
    if rs.len() > 0 {
        lemma_releases_free(v, rs.drop_last());
        assert(rs.reverse() =~= seq![rs.last()].add(rs.drop_last().reverse()));
        assert(seq![rs.last()].add(rs.drop_last().reverse().add(v.free)) =~= rs.reverse().add(v.free));
    } else {
        assert(rs.reverse().add(v.free) =~= v.free);
    }
}

proof fn lemma_allocs_take_front(v: FrameTableView, n: nat)
    requires
        n <= v.free.len(),
    ensures
        allocs(v, n).0 == v.free.take(n as int),
        allocs(v, n).1.free == v.free.skip(n as int),
    decreases n,
{
    if n == 0 {
        assert(v.free.take(0) =~= Seq::<FrameRef>::empty());
        assert(v.free.skip(0) =~= v.free);
    } else {
        lemma_allocs_take_front(v, (n - 1) as nat);
        let w = allocs(v, (n - 1) as nat).1;
        assert(w.free[0] == v.free[n - 1]);
        assert(v.free.take(n - 1).push(v.free[n - 1]) =~= v.free.take(n as int));
        assert(w.free.drop_first() =~= v.free.skip(n as int));
    }
}

/// Law: frames freed one after another are handed out again by as many
/// allocations, the last freed first.
pub proof fn law_frees_then_allocs_reverse(v: FrameTableView, rs: Seq<FrameRef>)
    requires
        view_wf(v),
        rs.no_duplicates(),
        forall|i: int| 0 <= i < rs.len() ==> v.allocated.contains(#[trigger] rs[i]),
    ensures
        releases(v, rs).free == rs.reverse().add(v.free),
        allocs(releases(v, rs), rs.len()).0 == rs.reverse(),
{
    lemma_releases_free(v, rs);
    let w = releases(v, rs);
    lemma_allocs_take_front(w, rs.len());
    assert(w.free.take(rs.len() as int) =~= rs.reverse());
}

/// Law: allocation keeps the lists apart and free of repeats; the frame it
/// hands out was not allocated before and is allocated after.
pub proof fn law_alloc_keeps_view_wf(v: FrameTableView, fresh_cap: Option<u64>)
    requires
        view_wf(v),
    ensures
        view_wf(alloc_result(v, fresh_cap).1),
        alloc_result(v, fresh_cap).0 matches Some(r) ==> !v.allocated.contains(r)
            && alloc_result(v, fresh_cap).1.allocated.contains(r),
{
    let (res, w) = alloc_result(v, fresh_cap);
    if v.free.len() > 0 {
        let r = v.free[0];
        assert(v.free.contains(r));
        assert(w.allocated[v.allocated.len() as int] == r);
        assert forall|x: FrameRef| #[trigger] w.allocated.contains(x) implies v.allocated.contains(x) || x == r by {
            let k = choose|k: int| 0 <= k < w.allocated.len() && w.allocated[k] == x;
            if k < v.allocated.len() {
                assert(v.allocated[k] == x);
            }
        }
        assert forall|x: FrameRef| #[trigger] w.free.contains(x) implies v.free.contains(x) && x != r by {
            let k = choose|k: int| 0 <= k < w.free.len() && w.free[k] == x;
            assert(v.free[k + 1] == x);
        }
        assert(w.allocated.no_duplicates()) by {
            assert forall|a: int, b: int| 0 <= a < w.allocated.len() && 0 <= b < w.allocated.len() && a != b implies w.allocated[a] != w.allocated[b] by {
                if a < v.allocated.len() {
                    assert(v.allocated.contains(w.allocated[a]));
                }
                if b < v.allocated.len() {
                    assert(v.allocated.contains(w.allocated[b]));
                }
            }
        }
        assert forall|i: int| 0 <= i < w.allocated.len() implies (#[trigger] w.allocated[i] as int) < w.caps.len() by {
            if i < v.allocated.len() {
                assert(w.allocated[i] == v.allocated[i]);
            }
        }
        assert forall|i: int| 0 <= i < w.free.len() implies (#[trigger] w.free[i] as int) < w.caps.len() by {
            assert(w.free[i] == v.free[i + 1]);
        }
    } else if fresh_cap is Some && v.caps.len() < u32::MAX {
        let r = v.caps.len() as FrameRef;
        assert(!v.allocated.contains(r)) by {
            if v.allocated.contains(r) {
                let k = choose|k: int| 0 <= k < v.allocated.len() && v.allocated[k] == r;
            }
        }
        assert(w.allocated[v.allocated.len() as int] == r);
        assert forall|x: FrameRef| #[trigger] w.allocated.contains(x) implies v.allocated.contains(x) || x == r by {
            let k = choose|k: int| 0 <= k < w.allocated.len() && w.allocated[k] == x;
            if k < v.allocated.len() {
                assert(v.allocated[k] == x);
            }
        }
        assert forall|x: FrameRef| #[trigger] w.free.contains(x) implies x != r by {
            let k = choose|k: int| 0 <= k < w.free.len() && w.free[k] == x;
        }
        assert(w.allocated.no_duplicates()) by {
            assert forall|a: int, b: int| 0 <= a < w.allocated.len() && 0 <= b < w.allocated.len() && a != b implies w.allocated[a] != w.allocated[b] by {
                if a < v.allocated.len() {
                    assert(v.allocated.contains(w.allocated[a]));
                }
                if b < v.allocated.len() {
                    assert(v.allocated.contains(w.allocated[b]));
                }
            }
        }
        assert forall|i: int| 0 <= i < w.allocated.len() implies (#[trigger] w.allocated[i] as int) < w.caps.len() by {
            if i < v.allocated.len() {
                assert(w.allocated[i] == v.allocated[i]);
            }
        }
    }
}

/// Law: freeing an allocated frame keeps the lists apart and free of
/// repeats; the frame ends up free and no longer allocated.
pub proof fn law_free_keeps_view_wf(v: FrameTableView, r: FrameRef)
    requires
        view_wf(v),
        v.allocated.contains(r),
    ensures
        view_wf(release_step(v, r)),
        release_step(v, r).free.contains(r),
        !release_step(v, r).allocated.contains(r),
{
    let w = release_step(v, r);
    lemma_remove_value_facts(v.allocated, r);
    assert(w.free[0] == r);
    assert forall|x: FrameRef| #[trigger] w.free.contains(x) implies v.free.contains(x) || x == r by {
        let k = choose|k: int| 0 <= k < w.free.len() && w.free[k] == x;
        if k > 0 {
            assert(v.free[k - 1] == x);
        }
    }
    assert(!v.free.contains(r));
    assert(w.free.no_duplicates()) by {
        assert forall|a: int, b: int| 0 <= a < w.free.len() && 0 <= b < w.free.len() && a != b implies w.free[a] != w.free[b] by {
            if a > 0 {
                assert(w.free[a] == v.free[a - 1]);
                assert(v.free.contains(w.free[a]));
            }
            if b > 0 {
                assert(w.free[b] == v.free[b - 1]);
                assert(v.free.contains(w.free[b]));
            }
        }
    }
    assert forall|i: int| 0 <= i < w.free.len() implies (#[trigger] w.free[i] as int) < w.caps.len() by {
        if i > 0 {
            assert(w.free[i] == v.free[i - 1]);
        } else {
            let k = choose|k: int| 0 <= k < v.allocated.len() && v.allocated[k] == r;
        }
    }
    assert forall|i: int| 0 <= i < w.allocated.len() implies (#[trigger] w.allocated[i] as int) < w.caps.len() by {
        assert(w.allocated.contains(w.allocated[i]));
        assert(v.allocated.contains(w.allocated[i]));
        let k = choose|k: int| 0 <= k < v.allocated.len() && v.allocated[k] == w.allocated[i];
    }
}

} // verus!
