//! Timeouts of the root server's clock driver: a fixed table of nodes that
//! holds the pending timeouts as a list sorted by deadline and the unused
//! nodes as a free list. Callbacks are held as plain handler numbers that the
//! caller maps to the function to run; deadlines are in nanoseconds.

use vstd::prelude::*;
use crate::error::Sel4Error;

verus! {

/// Number of nodes in the timeout table.
pub const MAX_TIMEOUTS: usize = 1024;

/// One node of the timeout table.
#[derive(Clone, Copy, Debug)]
pub struct TimeoutNode {
    pub deadline: u64,
    pub callback: Option<usize>,
    pub callback_data: usize,
    pub next: Option<u16>,
    pub prev: Option<u16>,
}

/// A pending timeout as seen from outside.
#[derive(Clone, Copy, Debug, PartialEq, Eq, Structural)]
pub struct TimeoutEntry {
    pub deadline: u64,
    pub callback: usize,
    pub data: usize,
    pub index: usize,
}

/// What to do with the timer once no due timeout is left.
#[derive(PartialEq, Eq, Structural, Debug, Clone, Copy)]
pub enum TimerAction {
    /// Program the timer to fire at `deadline`.
    Configure { curr_time: u64, deadline: u64 },
    /// Turn the timer off: nothing is pending.
    Disable,
}

/// The timeout table.
pub struct Timeouts {
    nodes: Vec<TimeoutNode>,
    head_full: Option<u16>,
    head_empty: Option<u16>,
    full: Ghost<Seq<u16>>,
    empty: Ghost<Seq<u16>>,
}

/// Successor of position `i` of list `s`.
pub open spec fn next_of(s: Seq<u16>, i: int) -> Option<u16> {
    if i + 1 >= s.len() {
        None
    } else {
        Some(s[i + 1])
    }
}

/// Head of list `s`.
pub open spec fn head_of(s: Seq<u16>) -> Option<u16> {
    if s.len() == 0 {
        None
    } else {
        Some(s[0])
    }
}

/// `s` is a list of distinct node indices chained through `next`.
#[verifier::opaque]
pub open spec fn chain_wf(nodes: Seq<TimeoutNode>, s: Seq<u16>) -> bool {
    &&& s.no_duplicates()
    &&& forall|i: int| 0 <= i < s.len() ==> (#[trigger] s[i] as int) < nodes.len()
    &&& forall|i: int| 0 <= i < s.len() ==> nodes[#[trigger] s[i] as int].next == next_of(s, i)
}

/// The deadlines along `s` never decrease, and every node of `s` has a callback.
#[verifier::opaque]
pub open spec fn sorted_wf(nodes: Seq<TimeoutNode>, s: Seq<u16>) -> bool {
    &&& forall|i: int, j: int|
        0 <= i < j < s.len() ==> nodes[#[trigger] s[i] as int].deadline <= nodes[#[trigger] s[j] as int].deadline
    &&& forall|i: int| 0 <= i < s.len() ==> (#[trigger] nodes[s[i] as int]).callback is Some
}

/// The entries of list `s`.
pub open spec fn entries_of(nodes: Seq<TimeoutNode>, s: Seq<u16>) -> Seq<TimeoutEntry> {
    s.map_values(
        |idx: u16|
            TimeoutEntry {
                deadline: nodes[idx as int].deadline,
                callback: nodes[idx as int].callback.unwrap(),
                data: nodes[idx as int].callback_data,
                index: idx as usize,
            },
    )
}

/// `p` is where a timeout with deadline `d` goes: after every entry due no
/// later than `d`, before the first entry due after it.
pub open spec fn is_insert_pos(s: Seq<TimeoutEntry>, d: u64, p: int) -> bool {
    &&& 0 <= p <= s.len()
    &&& forall|i: int| 0 <= i < p ==> (#[trigger] s[i]).deadline <= d
    &&& p < s.len() ==> s[p].deadline > d
}

/// The place a new timeout with deadline `d` takes among the entries `s`.
pub open spec fn insert_pos(s: Seq<TimeoutEntry>, d: u64) -> int {
    choose|p: int| is_insert_pos(s, d, p)
}

/// The deadlines of `s` never decrease.
pub open spec fn entries_sorted(s: Seq<TimeoutEntry>) -> bool {
    forall|i: int, j: int| 0 <= i < j < s.len() ==> (#[trigger] s[i]).deadline <= (#[trigger] s[j]).deadline
}

/// The insert position exists and is unique.
pub proof fn lemma_insert_pos(s: Seq<TimeoutEntry>, d: u64, p: int)
    requires
        is_insert_pos(s, d, p),
    ensures
        insert_pos(s, d) == p,
{
    let q = insert_pos(s, d);
    assert(is_insert_pos(s, d, q));
    if q < p {
        assert(s[q].deadline <= d);
    } else if p < q {
        assert(s[p].deadline <= d);
    }
}

proof fn lemma_chain_intro(nodes: Seq<TimeoutNode>, s: Seq<u16>)
    requires
        s.no_duplicates(),
        forall|i: int| 0 <= i < s.len() ==> (#[trigger] s[i] as int) < nodes.len(),
        forall|i: int| 0 <= i < s.len() ==> nodes[#[trigger] s[i] as int].next == next_of(s, i),
    ensures
        chain_wf(nodes, s),
{
    reveal(chain_wf);
}

proof fn lemma_chain_elim(nodes: Seq<TimeoutNode>, s: Seq<u16>)
    requires
        chain_wf(nodes, s),
    ensures
        s.no_duplicates(),
        forall|i: int| 0 <= i < s.len() ==> (#[trigger] s[i] as int) < nodes.len(),
        forall|i: int| 0 <= i < s.len() ==> nodes[#[trigger] s[i] as int].next == next_of(s, i),
{
    reveal(chain_wf);
}

proof fn lemma_sorted_intro(nodes: Seq<TimeoutNode>, s: Seq<u16>)
    requires
        forall|i: int, j: int|
            0 <= i < j < s.len() ==> nodes[#[trigger] s[i] as int].deadline <= nodes[#[trigger] s[j] as int].deadline,
        forall|i: int| 0 <= i < s.len() ==> (#[trigger] nodes[s[i] as int]).callback is Some,
    ensures
        sorted_wf(nodes, s),
{
    reveal(sorted_wf);
}

proof fn lemma_sorted_elim(nodes: Seq<TimeoutNode>, s: Seq<u16>)
    requires
        sorted_wf(nodes, s),
    ensures
        forall|i: int, j: int|
            0 <= i < j < s.len() ==> nodes[#[trigger] s[i] as int].deadline <= nodes[#[trigger] s[j] as int].deadline,
        forall|i: int| 0 <= i < s.len() ==> (#[trigger] nodes[s[i] as int]).callback is Some,
{
    reveal(sorted_wf);
}

/// A chain whose nodes keep their links, deadlines and callbacks keeps its
/// properties and its entries.
proof fn lemma_chain_kept(n0: Seq<TimeoutNode>, n1: Seq<TimeoutNode>, s: Seq<u16>, sorted: bool)
    requires
        chain_wf(n0, s),
        sorted ==> sorted_wf(n0, s),
        n0.len() == n1.len(),
        forall|i: int| 0 <= i < s.len() ==> (#[trigger] n1[s[i] as int]).next == n0[s[i] as int].next
            && n1[s[i] as int].deadline == n0[s[i] as int].deadline
            && n1[s[i] as int].callback == n0[s[i] as int].callback
            && n1[s[i] as int].callback_data == n0[s[i] as int].callback_data,
    ensures
        chain_wf(n1, s),
        sorted ==> sorted_wf(n1, s),
        entries_of(n1, s) == entries_of(n0, s),
{
    lemma_chain_elim(n0, s);
    assert forall|i: int| 0 <= i < s.len() implies n1[#[trigger] s[i] as int].next == next_of(s, i) by {
        assert(n1[s[i] as int].next == n0[s[i] as int].next);
    }
    lemma_chain_intro(n1, s);
    if sorted {
        lemma_sorted_elim(n0, s);
        assert forall|i: int, j: int| 0 <= i < j < s.len() implies n1[#[trigger] s[i] as int].deadline
            <= n1[#[trigger] s[j] as int].deadline by {
            assert(n1[s[i] as int].deadline == n0[s[i] as int].deadline);
            assert(n1[s[j] as int].deadline == n0[s[j] as int].deadline);
        }
        assert forall|i: int| 0 <= i < s.len() implies (#[trigger] n1[s[i] as int]).callback is Some by {
            assert(n1[s[i] as int].callback == n0[s[i] as int].callback);
        }
        lemma_sorted_intro(n1, s);
    }
    assert(entries_of(n1, s) =~= entries_of(n0, s)) by {
        assert forall|i: int| 0 <= i < s.len() implies entries_of(n1, s)[i] == entries_of(n0, s)[i] by {
            assert(n1[s[i] as int].deadline == n0[s[i] as int].deadline);
        }
    }
}

fn set_node_next(nodes: &mut Vec<TimeoutNode>, i: u16, next: Option<u16>)
    requires
        (i as int) < old(nodes)@.len(),
    ensures
        final(nodes)@ == old(nodes)@.update(i as int, TimeoutNode { next: next, ..old(nodes)@[i as int] }),
{
    let mut n = nodes[i as usize];
    n.next = next;
    nodes[i as usize] = n;
}

fn set_node_prev(nodes: &mut Vec<TimeoutNode>, i: u16, prev: Option<u16>)
    requires
        (i as int) < old(nodes)@.len(),
    ensures
        final(nodes)@ == old(nodes)@.update(i as int, TimeoutNode { prev: prev, ..old(nodes)@[i as int] }),
{
    let mut n = nodes[i as usize];
    n.prev = prev;
    nodes[i as usize] = n;
}

fn set_node_payload(nodes: &mut Vec<TimeoutNode>, i: u16, deadline: u64, callback: usize, data: usize)
    requires
        (i as int) < old(nodes)@.len(),
    ensures
        final(nodes)@ == old(nodes)@.update(
            i as int,
            TimeoutNode {
                deadline: deadline,
                callback: Some(callback),
                callback_data: data,
                ..old(nodes)@[i as int]
            },
        ),
{
    let mut n = nodes[i as usize];
    n.deadline = deadline;
    n.callback = Some(callback);
    n.callback_data = data;
    nodes[i as usize] = n;
}

/// Whether a timeout with deadline `d` goes to the front of the entries `s`.
pub open spec fn goes_first(s: Seq<TimeoutEntry>, d: u64) -> bool {
    s.len() == 0 || d < s[0].deadline
}

/// Dropping the head of a sorted chain whose other nodes are untouched.
proof fn lemma_drop_first_kept(n0: Seq<TimeoutNode>, n1: Seq<TimeoutNode>, s: Seq<u16>)
    requires
        chain_wf(n0, s),
        sorted_wf(n0, s),
        s.len() > 0,
        n0.len() == n1.len(),
        forall|k: int| 0 <= k < n1.len() && k != s[0] as int ==> (#[trigger] n1[k]).next == n0[k].next
            && n1[k].deadline == n0[k].deadline && n1[k].callback == n0[k].callback
            && n1[k].callback_data == n0[k].callback_data,
    ensures
        chain_wf(n1, s.drop_first()),
        sorted_wf(n1, s.drop_first()),
        entries_of(n1, s.drop_first()) == entries_of(n0, s).drop_first(),
{
    lemma_chain_elim(n0, s);
    lemma_sorted_elim(n0, s);
    let s2 = s.drop_first();
    assert forall|i: int| 0 <= i < s2.len() implies #[trigger] s2[i] == s[i + 1] && s[i + 1] != s[0] by {}
    assert forall|i: int| 0 <= i < s2.len() implies n0[#[trigger] s2[i] as int].next == next_of(s2, i) by {
        assert(s2[i] == s[i + 1]);
    }
    assert forall|i: int| 0 <= i < s2.len() implies (#[trigger] s2[i] as int) < n0.len() by {
        assert(s2[i] == s[i + 1]);
    }
    lemma_chain_intro(n0, s2);
    assert forall|i: int, j: int| 0 <= i < j < s2.len() implies n0[#[trigger] s2[i] as int].deadline
        <= n0[#[trigger] s2[j] as int].deadline by {
        assert(s2[i] == s[i + 1] && s2[j] == s[j + 1]);
    }
    assert forall|i: int| 0 <= i < s2.len() implies (#[trigger] n0[s2[i] as int]).callback is Some by {
        assert(s2[i] == s[i + 1]);
    }
    lemma_sorted_intro(n0, s2);
    lemma_chain_kept(n0, n1, s2, true);
    assert(entries_of(n0, s2) =~= entries_of(n0, s).drop_first());
}

/// Pushing the old head of the pending list onto the free list.
proof fn lemma_push_free(n0: Seq<TimeoutNode>, n1: Seq<TimeoutNode>, s: Seq<u16>, e: Seq<u16>)
    requires
        chain_wf(n0, s),
        chain_wf(n0, e),
        forall|x: u16| !(#[trigger] s.contains(x) && #[trigger] e.contains(x)),
        s.len() > 0,
        n0.len() == n1.len(),
        n1[s[0] as int].next == head_of(e),
        forall|k: int| 0 <= k < n1.len() && k != s[0] as int ==> (#[trigger] n1[k]).next == n0[k].next,
    ensures
        chain_wf(n1, seq![s[0]].add(e)),
        forall|x: u16| !(#[trigger] s.drop_first().contains(x) && #[trigger] seq![s[0]].add(e).contains(x)),
{
    lemma_chain_elim(n0, s);
    lemma_chain_elim(n0, e);
    let rm = s[0];
    let e2 = seq![rm].add(e);
    let s2 = s.drop_first();
    assert(s.contains(rm));
    assert(!e.contains(rm));
    assert forall|i: int| 0 < i < e2.len() implies #[trigger] e2[i] == e[i - 1] by {}
    assert forall|i: int| 0 <= i < e2.len() implies n1[#[trigger] e2[i] as int].next == next_of(e2, i) by {
        if i > 0 {
            assert(e2[i] == e[i - 1]);
            assert(e.contains(e[i - 1]));
            if i + 1 < e2.len() {
                assert(e2[i + 1] == e[i]);
            }
        } else {
            if e.len() > 0 {
                assert(e2[1] == e[0]);
            }
        }
    }
    assert forall|i: int| 0 <= i < e2.len() implies (#[trigger] e2[i] as int) < n1.len() by {
        if i > 0 {
            assert(e2[i] == e[i - 1]);
        }
    }
    assert(e2.no_duplicates()) by {
        assert forall|a: int, b: int| 0 <= a < e2.len() && 0 <= b < e2.len() && a != b implies e2[a] != e2[b] by {
            if a > 0 {
                assert(e2[a] == e[a - 1]);
                assert(e.contains(e2[a]));
            }
            if b > 0 {
                assert(e2[b] == e[b - 1]);
                assert(e.contains(e2[b]));
            }
        }
    }
    lemma_chain_intro(n1, e2);
    assert forall|x: u16| !(#[trigger] s2.contains(x) && #[trigger] e2.contains(x)) by {
        if s2.contains(x) && e2.contains(x) {
            let a = choose|a: int| 0 <= a < s2.len() && s2[a] == x;
            let b = choose|b: int| 0 <= b < e2.len() && e2[b] == x;
            assert(s[a + 1] == x);
            assert(s.contains(x));
            if b == 0 {
                assert(s[a + 1] == s[0]);
            } else {
                assert(e[b - 1] == x);
                assert(e.contains(x));
            }
        }
    }
}

/// What the caller of a due timeout gets to run it: its callback, its data
/// and its number, the node index plus one.
pub open spec fn due_call(e: TimeoutEntry) -> (usize, usize, usize) {
    (e.callback, e.data, (e.index + 1) as usize)
}

/// The nodes of the first `k` entries, the last of them first.
pub open spec fn freed_rev(es: Seq<TimeoutEntry>, k: int) -> Seq<u16> {
    Seq::new(k as nat, |i: int| es[k - 1 - i].index as u16)
}

/// The entry a new timeout adds.
pub open spec fn new_entry(deadline: u64, callback: usize, data: usize, idx: u16) -> TimeoutEntry {
    TimeoutEntry { deadline: deadline, callback: callback, data: data, index: idx as usize }
}

/// A node holding a new timeout has these fields.
pub open spec fn holds(n: TimeoutNode, deadline: u64, callback: usize, data: usize) -> bool {
    n.deadline == deadline && n.callback == Some(callback) && n.callback_data == data
}

/// Nodes other than `a` and `b` keep their link and payload.
pub open spec fn others_kept(n0: Seq<TimeoutNode>, n1: Seq<TimeoutNode>, a: int, b: int) -> bool {
    &&& n0.len() == n1.len()
    &&& forall|k: int| 0 <= k < n1.len() && k != a && k != b ==> (#[trigger] n1[k]).next == n0[k].next
        && n1[k].deadline == n0[k].deadline && n1[k].callback == n0[k].callback
        && n1[k].callback_data == n0[k].callback_data
}

/// The free list after its head is taken, when besides the head only a node
/// `b` off the free list changed.
proof fn lemma_take_free_head(n0: Seq<TimeoutNode>, n1: Seq<TimeoutNode>, s: Seq<u16>, e: Seq<u16>, b: int)
    requires
        chain_wf(n0, e),
        e.len() > 0,
        others_kept(n0, n1, e[0] as int, b),
        b == e[0] as int || (0 <= b <= u16::MAX && !e.contains(b as u16)),
        forall|x: u16| !(#[trigger] s.contains(x) && #[trigger] e.contains(x)),
    ensures
        chain_wf(n1, e.drop_first()),
        n0[e[0] as int].next == head_of(e.drop_first()),
        !s.contains(e[0]),
        forall|x: u16| !(#[trigger] s.contains(x) && #[trigger] e.drop_first().contains(x)),
        forall|x: u16| !(#[trigger] seq![e[0]].add(s).contains(x) && #[trigger] e.drop_first().contains(x)),
{
    lemma_chain_elim(n0, e);
    let e2 = e.drop_first();
    assert(e.contains(e[0]));
    assert forall|i: int| 0 <= i < e2.len() implies #[trigger] e2[i] == e[i + 1] && e[i + 1] != e[0] by {}
    assert forall|i: int| 0 <= i < e2.len() implies n1[#[trigger] e2[i] as int].next == next_of(e2, i) by {
        assert(e2[i] == e[i + 1]);
        assert(e.contains(e[i + 1]));
        if e2[i] as int == b {
            assert(e2[i] == b as u16);
        }
    }
    assert forall|i: int| 0 <= i < e2.len() implies (#[trigger] e2[i] as int) < n1.len() by {
        assert(e2[i] == e[i + 1]);
    }
    lemma_chain_intro(n1, e2);
    if e.len() > 1 {
        assert(e2[0] == e[1]);
    }
    assert forall|x: u16| !(#[trigger] s.contains(x) && #[trigger] e2.contains(x)) by {
        if s.contains(x) && e2.contains(x) {
            let b = choose|b: int| 0 <= b < e2.len() && e2[b] == x;
            assert(e[b + 1] == x);
            assert(e.contains(x));
        }
    }
    let s2 = seq![e[0]].add(s);
    assert forall|x: u16| !(#[trigger] s2.contains(x) && #[trigger] e2.contains(x)) by {
        if s2.contains(x) && e2.contains(x) {
            let a = choose|a: int| 0 <= a < s2.len() && s2[a] == x;
            let b = choose|b: int| 0 <= b < e2.len() && e2[b] == x;
            assert(e[b + 1] == x);
            if a == 0 {
                assert(e[b + 1] == e[0]);
            } else {
                assert(s[a - 1] == x);
                assert(s.contains(x));
                assert(e.contains(x));
            }
        }
    }
}

/// A new timeout placed in front of the pending list.
proof fn lemma_insert_front(n0: Seq<TimeoutNode>, n1: Seq<TimeoutNode>, s: Seq<u16>, idx: u16, d: u64, cb: usize, data: usize)
    requires
        chain_wf(n0, s),
        sorted_wf(n0, s),
        (idx as int) < n0.len(),
        !s.contains(idx),
        s.len() == 0 || d < n0[s[0] as int].deadline,
        holds(n1[idx as int], d, cb, data),
        n1[idx as int].next == head_of(s),
        others_kept(n0, n1, idx as int, idx as int),
    ensures
        chain_wf(n1, seq![idx].add(s)),
        sorted_wf(n1, seq![idx].add(s)),
        entries_of(n1, seq![idx].add(s)) == entries_of(n0, s).insert(0, new_entry(d, cb, data, idx)),
        insert_pos(entries_of(n0, s), d) == 0,
{
    lemma_chain_elim(n0, s);
    lemma_sorted_elim(n0, s);
    let s2 = seq![idx].add(s);
    assert forall|i: int| 0 < i < s2.len() implies #[trigger] s2[i] == s[i - 1] by {}
    assert forall|i: int| 0 <= i < s.len() implies s[i] != idx by {
        assert(s.contains(s[i]));
    }
    assert forall|i: int| 0 <= i < s2.len() implies n1[#[trigger] s2[i] as int].next == next_of(s2, i) by {
        if i > 0 {
            assert(s2[i] == s[i - 1]);
            if i + 1 < s2.len() {
                assert(s2[i + 1] == s[i]);
            }
        } else if s.len() > 0 {
            assert(s2[1] == s[0]);
        }
    }
    assert forall|i: int| 0 <= i < s2.len() implies (#[trigger] s2[i] as int) < n1.len() by {
        if i > 0 {
            assert(s2[i] == s[i - 1]);
        }
    }
    assert(s2.no_duplicates()) by {
        assert forall|a: int, b: int| 0 <= a < s2.len() && 0 <= b < s2.len() && a != b implies s2[a] != s2[b] by {
            if a > 0 {
                assert(s2[a] == s[a - 1]);
            }
            if b > 0 {
                assert(s2[b] == s[b - 1]);
            }
        }
    }
    lemma_chain_intro(n1, s2);
    assert forall|i: int, j: int| 0 <= i < j < s2.len() implies n1[#[trigger] s2[i] as int].deadline
        <= n1[#[trigger] s2[j] as int].deadline by {
        assert(s2[j] == s[j - 1]);
        if i > 0 {
            assert(s2[i] == s[i - 1]);
        } else if j > 1 {
            assert(n0[s[0] as int].deadline <= n0[s[j - 1] as int].deadline);
        }
    }
    assert forall|i: int| 0 <= i < s2.len() implies (#[trigger] n1[s2[i] as int]).callback is Some by {
        if i > 0 {
            assert(s2[i] == s[i - 1]);
        }
    }
    lemma_sorted_intro(n1, s2);
    let es = entries_of(n0, s);
    assert(entries_of(n1, s2) =~= es.insert(0, new_entry(d, cb, data, idx))) by {
        assert forall|i: int| 0 < i < s2.len() implies entries_of(n1, s2)[i] == es[i - 1] by {
            assert(s2[i] == s[i - 1]);
        }
    }
    lemma_insert_pos(es, d, 0);
}

/// A new timeout placed after position `k` of the pending list.
proof fn lemma_insert_after(n0: Seq<TimeoutNode>, n1: Seq<TimeoutNode>, s: Seq<u16>, k: int, idx: u16, d: u64, cb: usize, data: usize)
    requires
        chain_wf(n0, s),
        sorted_wf(n0, s),
        0 <= k < s.len(),
        (idx as int) < n0.len(),
        !s.contains(idx),
        forall|i: int| 0 <= i <= k ==> n0[#[trigger] s[i] as int].deadline <= d,
        k + 1 < s.len() ==> d < n0[s[k + 1] as int].deadline,
        holds(n1[idx as int], d, cb, data),
        n1[idx as int].next == next_of(s, k),
        n1[s[k] as int].next == Some(idx),
        n1[s[k] as int].deadline == n0[s[k] as int].deadline,
        n1[s[k] as int].callback == n0[s[k] as int].callback,
        n1[s[k] as int].callback_data == n0[s[k] as int].callback_data,
        others_kept(n0, n1, idx as int, s[k] as int),
    ensures
        chain_wf(n1, s.insert(k + 1, idx)),
        sorted_wf(n1, s.insert(k + 1, idx)),
        entries_of(n1, s.insert(k + 1, idx)) == entries_of(n0, s).insert(k + 1, new_entry(d, cb, data, idx)),
        insert_pos(entries_of(n0, s), d) == k + 1,
{
    lemma_chain_elim(n0, s);
    lemma_sorted_elim(n0, s);
    let s2 = s.insert(k + 1, idx);
    let p = k + 1;
    assert forall|i: int| 0 <= i < s2.len() implies #[trigger] s2[i] == (if i < p { s[i] } else if i == p { idx } else { s[i - 1] }) by {}
    assert forall|i: int| 0 <= i < s.len() implies s[i] != idx by {
        assert(s.contains(s[i]));
    }
    assert forall|i: int| 0 <= i < s2.len() implies n1[#[trigger] s2[i] as int].next == next_of(s2, i) by {
        if i < k {
            assert(s2[i] == s[i]);
            assert(s[i] != s[k]);
            assert(s2[i + 1] == s[i + 1]);
        } else if i == k {
            assert(s2[k] == s[k]);
            assert(s2[k + 1] == idx);
        } else if i == p {
            if p + 1 < s2.len() {
                assert(s2[p + 1] == s[p]);
            }
        } else {
            assert(s2[i] == s[i - 1]);
            assert(s[i - 1] != s[k]);
            if i + 1 < s2.len() {
                assert(s2[i + 1] == s[i]);
            }
        }
    }
    assert forall|i: int| 0 <= i < s2.len() implies (#[trigger] s2[i] as int) < n1.len() by {
        if i < p {
            assert(s2[i] == s[i]);
        } else if i > p {
            assert(s2[i] == s[i - 1]);
        }
    }
    assert(s2.no_duplicates()) by {
        assert forall|a: int, b: int| 0 <= a < s2.len() && 0 <= b < s2.len() && a != b implies s2[a] != s2[b] by {
            if a < p {
                assert(s2[a] == s[a]);
            } else if a > p {
                assert(s2[a] == s[a - 1]);
            }
            if b < p {
                assert(s2[b] == s[b]);
            } else if b > p {
                assert(s2[b] == s[b - 1]);
            }
        }
    }
    lemma_chain_intro(n1, s2);
    assert forall|i: int| 0 <= i < s2.len() && i != p implies n1[#[trigger] s2[i] as int].deadline == n0[(if i < p { s[i] } else { s[i - 1] }) as int].deadline by {
        if i < p {
            assert(s2[i] == s[i]);
        } else {
            assert(s2[i] == s[i - 1]);
        }
    }
    assert forall|i: int, j: int| 0 <= i < j < s2.len() implies n1[#[trigger] s2[i] as int].deadline
        <= n1[#[trigger] s2[j] as int].deadline by {
        if j < p {
            assert(n0[s[i] as int].deadline <= n0[s[j] as int].deadline);
        } else if j == p {
            assert(n0[s[i] as int].deadline <= d);
        } else if i == p {
            assert(n0[s[p] as int].deadline <= n0[s[j - 1] as int].deadline || j - 1 == p);
        } else if i < p {
            assert(n0[s[i] as int].deadline <= n0[s[j - 1] as int].deadline);
        } else {
            assert(n0[s[i - 1] as int].deadline <= n0[s[j - 1] as int].deadline);
        }
    }
    assert forall|i: int| 0 <= i < s2.len() implies (#[trigger] n1[s2[i] as int]).callback is Some by {
        if i < p {
            assert(s2[i] == s[i]);
        } else if i > p {
            assert(s2[i] == s[i - 1]);
        }
    }
    lemma_sorted_intro(n1, s2);
    let es = entries_of(n0, s);
    assert(entries_of(n1, s2) =~= es.insert(p, new_entry(d, cb, data, idx))) by {
        assert forall|i: int| 0 <= i < s2.len() implies entries_of(n1, s2)[i] == es.insert(p, new_entry(d, cb, data, idx))[i] by {
            if i < p {
                assert(s2[i] == s[i]);
            } else if i > p {
                assert(s2[i] == s[i - 1]);
            }
        }
    }
    assert(is_insert_pos(es, d, p)) by {
        assert forall|i: int| 0 <= i < p implies (#[trigger] es[i]).deadline <= d by {}
    }
    lemma_insert_pos(es, d, p);
}

impl Timeouts {
    /// The pending timeouts form a sorted list headed by `head_full`.
    pub closed spec fn full_wf(&self) -> bool {
        &&& self.nodes@.len() == MAX_TIMEOUTS
        &&& chain_wf(self.nodes@, self.full@)
        &&& sorted_wf(self.nodes@, self.full@)
        &&& self.head_full == head_of(self.full@)
    }

    /// The unused nodes form a list headed by `head_empty`, apart from the
    /// pending ones.
    pub closed spec fn empty_wf(&self) -> bool {
        &&& chain_wf(self.nodes@, self.empty@)
        &&& self.head_empty == head_of(self.empty@)
        &&& forall|x: u16| !(#[trigger] self.full@.contains(x) && #[trigger] self.empty@.contains(x))
    }

    /// The pending timeouts, earliest first.
    pub closed spec fn entries(&self) -> Seq<TimeoutEntry> {
        entries_of(self.nodes@, self.full@)
    }

    /// The unused nodes, in the order they will be used.
    pub closed spec fn free_slots(&self) -> Seq<u16> {
        self.empty@
    }

    /// The table before `timeouts_init`: no pending timeout, only node 0 free.
    pub fn new() -> (t: Self)
        ensures
            t.full_wf(),
            t.empty_wf(),
            t.entries() == Seq::<TimeoutEntry>::empty(),
            t.free_slots() == seq![0u16],
    {
        let node = TimeoutNode { deadline: 0, callback: None, callback_data: 0, next: None, prev: None };
        let mut nodes: Vec<TimeoutNode> = Vec::new();
        let mut i: usize = 0;
        while i < MAX_TIMEOUTS
            invariant
                i <= MAX_TIMEOUTS,
                nodes@.len() == i,
                forall|j: int| 0 <= j < i ==> nodes@[j] == node,
            decreases MAX_TIMEOUTS - i,
        {
            nodes.push(node);
            i += 1;
        }
        let t = Timeouts {
            nodes: nodes,
            head_full: None,
            head_empty: Some(0),
            full: Ghost(Seq::empty()),
            empty: Ghost(Seq::<u16>::empty().push(0u16)),
        };
        proof {
            lemma_chain_intro(t.nodes@, t.full@);
            lemma_sorted_intro(t.nodes@, t.full@);
            assert(t.empty@[0] == 0u16);
            lemma_chain_intro(t.nodes@, t.empty@);
            assert(t.entries() =~= Seq::<TimeoutEntry>::empty());
        }
        t
    }

    /// Chains every node into the free list, in index order. Only done while
    /// no timeout is pending and node 0 heads the free list.
    pub fn timeouts_init(&mut self)
        requires
            old(self).full_wf(),
            old(self).empty_wf(),
            old(self).entries().len() == 0,
            old(self).free_slots().len() > 0,
            old(self).free_slots()[0] == 0,
        ensures
            final(self).full_wf(),
            final(self).empty_wf(),
            final(self).entries().len() == 0,
            final(self).free_slots() == Seq::new(MAX_TIMEOUTS as nat, |i: int| i as u16),
    {
        let mut i: usize = 0;
        while i < MAX_TIMEOUTS - 1
            invariant
                i <= MAX_TIMEOUTS - 1,
                self.nodes@.len() == MAX_TIMEOUTS,
                forall|j: int| 0 <= j < i ==> (#[trigger] self.nodes@[j]).next == Some((j + 1) as u16),
                self.full@.len() == 0,
                self.head_full == None::<u16>,
                self.head_empty == Some(0u16),
            decreases MAX_TIMEOUTS - 1 - i,
        {
            set_node_next(&mut self.nodes, i as u16, Some((i + 1) as u16));
            i += 1;
        }
        set_node_next(&mut self.nodes, (MAX_TIMEOUTS - 1) as u16, None);
        proof {
            let e = Seq::new(MAX_TIMEOUTS as nat, |i: int| i as u16);
            self.empty@ = e;
            assert(e.no_duplicates());
            assert forall|k: int| 0 <= k < e.len() implies self.nodes@[#[trigger] e[k] as int].next == next_of(e, k) by {}
            lemma_chain_intro(self.nodes@, e);
            lemma_chain_intro(self.nodes@, self.full@);
            lemma_sorted_intro(self.nodes@, self.full@);
        }
    }

    /// Whether no timeout is pending.
    pub fn timeouts_empty(&self) -> (r: bool)
        requires
            self.full_wf(),
        ensures
            r == (self.entries().len() == 0),
    {
        self.head_full.is_none()
    }

    /// Whether every node is in use.
    pub fn timeouts_full(&self) -> (r: bool)
        requires
            self.empty_wf(),
        ensures
            r == (self.free_slots().len() == 0),
    {
        self.head_empty.is_none()
    }

    /// Deadline of the earliest pending timeout.
    pub fn timeouts_peek(&self) -> (r: Option<u64>)
        requires
            self.full_wf(),
        ensures
            r == (if self.entries().len() == 0 {
                None
            } else {
                Some(self.entries()[0].deadline)
            }),
    {
        if self.timeouts_empty() {
            return None;
        }
        proof {
            lemma_chain_elim(self.nodes@, self.full@);
        }
        Some(self.nodes[self.head_full.unwrap() as usize].deadline)
    }

    /// Takes the earliest pending timeout off the list and returns its
    /// deadline, callback, data and node; the node heads the free list after.
    pub fn timeouts_remove_min(&mut self) -> (r: (u64, usize, usize, usize))
        requires
            old(self).full_wf(),
            old(self).entries().len() > 0,
        ensures
            final(self).full_wf(),
            r == (old(self).entries()[0].deadline, old(self).entries()[0].callback, old(self).entries()[0].data,
                old(self).entries()[0].index),
            r.3 < MAX_TIMEOUTS,
            final(self).entries() == old(self).entries().drop_first(),
            final(self).free_slots() == seq![old(self).entries()[0].index as u16].add(old(self).free_slots()),
            old(self).empty_wf() ==> final(self).empty_wf(),
    {
        let ghost n0 = self.nodes@;
        let ghost s = self.full@;
        let ghost e = self.empty@;
        proof {
            lemma_chain_elim(n0, s);
            lemma_sorted_elim(n0, s);
            if old(self).empty_wf() {
                lemma_chain_elim(n0, e);
            }
        }
        let rm = self.head_full.unwrap();
        let next = self.nodes[rm as usize].next;
        self.head_full = next;
        match next {
            Some(n) => {
                set_node_prev(&mut self.nodes, n, None);
            },
            None => {},
        }
        let old_empty = self.head_empty;
        set_node_next(&mut self.nodes, rm, old_empty);
        self.head_empty = Some(rm);
        let node = self.nodes[rm as usize];
        proof {
            let n1 = self.nodes@;
            assert forall|k: int| 0 <= k < n1.len() && k != rm as int implies (#[trigger] n1[k]).next == n0[k].next
                && n1[k].deadline == n0[k].deadline && n1[k].callback == n0[k].callback
                && n1[k].callback_data == n0[k].callback_data by {}
            lemma_drop_first_kept(n0, n1, s);
            self.full@ = s.drop_first();
            if s.len() > 1 {
                assert(next == Some(s[1]));
            }
            self.empty@ = seq![rm].add(e);
            if old(self).empty_wf() {
                lemma_push_free(n0, n1, s, e);
            }
        }
        (node.deadline, node.callback.unwrap(), node.callback_data, rm as usize)
    }

    /// Adds a timeout due at `deadline` in the node that heads the free list,
    /// which the free list then drops; the result is that node, or `None`
    /// when every node is in use. The timeout is linked after the pending
    /// ones due no later than it.
    pub fn timeouts_insert(&mut self, deadline: u64, callback: usize, data: usize) -> (r: Option<usize>)
        requires
            old(self).full_wf(),
            old(self).empty_wf(),
        ensures
            final(self).full_wf(),
            r is None <==> old(self).free_slots().len() == 0,
            r is None ==> final(self).entries() == old(self).entries() && final(self).free_slots()
                == old(self).free_slots() && final(self).empty_wf(),
            r matches Some(i) ==> {
                &&& i == old(self).free_slots()[0]
                &&& final(self).entries() == old(self).entries().insert(
                    insert_pos(old(self).entries(), deadline),
                    new_entry(deadline, callback, data, i as u16),
                )
                &&& final(self).empty_wf()
                &&& final(self).free_slots() == old(self).free_slots().drop_first()
            },
    {
        let ghost n0 = self.nodes@;
        let ghost s = self.full@;
        let ghost e = self.empty@;
        proof {
            lemma_chain_elim(n0, s);
            lemma_chain_elim(n0, e);
            lemma_sorted_elim(n0, s);
        }
        if self.timeouts_full() {
            return None;
        }
        let idx = self.head_empty.unwrap();
        proof {
            assert(e.contains(idx));
            assert(!s.contains(idx));
        }
        if self.timeouts_empty() {
            self.head_full = self.head_empty;
            self.head_empty = self.nodes[idx as usize].next;
            set_node_payload(&mut self.nodes, idx, deadline, callback, data);
            set_node_next(&mut self.nodes, idx, None);
            set_node_prev(&mut self.nodes, idx, None);
            proof {
                let n1 = self.nodes@;
                lemma_take_free_head(n0, n1, s, e, idx as int);
                lemma_insert_front(n0, n1, s, idx, deadline, callback, data);
                assert(seq![idx].add(s) =~= seq![idx]);
                self.full@ = seq![idx].add(s);
                self.empty@ = e.drop_first();
            }
            return Some(idx as usize);
        }
        let h = self.head_full.unwrap();
        if deadline < self.nodes[h as usize].deadline {
            self.head_empty = self.nodes[idx as usize].next;
            set_node_next(&mut self.nodes, idx, self.head_full);
            set_node_prev(&mut self.nodes, h, Some(idx));
            self.head_full = Some(idx);
            set_node_payload(&mut self.nodes, idx, deadline, callback, data);
            proof {
                let n1 = self.nodes@;
                lemma_take_free_head(n0, n1, s, e, idx as int);
                lemma_insert_front(n0, n1, s, idx, deadline, callback, data);
                self.full@ = seq![idx].add(s);
                self.empty@ = e.drop_first();
            }
            return Some(idx as usize);
        }
        let mut tmp = h;
        let ghost mut k: int = 0;
        while self.nodes[tmp as usize].next.is_some()
            && deadline >= self.nodes[self.nodes[tmp as usize].next.unwrap() as usize].deadline
            invariant
                self.nodes@ == n0,
                self.full@ == s,
                n0.len() == MAX_TIMEOUTS,
                s.no_duplicates(),
                forall|i: int| 0 <= i < s.len() ==> (#[trigger] s[i] as int) < n0.len(),
                forall|i: int| 0 <= i < s.len() ==> n0[#[trigger] s[i] as int].next == next_of(s, i),
                0 <= k < s.len(),
                tmp == s[k],
                forall|i: int| 0 <= i <= k ==> n0[#[trigger] s[i] as int].deadline <= deadline,
            decreases s.len() - k,
        {
            tmp = self.nodes[tmp as usize].next.unwrap();
            proof {
                k = k + 1;
            }
        }
        let nx = self.nodes[tmp as usize].next;
        self.head_empty = self.nodes[idx as usize].next;
        set_node_next(&mut self.nodes, idx, nx);
        set_node_prev(&mut self.nodes, idx, Some(tmp));
        set_node_next(&mut self.nodes, tmp, Some(idx));
        match nx {
            Some(n) => {
                set_node_prev(&mut self.nodes, n, Some(idx));
            },
            None => {},
        }
        set_node_payload(&mut self.nodes, idx, deadline, callback, data);
        proof {
            let n1 = self.nodes@;
            assert(s[k] != idx);
            lemma_insert_after(n0, n1, s, k, idx, deadline, callback, data);
            assert(s.contains(s[k]));
            lemma_take_free_head(n0, n1, s, e, tmp as int);
            let s2 = s.insert(k + 1, idx);
            let e2 = e.drop_first();
            assert forall|x: u16| !(#[trigger] s2.contains(x) && #[trigger] e2.contains(x)) by {
                if s2.contains(x) && e2.contains(x) {
                    let a = choose|a: int| 0 <= a < s2.len() && s2[a] == x;
                    if a == k + 1 {
                        assert(seq![idx].add(s)[0] == x);
                        assert(seq![idx].add(s).contains(x));
                    } else {
                        let j = if a < k + 1 { a } else { a - 1 };
                        assert(s[j] == x);
                        assert(s.contains(x));
                    }
                }
            }
            self.full@ = s2;
            self.empty@ = e2;
        }
        Some(idx as usize)
    }

    /// One step of the timer interrupt at time `curr_time`: when the earliest
    /// pending timeout is due, it is taken off the list and its callback,
    /// data and number (node index plus one) are returned for the caller to
    /// run. Otherwise nothing changes.
    pub fn timer_irq_next_due(&mut self, curr_time: u64) -> (r: Option<(usize, usize, usize)>)
        requires
            old(self).full_wf(),
        ensures
            final(self).full_wf(),
            old(self).entries().len() > 0 && curr_time >= old(self).entries()[0].deadline ==> {
                &&& r == Some((old(self).entries()[0].callback, old(self).entries()[0].data, (old(self).entries()[0].index + 1) as usize))
                &&& final(self).entries() == old(self).entries().drop_first()
                &&& final(self).free_slots() == seq![old(self).entries()[0].index as u16].add(old(self).free_slots())
                &&& old(self).empty_wf() ==> final(self).empty_wf()
            },
            !(old(self).entries().len() > 0 && curr_time >= old(self).entries()[0].deadline) ==> r is None
                && *final(self) == *old(self),
    {
        match self.timeouts_peek() {
            Some(deadline) => {
                if curr_time >= deadline {
                    let (_, callback, data, min_index) = self.timeouts_remove_min();
                    Some((callback, data, min_index + 1))
                } else {
                    None
                }
            },
            None => None,
        }
    }

    /// The timer interrupt at `curr_time`: takes every due pending timeout off
    /// the list, earliest first, and returns for each its callback, data and
    /// number (node index plus one) in that order, for the caller to run each
    /// once; with them, what to do with the timer for what is left pending.
    /// The nodes taken head the free list after, the last taken first.
    pub fn timer_irq_take_due(&mut self, curr_time: u64) -> (r: (Vec<(usize, usize, usize)>, TimerAction))
        requires
            old(self).full_wf(),
        ensures
            final(self).full_wf(),
            r.0@.len() <= old(self).entries().len(),
            forall|i: int| 0 <= i < r.0@.len() ==> (#[trigger] old(self).entries()[i]).deadline <= curr_time
                && r.0@[i] == due_call(old(self).entries()[i]),
            r.0@.len() < old(self).entries().len() ==> old(self).entries()[r.0@.len() as int].deadline > curr_time,
            final(self).entries() == old(self).entries().skip(r.0@.len() as int),
            final(self).free_slots() == freed_rev(old(self).entries(), r.0@.len() as int).add(old(self).free_slots()),
            old(self).empty_wf() ==> final(self).empty_wf(),
            r.1 == (if final(self).entries().len() == 0 {
                TimerAction::Disable
            } else {
                TimerAction::Configure { curr_time: curr_time, deadline: final(self).entries()[0].deadline }
            }),
    {
        let ghost es = self.entries();
        let ghost fs = self.free_slots();
        let ghost ew = self.empty_wf();
        let mut due: Vec<(usize, usize, usize)> = Vec::new();
        let mut next = self.timer_irq_next_due(curr_time);
        proof {
            if es.len() > 0 {
                assert(es.skip(1) =~= es.drop_first());
            }
            assert(es.skip(0) =~= es);
            assert(freed_rev(es, 0) =~= Seq::<u16>::empty());
            assert(freed_rev(es, 0).add(fs) =~= fs);
            if next is Some {
                assert(freed_rev(es, 1) =~= seq![es[0].index as u16]);
            }
        }
        while next.is_some()
            invariant
                self.full_wf(),
                due@.len() <= es.len(),
                forall|i: int| 0 <= i < due@.len() ==> (#[trigger] es[i]).deadline <= curr_time && due@[i] == due_call(es[i]),
                next is None ==> self.entries() == es.skip(due@.len() as int) && (due@.len() < es.len()
                    ==> es[due@.len() as int].deadline > curr_time) && self.free_slots() == freed_rev(es, due@.len() as int).add(fs),
                next matches Some(x) ==> due@.len() < es.len() && es[due@.len() as int].deadline <= curr_time
                    && x == due_call(es[due@.len() as int]) && self.entries() == es.skip(due@.len() + 1 as int)
                    && self.free_slots() == freed_rev(es, due@.len() + 1 as int).add(fs),
                ew ==> self.empty_wf(),
            decreases es.len() - due@.len(),
        {
            let x = next.unwrap();
            due.push(x);
            let ghost k = due@.len() as int;
            let ghost before = self.free_slots();
            next = self.timer_irq_next_due(curr_time);
            proof {
                if next is Some {
                    assert(es.skip(k).drop_first() =~= es.skip(k + 1));
                    assert(es.skip(k)[0] == es[k]);
                    assert(freed_rev(es, k + 1) =~= seq![es[k].index as u16].add(freed_rev(es, k)));
                    assert(seq![es[k].index as u16].add(freed_rev(es, k).add(fs)) =~= freed_rev(es, k + 1).add(fs));
                } else {
                    if k < es.len() {
                        assert(es.skip(k)[0] == es[k]);
                    }
                }
            }
        }
        let action = self.timer_irq_rearm(curr_time);
        (due, action)
    }

    /// What to do with the timer after the due timeouts of an interrupt at
    /// `curr_time` have run.
    pub fn timer_irq_rearm(&self, curr_time: u64) -> (r: TimerAction)
        requires
            self.full_wf(),
        ensures
            r == (if self.entries().len() == 0 {
                TimerAction::Disable
            } else {
                TimerAction::Configure { curr_time: curr_time, deadline: self.entries()[0].deadline }
            }),
    {
        match self.timeouts_peek() {
            Some(deadline) => TimerAction::Configure { curr_time: curr_time, deadline: deadline },
            None => TimerAction::Disable,
        }
    }

    /// Registers a timeout `delay` nanoseconds after `curr_time`. On success
    /// the result says whether the timer must be programmed for the new
    /// deadline: it must when the new timeout is now the earliest.
    pub fn register_timer(&mut self, curr_time: u64, delay: u64, callback: usize, data: usize) -> (r: Result<Option<u64>, Sel4Error>)
        requires
            old(self).full_wf(),
            old(self).empty_wf(),
            curr_time + delay <= u64::MAX,
        ensures
            final(self).full_wf(),
            r is Err <==> old(self).free_slots().len() == 0,
            r is Err ==> r == Err::<Option<u64>, Sel4Error>(Sel4Error::NotEnoughMemory) && final(self).entries()
                == old(self).entries() && final(self).free_slots() == old(self).free_slots()
                && final(self).empty_wf(),
            r is Ok ==> {
                let d = (curr_time + delay) as u64;
                &&& r == Ok::<Option<u64>, Sel4Error>(if goes_first(old(self).entries(), d) { Some(d) } else { None })
                &&& final(self).entries() == old(self).entries().insert(
                    insert_pos(old(self).entries(), d),
                    new_entry(d, callback, data, old(self).free_slots()[0]),
                )
                &&& final(self).empty_wf()
                &&& final(self).free_slots() == old(self).free_slots().drop_first()
            },
    {
        let deadline = curr_time + delay;
        let prev_smallest_deadline = self.timeouts_peek();
        let ins = self.timeouts_insert(deadline, callback, data);
        if ins.is_none() {
            return Err(Sel4Error::NotEnoughMemory);
        }
        match prev_smallest_deadline {
            None => Ok(Some(deadline)),
            Some(prev) => if deadline < prev {
                Ok(Some(deadline))
            } else {
                Ok(None)
            },
        }
    }
}

/// A position for a new deadline always exists.
pub proof fn lemma_insert_pos_exists(es: Seq<TimeoutEntry>, d: u64)
    ensures
        is_insert_pos(es, d, insert_pos(es, d)),
    decreases es.len(),
{
    if es.len() == 0 {
        assert(is_insert_pos(es, d, 0));
    } else {
        let t = es.drop_last();
        lemma_insert_pos_exists(t, d);
        let p = insert_pos(t, d);
        if p < t.len() {
            assert(is_insert_pos(es, d, p)) by {
                assert forall|i: int| 0 <= i < p implies (#[trigger] es[i]).deadline <= d by {
                    assert(es[i] == t[i]);
                }
                assert(es[p] == t[p]);
            }
        } else if es.last().deadline > d {
            assert(is_insert_pos(es, d, p)) by {
                assert forall|i: int| 0 <= i < p implies (#[trigger] es[i]).deadline <= d by {
                    assert(es[i] == t[i]);
                }
            }
        } else {
            assert(is_insert_pos(es, d, es.len() as int)) by {
                assert forall|i: int| 0 <= i < es.len() implies (#[trigger] es[i]).deadline <= d by {
                    if i < t.len() {
                        assert(es[i] == t[i]);
                    }
                }
            }
        }
    }
}

/// Law: inserting a timeout at its place keeps the pending list sorted by
/// deadline, and adds exactly that timeout.
pub proof fn law_insert_keeps_sorted(es: Seq<TimeoutEntry>, e: TimeoutEntry)
    requires
        entries_sorted(es),
    ensures
        entries_sorted(es.insert(insert_pos(es, e.deadline), e)),
        es.insert(insert_pos(es, e.deadline), e).len() == es.len() + 1,
        es.insert(insert_pos(es, e.deadline), e).to_multiset() == es.to_multiset().insert(e),
{
    let d = e.deadline;
    lemma_insert_pos_exists(es, d);
    let p = insert_pos(es, d);
    let t = es.insert(p, e);
    assert forall|i: int| 0 <= i < t.len() implies #[trigger] t[i] == (if i < p { es[i] } else if i == p { e } else { es[i - 1] }) by {}
    assert forall|i: int, j: int| 0 <= i < j < t.len() implies (#[trigger] t[i]).deadline <= (#[trigger] t[j]).deadline by {
        if j < p {
        } else if j == p {
            assert(es[i].deadline <= d);
        } else if i == p {
            assert(es[p].deadline > d);
            if j - 1 > p {
                assert(es[p].deadline <= es[j - 1].deadline);
            }
        } else if i < p {
            assert(es[i].deadline <= d);
            assert(es[p].deadline > d);
            if j - 1 > p {
                assert(es[p].deadline <= es[j - 1].deadline);
            }
        } else {
            assert(es[i - 1].deadline <= es[j - 1].deadline);
        }
    }
    t.to_multiset_ensures();
    assert(t.remove(p) =~= es);
    assert(t[p] == e);
    broadcast use vstd::multiset::group_multiset_axioms;
    assert(t.to_multiset() =~= es.to_multiset().insert(e));
}

/// Law: the pending list of a well-formed table is sorted by deadline, so
/// its front is the earliest pending timeout.
pub proof fn law_pending_sorted(t: &Timeouts)
    requires
        t.full_wf(),
    ensures
        entries_sorted(t.entries()),
        forall|i: int| 0 <= i < t.entries().len() ==> t.entries()[0].deadline <= (#[trigger] t.entries()[i]).deadline,
{
    t.lemma_sorted_entries();
}

impl Timeouts {
    proof fn lemma_sorted_entries(&self)
        requires
            self.full_wf(),
        ensures
            entries_sorted(self.entries()),
    {
        lemma_sorted_elim(self.nodes@, self.full@);
        assert forall|i: int, j: int| 0 <= i < j < self.entries().len() implies (#[trigger] self.entries()[i]).deadline
            <= (#[trigger] self.entries()[j]).deadline by {
            assert(self.nodes@[self.full@[i] as int].deadline <= self.nodes@[self.full@[j] as int].deadline);
        }
    }
}

} // verus!
