//! The table of handle capabilities: badged endpoint capabilities the root
//! server hands out in place of handles. Entry `i` holds the handle its
//! capability (badge `i`) stands for, if it is in use, and the capability
//! that revokes it. Minting and revoking are kernel work done by the caller.

use vstd::prelude::*;
use crate::error::InvocationError;

verus! {

/// Entries of the table.
pub const MAX_HANDLE_CAPS: usize = 512;

/// One entry: the handle it stands for, if in use, and its root capability.
#[derive(Clone, Copy, Debug)]
pub struct HandleCapability<H> {
    pub handle: Option<H>,
    pub root_cap: Option<u64>,
}

/// The table of handle capabilities.
pub struct HandleCapabilityTable<H> {
    caps: Vec<HandleCapability<H>>,
}

impl<H: Copy> HandleCapabilityTable<H> {
    /// The entries.
    pub closed spec fn entries(&self) -> Seq<HandleCapability<H>> {
        self.caps@
    }

    /// A table of unused entries, entry `i` revoked through `root_caps[i]`.
    pub fn new(root_caps: &Vec<u64>) -> (t: Self)
        requires
            root_caps@.len() == MAX_HANDLE_CAPS,
        ensures
            t.entries().len() == MAX_HANDLE_CAPS,
            forall|i: int| 0 <= i < MAX_HANDLE_CAPS ==> #[trigger] t.entries()[i] == (HandleCapability::<H> {
                handle: None,
                root_cap: Some(root_caps@[i]),
            }),
    {
        let mut caps: Vec<HandleCapability<H>> = Vec::new();
        let mut i: usize = 0;
        while i < MAX_HANDLE_CAPS
            invariant
                i <= MAX_HANDLE_CAPS,
                root_caps@.len() == MAX_HANDLE_CAPS,
                caps@.len() == i,
                forall|j: int| 0 <= j < i ==> #[trigger] caps@[j] == (HandleCapability::<H> {
                    handle: None,
                    root_cap: Some(root_caps@[j]),
                }),
            decreases MAX_HANDLE_CAPS - i,
        {
            caps.push(HandleCapability { handle: None, root_cap: Some(root_caps[i]) });
            i += 1;
        }
        HandleCapabilityTable { caps: caps }
    }

    /// The lowest unused entry and its root capability; fails with
    /// `OutOfHandleCaps` when every entry is in use.
    pub fn allocate_handle_cap(&self) -> (r: Result<(usize, Option<u64>), InvocationError>)
        ensures
            r matches Ok(p) ==> p.0 < self.entries().len() && self.entries()[p.0 as int].handle is None
                && p.1 == self.entries()[p.0 as int].root_cap && forall|j: int|
                0 <= j < p.0 ==> (#[trigger] self.entries()[j]).handle is Some,
            r is Err ==> r == Err::<(usize, Option<u64>), InvocationError>(InvocationError::OutOfHandleCaps)
                && forall|j: int| 0 <= j < self.entries().len() ==> (#[trigger] self.entries()[j]).handle is Some,
    {
        let mut i: usize = 0;
        while i < self.caps.len()
            invariant
                i <= self.caps@.len(),
                forall|j: int| 0 <= j < i ==> (#[trigger] self.caps@[j]).handle is Some,
            decreases self.caps@.len() - i,
        {
            if self.caps[i].handle.is_none() {
                return Ok((i, self.caps[i].root_cap));
            }
            i += 1;
        }
        Err(InvocationError::OutOfHandleCaps)
    }

    /// The handle entry `idx` stands for; fails when `idx` is out of range.
    pub fn get_handle_cap(&self, idx: usize) -> (r: Result<Option<H>, ()>)
        ensures
            idx < self.entries().len() ==> r == Ok::<Option<H>, ()>(self.entries()[idx as int].handle),
            idx >= self.entries().len() ==> r is Err,
    {
        if idx >= self.caps.len() {
            return Err(());
        }
        Ok(self.caps[idx].handle)
    }

    /// Makes entry `idx` stand for `handle`; fails, changing nothing, when
    /// `idx` is out of range.
    pub fn set_handle_cap(&mut self, idx: usize, handle: Option<H>) -> (r: Result<(), ()>)
        ensures
            idx < old(self).entries().len() ==> r is Ok && final(self).entries() == old(self).entries().update(
                idx as int,
                HandleCapability { handle: handle, root_cap: old(self).entries()[idx as int].root_cap },
            ),
            idx >= old(self).entries().len() ==> r is Err && final(self).entries() == old(self).entries(),
    {
        if idx >= self.caps.len() {
            return Err(());
        }
        let mut e = self.caps[idx];
        e.handle = handle;
        self.caps.set(idx, e);
        Ok(())
    }

    /// Frees entry `idx`; returns its root capability, through which the
    /// caller revokes the capability handed out. Fails, changing nothing,
    /// when `idx` is out of range.
    pub fn cleanup_handle_cap(&mut self, idx: usize) -> (r: Result<u64, ()>)
        requires
            idx < old(self).entries().len() ==> old(self).entries()[idx as int].root_cap is Some,
        ensures
            idx < old(self).entries().len() ==> r == Ok::<u64, ()>(old(self).entries()[idx as int].root_cap->0)
                && final(self).entries() == old(self).entries().update(
                idx as int,
                HandleCapability { handle: None, root_cap: old(self).entries()[idx as int].root_cap },
            ),
            idx >= old(self).entries().len() ==> r is Err && final(self).entries() == old(self).entries(),
    {
        if idx >= self.caps.len() {
            return Err(());
        }
        let mut e = self.caps[idx];
        let root = e.root_cap.unwrap();
        e.handle = None;
        self.caps.set(idx, e);
        Ok(root)
    }
}

/// A handle capability that is allocated, given a handle and cleaned up is
/// free again, with the same root capability: the table is as before.
pub proof fn law_allocate_then_cleanup<H>(es: Seq<HandleCapability<H>>, idx: int, h: H)
    requires
        0 <= idx < es.len(),
        es[idx].handle is None,
    ensures
        es.update(idx, HandleCapability { handle: Some(h), root_cap: es[idx].root_cap }).update(
            idx,
            HandleCapability { handle: None, root_cap: es[idx].root_cap },
        ) == es,
{
    let e = es[idx];
    assert(es.update(idx, HandleCapability { handle: Some(h), root_cap: e.root_cap }).update(
        idx,
        HandleCapability { handle: None, root_cap: e.root_cap },
    ) =~= es);
}

} // verus!
