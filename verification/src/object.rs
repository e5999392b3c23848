//! Anonymous memory objects and the views that map them into windows.
//!
//! An object keeps the frames backing it, and a view the frame capabilities
//! it maps, each in a radix table by offset. The windows, objects and
//! servers a view is bound to are known here by identifier.

use vstd::prelude::*;
use crate::error::{InvocationError, Sel4Error};
use crate::frame_table::{FrameRef, FrameTable, FrameTableView, release_step};
use crate::radix::{RadixTable, page_key};

verus! {

/// Bytes the four levels of an object's frame table span.
pub const MAX_OBJ_SIZE: u64 = 0x1_0000_0000_0000;

/// Position of the window offset among the arguments of a view request:
/// window, object, window offset, object offset, size, rights.
pub const VIEW_ARG_WIN_OFFSET: usize = 2;

/// Position of the object offset among the arguments of a view request.
pub const VIEW_ARG_OBJ_OFFSET: usize = 3;

/// Checks a request to create an anonymous memory object of `size` bytes,
/// `named` when the request names an object: only unnamed objects whose
/// size is a non-zero number of pages, smaller than `MAX_OBJ_SIZE` bytes,
/// are created; any other request fails with `InvalidArguments`.
pub fn obj_create_check(named: bool, size: usize) -> (r: Result<(), InvocationError>)
    ensures
        r is Ok <==> !named && size != 0 && size % 4096 == 0 && size < MAX_OBJ_SIZE,
        r is Err ==> r == Err::<(), InvocationError>(InvocationError::InvalidArguments),
{
    if named {
        return Err(InvocationError::InvalidArguments);
    }
    if size == 0 || size % 4096 != 0 {
        return Err(InvocationError::InvalidArguments);
    }
    if size as u64 >= MAX_OBJ_SIZE {
        return Err(InvocationError::InvalidArguments);
    }
    Ok(())
}

/// What a view request answers: `size` bytes from `win_offset` in a window
/// of `window_size` bytes onto `size` bytes from `obj_offset` in an object
/// of `object_size` bytes, `window_bound` when a view is already bound to
/// the window. Both offsets must be page aligned.
pub open spec fn view_check_result(
    window_size: usize,
    window_bound: bool,
    object_size: usize,
    win_offset: usize,
    obj_offset: usize,
    size: usize,
) -> Result<(), InvocationError> {
    if size == 0 {
        Err(InvocationError::InvalidArguments)
    } else if win_offset % 4096 != 0 {
        Err(InvocationError::AlignmentError { which_arg: VIEW_ARG_WIN_OFFSET })
    } else if obj_offset % 4096 != 0 {
        Err(InvocationError::AlignmentError { which_arg: VIEW_ARG_OBJ_OFFSET })
    } else if obj_offset + size > object_size {
        Err(InvocationError::InvalidArguments)
    } else if win_offset + size > window_size {
        Err(InvocationError::InvalidArguments)
    } else if window_bound {
        Err(InvocationError::InvalidArguments)
    } else {
        Ok(())
    }
}

/// Checks a view request against the window and object it names (see
/// `view_check_result`).
pub fn view_check(
    window_size: usize,
    window_bound: bool,
    object_size: usize,
    win_offset: usize,
    obj_offset: usize,
    size: usize,
) -> (r: Result<(), InvocationError>)
    requires
        size != 0 && win_offset % 4096 == 0 && obj_offset % 4096 == 0 ==> obj_offset + size <= usize::MAX,
        size != 0 && win_offset % 4096 == 0 && obj_offset % 4096 == 0 && obj_offset + size <= object_size
            ==> win_offset + size <= usize::MAX,
    ensures
        r == view_check_result(window_size, window_bound, object_size, win_offset, obj_offset, size),
{
    if size == 0 {
        return Err(InvocationError::InvalidArguments);
    }
    if win_offset % 4096 != 0 {
        return Err(InvocationError::AlignmentError { which_arg: VIEW_ARG_WIN_OFFSET });
    }
    if obj_offset % 4096 != 0 {
        return Err(InvocationError::AlignmentError { which_arg: VIEW_ARG_OBJ_OFFSET });
    }
    if obj_offset + size > object_size {
        return Err(InvocationError::InvalidArguments);
    }
    if win_offset + size > window_size {
        return Err(InvocationError::InvalidArguments);
    }
    if window_bound {
        return Err(InvocationError::InvalidArguments);
    }
    Ok(())
}

/// Access rights of a capability.
#[derive(Clone, Copy, Debug, PartialEq, Eq, Structural)]
pub struct CapRights {
    pub read: bool,
    pub write: bool,
    pub grant: bool,
    pub grant_reply: bool,
}

impl CapRights {
    /// Every right.
    pub fn all() -> (r: Self)
        ensures
            r == (CapRights { read: true, write: true, grant: true, grant_reply: true }),
    {
        CapRights { read: true, write: true, grant: true, grant_reply: true }
    }

    /// No right.
    pub fn none() -> (r: Self)
        ensures
            r == (CapRights { read: false, write: false, grant: false, grant_reply: false }),
    {
        CapRights { read: false, write: false, grant: false, grant_reply: false }
    }

    /// Writing alone.
    pub fn write_only() -> (r: Self)
        ensures
            r == (CapRights { read: false, write: true, grant: false, grant_reply: false }),
    {
        CapRights { read: false, write: true, grant: false, grant_reply: false }
    }
}

/// A frame backing an object: the root server's capability to it and its
/// entry in the frame table.
#[derive(Clone, Copy, Debug)]
pub struct ObjectFrame {
    pub cap: u64,
    pub frame_ref: FrameRef,
}

/// The frame table after each frame of `refs` is freed, in order.
pub open spec fn release_all(v: FrameTableView, refs: Seq<FrameRef>) -> FrameTableView
    decreases refs.len(),
{
    if refs.len() == 0 {
        v
    } else {
        release_step(release_all(v, refs.drop_last()), refs.last())
    }
}

/// The frame references of `fs`, in order.
pub open spec fn frame_refs(fs: Seq<ObjectFrame>) -> Seq<FrameRef> {
    fs.map_values(|f: ObjectFrame| f.frame_ref)
}

/// The capabilities of `fs`, in order.
pub open spec fn frame_caps(fs: Seq<ObjectFrame>) -> Seq<u64> {
    fs.map_values(|f: ObjectFrame| f.cap)
}

proof fn lemma_release_all_allocated(v: FrameTableView, refs: Seq<FrameRef>, r: FrameRef)
    requires
        v.allocated.contains(r),
        !refs.contains(r),
    ensures
        release_all(v, refs).allocated.contains(r),
    decreases refs.len(),
{
    if refs.len() > 0 {
        assert(!refs.drop_last().contains(r)) by {
            if refs.drop_last().contains(r) {
                let j = choose|j: int| 0 <= j < refs.drop_last().len() && refs.drop_last()[j] == r;
                assert(refs[j] == r);
            }
        }
        lemma_release_all_allocated(v, refs.drop_last(), r);
        let w = release_all(v, refs.drop_last());
        assert(refs.last() != r);
        lemma_remove_value_keeps(w.allocated, refs.last(), r);
    }
}

proof fn lemma_remove_value_keeps(s: Seq<FrameRef>, x: FrameRef, r: FrameRef)
    requires
        s.contains(r),
        x != r,
    ensures
        s.remove_value(x).contains(r),
{
    let j = choose|j: int| 0 <= j < s.len() && s[j] == r;
    match s.index_of_first(x) {
        None => {},
        Some(i) => {
            s.index_of_first_ensures(x);
            if j < i {
                assert(s.remove(i)[j] == r);
            } else {
                assert(j != i);
                assert(s.remove(i)[j - 1] == r);
            }
        },
    }
}

/// An anonymous memory object.
pub struct AnonymousMemoryObject {
    size: usize,
    rights: CapRights,
    frames: RadixTable<ObjectFrame>,
    associated_views: Vec<usize>,
}

impl AnonymousMemoryObject {
    pub closed spec fn wf(&self) -> bool {
        self.frames.wf()
    }

    /// The frame at offset `off`, if any.
    pub closed spec fn frame_at(&self, off: usize) -> Option<ObjectFrame> {
        self.frames.at(off as u64)
    }

    /// The frames of the object, by increasing offset.
    pub closed spec fn all_frames(&self) -> Seq<ObjectFrame> {
        self.frames.entries()
    }

    /// Room the frame table of the object has taken.
    pub closed spec fn table_room(&self) -> nat {
        self.frames.arena_len()
    }

    pub closed spec fn spec_size(&self) -> usize {
        self.size
    }

    pub closed spec fn spec_rights(&self) -> CapRights {
        self.rights
    }

    /// The views mapping the object, by identifier.
    pub closed spec fn views(&self) -> Seq<usize> {
        self.associated_views@
    }

    pub fn size(&self) -> (r: usize)
        ensures
            r == self.spec_size(),
    {
        self.size
    }

    pub fn rights(&self) -> (r: CapRights)
        ensures
            r == self.spec_rights(),
    {
        self.rights
    }

    /// Records that view `view` maps the object.
    pub fn add_associated_view(&mut self, view: usize)
        ensures
            final(self).views() == old(self).views().push(view),
            final(self).spec_size() == old(self).spec_size(),
            final(self).spec_rights() == old(self).spec_rights(),
            final(self).wf() == old(self).wf(),
            final(self).table_room() == old(self).table_room(),
            forall|o: usize| #[trigger] final(self).frame_at(o) == old(self).frame_at(o),
            final(self).all_frames() == old(self).all_frames(),
    {
        self.associated_views.push(view);
    }

    /// Whether no view maps the object.
    pub fn has_no_views(&self) -> (r: bool)
        ensures
            r == (self.views().len() == 0),
    {
        self.associated_views.len() == 0
    }

    /// An object of `size` bytes with rights `rights`, no frame yet and no view.
    pub fn new(size: usize, rights: CapRights) -> (o: Self)
        ensures
            o.wf(),
            o.spec_size() == size,
            o.spec_rights() == rights,
            forall|off: usize| (#[trigger] o.frame_at(off)) is None,
            o.views().len() == 0,
            o.table_room() == crate::radix::OBJ_LVL_MAX,
    {
        let o = AnonymousMemoryObject {
            size: size,
            rights: rights,
            frames: RadixTable::new(),
            associated_views: Vec::new(),
        };
        proof {
            assert forall|off: usize| (#[trigger] o.frame_at(off)) is None by {
                assert(o.frames.at(off as u64) is None);
            }
        }
        o
    }

    /// The frame at offset `offset`, if any.
    pub fn lookup_frame(&self, offset: usize) -> (r: Option<ObjectFrame>)
        requires
            self.wf(),
        ensures
            r == self.frame_at(offset),
    {
        self.frames.lookup(offset as u64)
    }

    /// Puts frame `frame` (capability and frame reference) at offset
    /// `offset`. Fails with `DeleteFirst`, changing no frame, when that page
    /// already has one.
    pub fn insert_frame_at(&mut self, offset: usize, frame: (u64, FrameRef)) -> (r: Result<(), Sel4Error>)
        requires
            old(self).wf(),
            old(self).table_room() + 3 * 512 <= usize::MAX,
        ensures
            final(self).wf(),
            final(self).spec_size() == old(self).spec_size(),
            final(self).spec_rights() == old(self).spec_rights(),
            final(self).views() == old(self).views(),
            final(self).table_room() <= old(self).table_room() + 3 * 512,
            r is Ok <==> old(self).frame_at(offset) is None,
            r is Err ==> r == Err::<(), Sel4Error>(Sel4Error::DeleteFirst) && forall|o: usize|
                #[trigger] final(self).frame_at(o) == old(self).frame_at(o),
            r is Ok ==> forall|o: usize| #[trigger] final(self).frame_at(o) == (if page_key(o as u64) == page_key(
                offset as u64,
            ) {
                Some(ObjectFrame { cap: frame.0, frame_ref: frame.1 })
            } else {
                old(self).frame_at(o)
            }),
    {
        let r = self.frames.insert_at(offset as u64, ObjectFrame { cap: frame.0, frame_ref: frame.1 });
        proof {
            assert forall|o: usize| #[trigger] self.frame_at(o) == self.frames.at(o as u64) by {}
        }
        r
    }

    /// Frees every frame of the object in `frame_table`, by increasing
    /// offset; returns the capabilities to revoke first, those of every frame
    /// when a view maps the object, none otherwise.
    pub fn cleanup_frame_table(&self, frame_table: &mut FrameTable) -> (revoke: Vec<u64>)
        requires
            self.wf(),
            old(frame_table).wf(),
            frame_refs(self.all_frames()).no_duplicates(),
            forall|i: int| 0 <= i < self.all_frames().len() ==> old(frame_table)@.allocated.contains(
                #[trigger] self.all_frames()[i].frame_ref,
            ),
        ensures
            final(frame_table).wf(),
            final(frame_table)@ == release_all(old(frame_table)@, frame_refs(self.all_frames())),
            final(frame_table).spec_vspace() == old(frame_table).spec_vspace(),
            revoke@ == (if self.views().len() != 0 {
                frame_caps(self.all_frames())
            } else {
                Seq::empty()
            }),
    {
        let frames = self.frames.entries_list();
        let revoking = self.associated_views.len() != 0;
        let ghost refs = frame_refs(frames@);
        let mut revoke: Vec<u64> = Vec::new();
        let mut i: usize = 0;
        while i < frames.len()
            invariant
                i <= frames@.len(),
                frames@ == self.all_frames(),
                refs == frame_refs(frames@),
                refs.no_duplicates(),
                frame_table.wf(),
                frame_table.spec_vspace() == old(frame_table).spec_vspace(),
                forall|k: int| 0 <= k < frames@.len() ==> old(frame_table)@.allocated.contains(#[trigger] frames@[k].frame_ref),
                frame_table@ == release_all(old(frame_table)@, refs.subrange(0, i as int)),
                revoking ==> revoke@ == frame_caps(frames@.subrange(0, i as int)),
                !revoking ==> revoke@.len() == 0,
            decreases frames@.len() - i,
        {
            let f = frames[i];
            proof {
                let pre = refs.subrange(0, i as int);
                assert(!pre.contains(f.frame_ref)) by {
                    if pre.contains(f.frame_ref) {
                        let j = choose|j: int| 0 <= j < pre.len() && pre[j] == f.frame_ref;
                        assert(refs[j] == refs[i as int]);
                    }
                }
                assert(old(frame_table)@.allocated.contains(frames@[i as int].frame_ref));
                lemma_release_all_allocated(old(frame_table)@, pre, f.frame_ref);
                assert(refs.subrange(0, i + 1).drop_last() =~= pre);
            }
            if revoking {
                revoke.push(f.cap);
                proof {
                    assert(frame_caps(frames@.subrange(0, i + 1)) =~= frame_caps(frames@.subrange(0, i as int)).push(f.cap));
                }
            }
            frame_table.free_frame(f.frame_ref);
            i += 1;
        }
        proof {
            assert(refs.subrange(0, frames@.len() as int) =~= refs);
            assert(frames@.subrange(0, frames@.len() as int) =~= frames@);
            if !revoking {
                assert(revoke@ =~= Seq::<u64>::empty());
            }
        }
        revoke
    }
}

/// A fault waiting on a view for the server that manages it to provide the
/// page: the reply capability to answer it with, the faulting address and
/// the faulting process's VSpace.
#[derive(Clone, Copy, Debug, PartialEq, Eq, Structural)]
pub struct PendingFault {
    pub reply: u64,
    pub fault_addr: usize,
    pub vspace: u64,
}

/// A view: a window of a process mapped onto an object.
pub struct ObjectView {
    caps: RadixTable<u64>,
    bound_window: usize,
    bound_object: Option<usize>,
    rights: CapRights,
    win_offset: usize,
    obj_offset: usize,
    pending_fault: Option<PendingFault>,
}

impl ObjectView {
    pub closed spec fn wf(&self) -> bool {
        self.caps.wf()
    }

    /// The frame capability mapped at offset `off`, if any.
    pub closed spec fn cap_at(&self, off: usize) -> Option<u64> {
        self.caps.at(off as u64)
    }

    /// The frame capabilities of the view, by increasing offset.
    pub closed spec fn all_caps(&self) -> Seq<u64> {
        self.caps.entries()
    }

    /// Room the capability table of the view has taken.
    pub closed spec fn table_room(&self) -> nat {
        self.caps.arena_len()
    }

    /// The fault waiting on the view, if any.
    pub closed spec fn pending(&self) -> Option<PendingFault> {
        self.pending_fault
    }

    /// The window, object, rights and offsets of the view.
    pub closed spec fn binding(&self) -> (usize, Option<usize>, CapRights, usize, usize) {
        (self.bound_window, self.bound_object, self.rights, self.win_offset, self.obj_offset)
    }

    /// The window the view maps into, the object it maps (if any), its
    /// rights, and where the mapping starts in the window and the object.
    pub fn get_binding(&self) -> (r: (usize, Option<usize>, CapRights, usize, usize))
        ensures
            r == self.binding(),
    {
        (self.bound_window, self.bound_object, self.rights, self.win_offset, self.obj_offset)
    }

    /// A view of window `bw` onto object `bo` with `rights`, mapping nothing yet.
    pub fn new(bw: usize, bo: Option<usize>, rights: CapRights, win_off: usize, obj_off: usize) -> (v: Self)
        ensures
            v.wf(),
            v.binding() == (bw, bo, rights, win_off, obj_off),
            forall|off: usize| (#[trigger] v.cap_at(off)) is None,
            v.table_room() == crate::radix::OBJ_LVL_MAX,
            v.pending() is None,
    {
        let v = ObjectView {
            caps: RadixTable::new(),
            bound_window: bw,
            bound_object: bo,
            rights: rights,
            win_offset: win_off,
            obj_offset: obj_off,
            pending_fault: None,
        };
        proof {
            assert forall|off: usize| (#[trigger] v.cap_at(off)) is None by {
                assert(v.caps.at(off as u64) is None);
            }
        }
        v
    }

    /// The frame capability mapped at offset `offset`, if any.
    pub fn lookup_cap(&self, offset: usize) -> (r: Option<u64>)
        requires
            self.wf(),
        ensures
            r == self.cap_at(offset),
    {
        self.caps.lookup(offset as u64)
    }

    /// Records frame capability `cap` at offset `offset`. Fails with
    /// `DeleteFirst`, changing nothing mapped, when that page already has one.
    pub fn insert_cap_at(&mut self, offset: usize, cap: u64) -> (r: Result<(), Sel4Error>)
        requires
            old(self).wf(),
            old(self).table_room() + 3 * 512 <= usize::MAX,
        ensures
            final(self).wf(),
            final(self).binding() == old(self).binding(),
            final(self).pending() == old(self).pending(),
            final(self).table_room() <= old(self).table_room() + 3 * 512,
            r is Ok <==> old(self).cap_at(offset) is None,
            r is Err ==> r == Err::<(), Sel4Error>(Sel4Error::DeleteFirst) && forall|o: usize|
                #[trigger] final(self).cap_at(o) == old(self).cap_at(o),
            r is Ok ==> forall|o: usize| #[trigger] final(self).cap_at(o) == (if page_key(o as u64) == page_key(
                offset as u64,
            ) {
                Some(cap)
            } else {
                old(self).cap_at(o)
            }),
    {
        let r = self.caps.insert_at(offset as u64, cap);
        proof {
            assert forall|o: usize| #[trigger] self.cap_at(o) == self.caps.at(o as u64) by {}
        }
        r
    }

    /// The fault waiting on the view, if any.
    pub fn pending_fault(&self) -> (r: Option<PendingFault>)
        ensures
            r == self.pending(),
    {
        self.pending_fault
    }

    /// A fault on the view is forwarded to the server managing it and waits
    /// on the view, replacing any earlier one, until the page is provided.
    pub fn set_pending_fault(&mut self, fault: PendingFault)
        ensures
            final(self).pending() == Some(fault),
            final(self).wf() == old(self).wf(),
            final(self).binding() == old(self).binding(),
            final(self).all_caps() == old(self).all_caps(),
            final(self).table_room() == old(self).table_room(),
            forall|o: usize| #[trigger] final(self).cap_at(o) == old(self).cap_at(o),
    {
        self.pending_fault = Some(fault);
    }

    /// The page-map request that provides the page at `view_offset` is
    /// done: the frame capability `cap` copied for it is recorded there, and
    /// the fault waiting on the view, if any, is handed back to be answered
    /// (its page mapped at the fault's page, the process resumed) and
    /// cleared.
    pub fn page_map_complete(&mut self, view_offset: usize, cap: u64) -> (answer: Option<PendingFault>)
        requires
            old(self).wf(),
            old(self).table_room() + 3 * 512 <= usize::MAX,
            old(self).cap_at(view_offset) is None,
        ensures
            final(self).wf(),
            final(self).binding() == old(self).binding(),
            final(self).cap_at(view_offset) == Some(cap),
            forall|o: usize| page_key(o as u64) != page_key(view_offset as u64) ==> #[trigger] final(self).cap_at(o)
                == old(self).cap_at(o),
            answer == old(self).pending(),
            final(self).pending() is None,
    {
        let r = self.insert_cap_at(view_offset, cap);
        assert(r is Ok);
        let ghost mid = *self;
        assert(mid.cap_at(view_offset) == Some(cap));
        let answer = self.pending_fault;
        self.pending_fault = None;
        proof {
            assert(self.caps == mid.caps);
            assert forall|o: usize| page_key(o as u64) != page_key(view_offset as u64) implies #[trigger] self.cap_at(o)
                == old(self).cap_at(o) by {
                assert(mid.cap_at(o) == old(self).cap_at(o));
            }
        }
        answer
    }

    /// The capabilities to clean up when the view goes, by increasing
    /// offset: each is deleted (if `delete`) and its slot freed by the caller.
    pub fn cleanup_cap_table(&self) -> (r: Vec<u64>)
        requires
            self.wf(),
        ensures
            r@ == self.all_caps(),
    {
        self.caps.entries_list()
    }
}

/// Law: a view request is accepted exactly when its size is non-zero, both
/// offsets are page aligned, the view fits in the object and in the window
/// (ending at most at their ends), and the window has no view yet.
pub proof fn law_view_check_accepts_fitting_views(
    window_size: usize,
    window_bound: bool,
    object_size: usize,
    win_offset: usize,
    obj_offset: usize,
    size: usize,
)
    ensures
        view_check_result(window_size, window_bound, object_size, win_offset, obj_offset, size) is Ok <==> (size > 0
            && win_offset % 4096 == 0 && obj_offset % 4096 == 0 && obj_offset + size <= object_size && win_offset
            + size <= window_size && !window_bound),
{
}

} // verus!
