//! The decisions of virtual-memory fault handling and page mapping: where a
//! faulting address lies, and how a view gets the frame capability it lacks.
//! Copying capabilities, mapping frames and signalling servers are kernel
//! work done by the caller.

use vstd::prelude::*;
use crate::error::InvocationError;
use crate::object::{AnonymousMemoryObject, ObjectFrame, ObjectView, PendingFault};
use crate::proc::{UserProcess, WindowSpan, first_containing};

verus! {

/// How a view gets a frame capability at an offset.
#[derive(Clone, Copy, Debug)]
pub enum ViewFill {
    /// The view already maps a frame there.
    Mapped,
    /// No object backs the view: the server managing it is asked.
    External,
    /// The object has frame `frame` there: its capability is copied into the view.
    FromObject { obj_offset: usize, frame: ObjectFrame },
    /// The object has no frame there: a zeroed frame is added to it first.
    NewFrame { obj_offset: usize },
}

/// The window of process `p` that address `addr` lies in, as the process
/// finds it, and the offset of `addr` in it.
pub open spec fn fault_window_spec(p: UserProcess, addr: int) -> Option<(WindowSpan, int)> {
    match first_containing(p.spec_initial_windows(), addr) {
        Some(w) => Some((w, addr - w.start)),
        None => match first_containing(p.spec_windows(), addr) {
            Some(w) => Some((w, addr - w.start)),
            None => None,
        },
    }
}

/// The window of process `p` that faulting address `addr` lies in, and the
/// offset of the fault in it; none when no window holds it.
pub fn vm_fault_window(p: &UserProcess, addr: usize) -> (r: Option<(WindowSpan, usize)>)
    requires
        p.wf(),
    ensures
        r matches Some(x) ==> fault_window_spec(*p, addr as int) == Some((x.0, x.1 as int)),
        r is None ==> fault_window_spec(*p, addr as int) is None,
{
    match p.find_window_containing(addr) {
        None => None,
        Some(w) => {
            proof {
                lemma_first_containing_contains(p.spec_initial_windows(), addr as int);
                lemma_first_containing_contains(p.spec_windows(), addr as int);
            }
            Some((w, addr - w.start))
        },
    }
}

proof fn lemma_first_containing_contains(ws: Seq<WindowSpan>, vaddr: int)
    ensures
        first_containing(ws, vaddr) matches Some(w) ==> w.start <= vaddr < w.start + w.size,
    decreases ws.len(),
{
    if ws.len() > 0 {
        lemma_first_containing_contains(ws.drop_first(), vaddr);
    }
}

/// What `view_fill` decides for offset `offset` of `view`, backed by `object`.
pub open spec fn view_fill_spec(view: ObjectView, object: Option<AnonymousMemoryObject>, offset: usize) -> ViewFill {
    if view.cap_at(offset) is Some {
        ViewFill::Mapped
    } else {
        match object {
            None => ViewFill::External,
            Some(o) => {
                let obj_offset = (view.binding().4 + (offset - view.binding().3)) as usize;
                match o.frame_at(obj_offset) {
                    Some(f) => ViewFill::FromObject { obj_offset: obj_offset, frame: f },
                    None => ViewFill::NewFrame { obj_offset: obj_offset },
                }
            },
        }
    }
}

/// How `view`, backed by `object` (the object the view is bound to, if any),
/// gets a frame capability at offset `offset`: it has one, or the server
/// managing it is asked, or the object's frame at the matching object offset
/// is used, or a new one is added to the object first.
pub fn view_fill(view: &ObjectView, object: Option<&AnonymousMemoryObject>, offset: usize) -> (r: ViewFill)
    requires
        view.wf(),
        object matches Some(o) ==> o.wf(),
        view.binding().1 is Some <==> object is Some,
        view.cap_at(offset) is None && object is Some ==> view.binding().3 <= offset && view.binding().4 + (offset
            - view.binding().3) <= usize::MAX,
    ensures
        r == view_fill_spec(*view, match object {
            Some(o) => Some(*o),
            None => None,
        }, offset),
{
    if view.lookup_cap(offset).is_some() {
        return ViewFill::Mapped;
    }
    match object {
        None => ViewFill::External,
        Some(o) => {
            let (_, _, _, win_offset, obj_offset0) = view.get_binding();
            let obj_offset = obj_offset0 + (offset - win_offset);
            match o.lookup_frame(obj_offset) {
                Some(f) => ViewFill::FromObject { obj_offset: obj_offset, frame: f },
                None => ViewFill::NewFrame { obj_offset: obj_offset },
            }
        },
    }
}

/// What the root server does about a virtual-memory fault.
#[derive(Clone, Copy, Debug)]
pub enum FaultAction {
    /// No window holds the address, or no view is bound to it: the fault is
    /// answered without resuming the process.
    Refuse,
    /// No object backs the view: the server managing it is asked for the
    /// page at `offset` of the view, and the fault stays pending.
    Forward { offset: usize },
    /// The view has the frame at `offset`: it is mapped at `vaddr` and the
    /// process resumed.
    MapFrame { offset: usize, vaddr: usize },
    /// The object has frame `frame` at `obj_offset`: its capability is
    /// copied into the view at `offset`, mapped at `vaddr`, and the process
    /// resumed.
    CopyFrame { offset: usize, vaddr: usize, obj_offset: usize, frame: ObjectFrame },
    /// The object has no frame at `obj_offset`: a zeroed frame is added to
    /// it there, copied into the view at `offset`, mapped at `vaddr`, and the
    /// process resumed.
    NewFrame { offset: usize, vaddr: usize, obj_offset: usize },
}

/// What a fault at `addr` calls for, given the window found for it (and
/// the offset in it), the view bound to that window and the object bound
/// to that view.
pub open spec fn fault_action_spec(
    found: Option<(WindowSpan, usize)>,
    view: Option<ObjectView>,
    object: Option<AnonymousMemoryObject>,
    addr: usize,
) -> FaultAction {
    let vaddr = (addr - addr % 4096) as usize;
    match (found, view) {
        (Some(f), Some(v)) => match view_fill_spec(v, object, f.1) {
            ViewFill::Mapped => FaultAction::MapFrame { offset: f.1, vaddr: vaddr },
            ViewFill::External => FaultAction::Forward { offset: (f.1 - f.1 % 4096) as usize },
            ViewFill::FromObject { obj_offset, frame } => FaultAction::CopyFrame {
                offset: f.1,
                vaddr: vaddr,
                obj_offset: obj_offset,
                frame: frame,
            },
            ViewFill::NewFrame { obj_offset } => FaultAction::NewFrame { offset: f.1, vaddr: vaddr, obj_offset: obj_offset },
        },
        _ => FaultAction::Refuse,
    }
}

/// Decides what a fault at `addr` calls for (see `fault_action_spec`):
/// `found` is what `vm_fault_window` gave, `view` the view bound to that
/// window if any, and `object` the object bound to the view if any.
pub fn fault_action(
    found: Option<(WindowSpan, usize)>,
    view: Option<&ObjectView>,
    object: Option<&AnonymousMemoryObject>,
    addr: usize,
) -> (r: FaultAction)
    requires
        view matches Some(v) ==> v.wf(),
        object matches Some(o) ==> o.wf(),
        view matches Some(v) ==> (v.binding().1 is Some <==> object is Some),
        found matches Some(f) ==> (view matches Some(v) ==> (object is Some && v.cap_at(f.1) is None ==> v.binding().3
            <= f.1 && v.binding().4 + (f.1 - v.binding().3) <= usize::MAX)),
    ensures
        r == fault_action_spec(
            found,
            match view {
                Some(v) => Some(*v),
                None => None,
            },
            match object {
                Some(o) => Some(*o),
                None => None,
            },
            addr,
        ),
{
    let vaddr = addr - addr % 4096;
    match (found, view) {
        (Some(f), Some(v)) => {
            let offset = f.1;
            match view_fill(v, object, offset) {
                ViewFill::Mapped => FaultAction::MapFrame { offset: offset, vaddr: vaddr },
                ViewFill::External => FaultAction::Forward { offset: offset - offset % 4096 },
                ViewFill::FromObject { obj_offset, frame } => FaultAction::CopyFrame {
                    offset: offset,
                    vaddr: vaddr,
                    obj_offset: obj_offset,
                    frame: frame,
                },
                ViewFill::NewFrame { obj_offset } => FaultAction::NewFrame { offset: offset, vaddr: vaddr, obj_offset: obj_offset },
            }
        },
        _ => FaultAction::Refuse,
    }
}

/// What a page-map request calls for once it is accepted: the source view
/// is filled at `src_offset` as `fill` says (its frame is there, or is the
/// object's, or is a new zeroed one); that frame's capability is copied
/// into the destination view at the view offset; and, when the destination
/// view has a fault pending, the page is mapped for the faulting process,
/// which is answered.
#[derive(Clone, Copy, Debug)]
pub struct PageMapPlan {
    pub src_offset: usize,
    pub fill: ViewFill,
    pub answer_pending: bool,
}

/// What a page-map request answers. `dst` is the view the request's handle
/// names when that handle is a window registration, with `dst_pending`
/// telling whether a fault waits on it; `found` is the window holding the
/// contents and their offset in it (`vm_fault_window`), `src_view` the view
/// bound to that window and `src_object` the object bound to that view.
pub open spec fn page_map_spec(
    view_offset: usize,
    content_vaddr: usize,
    dst: Option<ObjectView>,
    dst_pending: bool,
    found: Option<(WindowSpan, usize)>,
    src_view: Option<ObjectView>,
    src_object: Option<AnonymousMemoryObject>,
) -> Result<PageMapPlan, InvocationError> {
    if view_offset % 4096 != 0 || content_vaddr % 4096 != 0 {
        Err(InvocationError::AlignmentError { which_arg: 1 })
    } else if dst is None {
        Err(InvocationError::InvalidHandle { which_arg: 0 })
    } else {
        match (found, src_view) {
            (Some(f), Some(v)) => Ok(
                PageMapPlan { src_offset: f.1, fill: view_fill_spec(v, src_object, f.1), answer_pending: dst_pending },
            ),
            _ => Err(InvocationError::InvalidArguments),
        }
    }
}

/// Decides a page-map request (see `page_map_spec`).
pub fn page_map_plan(
    view_offset: usize,
    content_vaddr: usize,
    dst: Option<&ObjectView>,
    dst_pending: bool,
    found: Option<(WindowSpan, usize)>,
    src_view: Option<&ObjectView>,
    src_object: Option<&AnonymousMemoryObject>,
) -> (r: Result<PageMapPlan, InvocationError>)
    requires
        dst matches Some(d) ==> d.wf(),
        src_view matches Some(v) ==> v.wf(),
        src_object matches Some(o) ==> o.wf(),
        src_view matches Some(v) ==> (v.binding().1 is Some <==> src_object is Some),
        view_offset % 4096 == 0 && content_vaddr % 4096 == 0 ==> (dst matches Some(d) ==> d.cap_at(view_offset)
            is None),
        view_offset % 4096 == 0 && content_vaddr % 4096 == 0 && dst is Some ==> (found matches Some(f) ==> (
        src_view matches Some(v) ==> (v.cap_at(f.1) is None ==> src_object is Some && v.binding().3 <= f.1
            && v.binding().4 + (f.1 - v.binding().3) <= usize::MAX))),
    ensures
        r == page_map_spec(
            view_offset,
            content_vaddr,
            match dst {
                Some(d) => Some(*d),
                None => None,
            },
            dst_pending,
            found,
            match src_view {
                Some(v) => Some(*v),
                None => None,
            },
            match src_object {
                Some(o) => Some(*o),
                None => None,
            },
        ),
{
    if page_map_check(view_offset, content_vaddr).is_err() {
        return Err(InvocationError::AlignmentError { which_arg: 1 });
    }
    if dst.is_none() {
        return Err(InvocationError::InvalidHandle { which_arg: 0 });
    }
    match (found, src_view) {
        (Some(f), Some(v)) => {
            let fill = view_fill(v, src_object, f.1);
            Ok(PageMapPlan { src_offset: f.1, fill: fill, answer_pending: dst_pending })
        },
        _ => Err(InvocationError::InvalidArguments),
    }
}

/// Checks the addresses of a page-map request: the view offset and the
/// address of the contents must both be page aligned.
pub fn page_map_check(view_offset: usize, content_vaddr: usize) -> (r: Result<(), InvocationError>)
    ensures
        r is Ok <==> view_offset % 4096 == 0 && content_vaddr % 4096 == 0,
        r is Err ==> r == Err::<(), InvocationError>(InvocationError::AlignmentError { which_arg: 1 }),
{
    if view_offset % 4096 != 0 {
        return Err(InvocationError::AlignmentError { which_arg: 1 });
    }
    if content_vaddr % 4096 != 0 {
        return Err(InvocationError::AlignmentError { which_arg: 1 });
    }
    Ok(())
}

/// The window holding the contents of a page-map request, and the offset of
/// the contents in it; fails with `InvalidArguments` when no window holds them.
pub fn page_map_source(p: &UserProcess, content_vaddr: usize) -> (r: Result<(WindowSpan, usize), InvocationError>)
    requires
        p.wf(),
    ensures
        r matches Ok(x) ==> fault_window_spec(*p, content_vaddr as int) == Some((x.0, x.1 as int)),
        r is Err ==> r == Err::<(WindowSpan, usize), InvocationError>(InvocationError::InvalidArguments)
            && fault_window_spec(*p, content_vaddr as int) is None,
{
    match vm_fault_window(p, content_vaddr) {
        None => Err(InvocationError::InvalidArguments),
        Some(x) => Ok(x),
    }
}

/// Slots a mapping may take for page tables.
pub const MAPPING_SLOTS: usize = 3;

/// Where mapping a frame stands: the page tables added so far, and which of
/// the caller's spare slots they took (bit `i` for slot `i`).
#[derive(Clone, Copy, Debug)]
pub struct MapRetry {
    i: usize,
    used: usize,
}

/// What to do after an attempt to map a frame.
#[derive(Clone, Copy, Debug, PartialEq, Eq, Structural)]
pub enum MapAction {
    /// The frame is mapped; `used` marks the spare slots taken.
    Done { used: usize },
    /// Mapping failed with `err`.
    Fail { err: crate::error::Sel4Error },
    /// A page table is missing: add one (the `attempt`-th) and map again.
    AddPageTable { attempt: usize },
}

impl MapRetry {
    pub closed spec fn attempts(&self) -> usize {
        self.i
    }

    pub closed spec fn used_slots(&self) -> usize {
        self.used
    }

    /// No page table added yet, no spare slot taken.
    pub fn new() -> (r: Self)
        ensures
            r.attempts() == 0,
            r.used_slots() == 0,
    {
        MapRetry { i: 0, used: 0 }
    }

    /// After an attempt ended with `res`: done if it succeeded; another page
    /// table if the kernel found one missing and fewer than
    /// `MAPPING_SLOTS` were added; else the failure.
    pub fn decide(&self, res: Result<(), crate::error::Sel4Error>) -> (r: MapAction)
        ensures
            res is Ok ==> r == (MapAction::Done { used: self.used_slots() }),
            res matches Err(e) ==> r == (if self.attempts() < MAPPING_SLOTS && e == crate::error::Sel4Error::FailedLookup {
                MapAction::AddPageTable { attempt: self.attempts() }
            } else {
                MapAction::Fail { err: e }
            }),
    {
        match res {
            Ok(()) => MapAction::Done { used: self.used },
            Err(e) => {
                if self.i < MAPPING_SLOTS && e == crate::error::Sel4Error::FailedLookup {
                    MapAction::AddPageTable { attempt: self.i }
                } else {
                    MapAction::Fail { err: e }
                }
            },
        }
    }

    /// The slot for the next page table: the caller's spare slot of this
    /// attempt, marked taken, if the caller gave spare slots; none if the
    /// caller allocates one.
    pub fn take_slot(&mut self, free_slots: Option<[usize; 3]>) -> (r: Option<usize>)
        requires
            old(self).attempts() < MAPPING_SLOTS,
        ensures
            final(self).attempts() == old(self).attempts(),
            free_slots matches Some(fs) ==> r == Some(fs[old(self).attempts() as int]) && final(self).used_slots()
                == old(self).used_slots() | (1usize << old(self).attempts()),
            free_slots is None ==> r is None && final(self).used_slots() == old(self).used_slots(),
    {
        match free_slots {
            Some(fs) => {
                self.used = self.used | (1usize << self.i);
                Some(fs[self.i])
            },
            None => None,
        }
    }

    /// Moves on to the next attempt.
    pub fn next_attempt(&mut self)
        requires
            old(self).attempts() < MAPPING_SLOTS,
        ensures
            final(self).attempts() == old(self).attempts() + 1,
            final(self).used_slots() == old(self).used_slots(),
    {
        self.i = self.i + 1;
    }
}

/// A slot for a page table must not be the null slot: fails with
/// `InvalidCapability` if it is.
pub fn check_pt_slot(slot: usize) -> (r: Result<usize, crate::error::Sel4Error>)
    ensures
        slot != 0 ==> r == Ok::<usize, crate::error::Sel4Error>(slot),
        slot == 0 ==> r == Err::<usize, crate::error::Sel4Error>(crate::error::Sel4Error::InvalidCapability),
{
    if slot == 0 {
        Err(crate::error::Sel4Error::InvalidCapability)
    } else {
        Ok(slot)
    }
}

/// Zeroes the first page of `data`, the bytes of a frame newly added to an
/// object, leaving the rest as it was.
pub fn zero_frame(data: &mut [u8])
    requires
        old(data)@.len() >= 4096,
    ensures
        final(data)@.len() == old(data)@.len(),
        forall|i: int| 0 <= i < 4096 ==> #[trigger] final(data)@[i] == 0,
        forall|i: int| 4096 <= i < old(data)@.len() ==> #[trigger] final(data)@[i] == old(data)@[i],
{
    let mut i: usize = 0;
    while i < 4096
        invariant
            i <= 4096,
            data@.len() == old(data)@.len(),
            data@.len() >= 4096,
            forall|j: int| 0 <= j < i ==> #[trigger] data@[j] == 0,
            forall|j: int| i <= j < data@.len() ==> #[trigger] data@[j] == old(data)@[j],
        decreases 4096 - i,
    {
        data[i] = 0;
        i += 1;
    }
}

/// The page of a pending fault's address, where the page provided for it
/// is mapped.
pub fn pending_fault_page(fault: &PendingFault) -> (r: usize)
    ensures
        r == fault.fault_addr - fault.fault_addr % 4096,
{
    fault.fault_addr - fault.fault_addr % 4096
}

/// Law: what a fault at `offset` of a view calls for. A view with a frame
/// capability there maps it; one without and without an object is served
/// by its managing server; one backed by an object takes the object's page
/// at the view's object offset plus the distance of `offset` from the view's
/// window offset: the object's frame when it has one there, a new frame
/// placed there otherwise.
pub proof fn law_view_fill_uses_matching_object_offset(
    view: ObjectView,
    object: Option<AnonymousMemoryObject>,
    offset: usize,
)
    requires
        view.cap_at(offset) is None && object is Some ==> view.binding().3 <= offset && view.binding().4 + (offset
            - view.binding().3) <= usize::MAX,
    ensures
        view.cap_at(offset) is Some ==> view_fill_spec(view, object, offset) is Mapped,
        view.cap_at(offset) is None && object is None ==> view_fill_spec(view, object, offset) is External,
        view.cap_at(offset) is None && object is Some ==> {
            let want = view.binding().4 + (offset - view.binding().3);
            let o = object->Some_0;
            match view_fill_spec(view, object, offset) {
                ViewFill::FromObject { obj_offset, frame } => obj_offset == want && o.frame_at(obj_offset) == Some(frame),
                ViewFill::NewFrame { obj_offset } => obj_offset == want && o.frame_at(obj_offset) is None,
                _ => false,
            }
        },
{
}

/// Law: a page-map request is accepted exactly when both addresses are page
/// aligned, its handle names a destination view, and the contents lie in a
/// window with a view; an accepted request takes the page at the contents'
/// offset in that window, and answers a fault exactly when one is pending
/// on the destination view.
pub proof fn law_page_map_answers_exactly_the_pending_fault(
    view_offset: usize,
    content_vaddr: usize,
    dst: Option<ObjectView>,
    dst_pending: bool,
    found: Option<(WindowSpan, usize)>,
    src_view: Option<ObjectView>,
    src_object: Option<AnonymousMemoryObject>,
)
    ensures
        page_map_spec(view_offset, content_vaddr, dst, dst_pending, found, src_view, src_object) is Ok <==> (view_offset
            % 4096 == 0 && content_vaddr % 4096 == 0 && dst is Some && found is Some && src_view is Some),
        page_map_spec(view_offset, content_vaddr, dst, dst_pending, found, src_view, src_object) matches Ok(plan) ==> (
        plan.answer_pending == dst_pending && plan.src_offset == found->Some_0.1),
        view_offset % 4096 != 0 || content_vaddr % 4096 != 0 ==> page_map_spec(
            view_offset,
            content_vaddr,
            dst,
            dst_pending,
            found,
            src_view,
            src_object,
        ) == Err::<PageMapPlan, InvocationError>(InvocationError::AlignmentError { which_arg: 1 }),
{
}

/// Law: what a fault at `addr` calls for, given the window found for it
/// and the offset in it. Without a window or a view bound to it the fault is
/// refused. Otherwise the page that holds `addr` is mapped, from the view's
/// frame at the offset when it has one; without one and without an object,
/// the managing server is asked for the page of the offset; with an object,
/// the object's frame at the matching object offset is copied, or a new
/// frame is placed there.
pub proof fn law_fault_action_maps_the_faulting_page(
    found: Option<(WindowSpan, usize)>,
    view: Option<ObjectView>,
    object: Option<AnonymousMemoryObject>,
    addr: usize,
)
    requires
        found matches Some(f) ==> (view matches Some(v) ==> (object is Some && v.cap_at(f.1) is None ==> v.binding().3
            <= f.1 && v.binding().4 + (f.1 - v.binding().3) <= usize::MAX)),
    ensures
        fault_action_spec(found, view, object, addr) is Refuse <==> (found is None || view is None),
        fault_action_spec(found, view, object, addr) matches FaultAction::MapFrame { offset, vaddr } ==> (vaddr % 4096
            == 0 && vaddr <= addr < vaddr + 4096 && offset == found->Some_0.1 && view->Some_0.cap_at(offset) is Some),
        fault_action_spec(found, view, object, addr) matches FaultAction::Forward { offset } ==> (offset % 4096 == 0
            && offset <= found->Some_0.1 < offset + 4096 && view->Some_0.cap_at(found->Some_0.1) is None && object is None),
        fault_action_spec(found, view, object, addr) matches FaultAction::CopyFrame { offset, vaddr, obj_offset, frame }
            ==> (vaddr % 4096 == 0 && vaddr <= addr < vaddr + 4096 && offset == found->Some_0.1 && view->Some_0.cap_at(
            offset,
        ) is None && object is Some && object->Some_0.frame_at(obj_offset) == Some(frame) && obj_offset == view->Some_0.binding().4
            + (offset - view->Some_0.binding().3)),
        fault_action_spec(found, view, object, addr) matches FaultAction::NewFrame { offset, vaddr, obj_offset } ==> (
        vaddr % 4096 == 0 && vaddr <= addr < vaddr + 4096 && offset == found->Some_0.1 && view->Some_0.cap_at(offset)
            is None && object is Some && object->Some_0.frame_at(obj_offset) is None && obj_offset == view->Some_0.binding().4
            + (offset - view->Some_0.binding().3)),
{
    if let (Some(f), Some(v)) = (found, view) {
        law_view_fill_uses_matching_object_offset(v, object, f.1);
    }
}

} // verus!
