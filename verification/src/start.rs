//! Starting a process: the kernel work it takes, step by step, and what
//! undoes the steps already taken when one fails. The caller carries out
//! each step and reports how it went; the plan says what comes next.

use vstd::prelude::*;
use crate::error::Sel4Error;
use crate::util::{FAULT_EP_BITS, INVOCATION_EP_BITS};

verus! {

/// A step of starting a process, in the order they are taken.
#[derive(Clone, Copy, Debug, PartialEq, Eq, Structural)]
pub enum StartStep {
    /// Retype an untyped into the process's VSpace.
    RetypeVSpace,
    /// Assign the VSpace to the ASID pool.
    AssignAsid,
    /// Create the process's one-level CSpace.
    CreateCSpace,
    /// Allocate a frame for the IPC buffer.
    AllocIpcFrame,
    /// Allocate a root-server slot for the IPC buffer's mapping capability.
    AllocIpcSlot,
    /// Copy the IPC buffer frame's capability into that slot.
    CopyIpcCap,
    /// Allocate the slot of the process's endpoint in its CSpace.
    AllocEpSlot,
    /// Mint the root server's endpoint into that slot with `badge`.
    MintEp { badge: u64 },
    /// Allocate the slot of the process's own CNode in its CSpace.
    AllocSelfSlot,
    /// Copy the CNode capability into that slot.
    CopySelfCap,
    /// Retype an untyped into the process's TCB.
    RetypeTcb,
    /// Configure the TCB with the CSpace, VSpace and IPC buffer.
    ConfigureTcb,
    /// Retype an untyped into a scheduling context.
    RetypeSchedContext,
    /// Configure the scheduling context.
    ConfigureSched,
    /// Allocate a root-server slot for the fault endpoint.
    AllocFaultSlot,
    /// Mint the root server's endpoint into that slot with `badge`.
    MintFaultEp { badge: u64 },
    /// Set the TCB's priority, scheduling context and fault endpoint.
    SetSchedParams,
    /// Parse the ELF file (`parse_segments`).
    ParseElf,
    /// Load the loaded segments (`select_segments`, `load_segment`) into
    /// windows of the process: its initial windows.
    LoadElf,
    /// Map the IPC buffer.
    MapIpcBuffer,
    /// Allocate a frame for the page shared with the root server.
    AllocSharedFrame,
    /// Allocate a root-server slot for its mapping capability.
    AllocSharedSlot,
    /// Copy the shared frame's capability into that slot.
    CopySharedCap,
    /// Map the shared page.
    MapSharedBuffer,
    /// Set up the stack window and write the arguments to it.
    InitStack,
    /// Write the entry point and stack pointer into the TCB.
    WriteRegisters,
}

/// What undoes a step already taken.
#[derive(Clone, Copy, Debug, PartialEq, Eq, Structural)]
pub enum Undo {
    DeallocVSpace,
    FreeIpcFrame,
    FreeIpcSlot,
    DeleteIpcCap,
    /// Free the endpoint's slot in the process's CSpace.
    FreeEpSlot,
    /// Delete the endpoint in the process's CSpace.
    DeleteEp,
    /// Free the endpoint's slot number in the root server's CSpace (the slot
    /// was taken in the process's CSpace).
    FreeEpSlotInRoot,
    FreeSelfSlot,
    DeleteSelfCap,
    DeallocTcb,
    FreeFaultSlot,
    DeleteFaultCap,
    FreeSharedFrame,
    FreeSharedSlot,
    DeleteSharedCap,
}

/// Steps in starting a process.
pub const START_STEPS: usize = 26;

/// Step `i` of starting process `pid`.
pub open spec fn start_step_at(i: int, pid: usize) -> StartStep {
    if i == 0 { StartStep::RetypeVSpace }
    else if i == 1 { StartStep::AssignAsid }
    else if i == 2 { StartStep::CreateCSpace }
    else if i == 3 { StartStep::AllocIpcFrame }
    else if i == 4 { StartStep::AllocIpcSlot }
    else if i == 5 { StartStep::CopyIpcCap }
    else if i == 6 { StartStep::AllocEpSlot }
    else if i == 7 { StartStep::MintEp { badge: (pid as u64) | INVOCATION_EP_BITS } }
    else if i == 8 { StartStep::AllocSelfSlot }
    else if i == 9 { StartStep::CopySelfCap }
    else if i == 10 { StartStep::RetypeTcb }
    else if i == 11 { StartStep::ConfigureTcb }
    else if i == 12 { StartStep::RetypeSchedContext }
    else if i == 13 { StartStep::ConfigureSched }
    else if i == 14 { StartStep::AllocFaultSlot }
    else if i == 15 { StartStep::MintFaultEp { badge: (pid as u64) | FAULT_EP_BITS } }
    else if i == 16 { StartStep::SetSchedParams }
    else if i == 17 { StartStep::ParseElf }
    else if i == 18 { StartStep::LoadElf }
    else if i == 19 { StartStep::MapIpcBuffer }
    else if i == 20 { StartStep::AllocSharedFrame }
    else if i == 21 { StartStep::AllocSharedSlot }
    else if i == 22 { StartStep::CopySharedCap }
    else if i == 23 { StartStep::MapSharedBuffer }
    else if i == 24 { StartStep::InitStack }
    else { StartStep::WriteRegisters }
}

/// Undoing everything up to the VSpace.
pub open spec fn undo_vspace() -> Seq<Undo> {
    seq![Undo::DeallocVSpace]
}

/// Undoing everything up to the IPC buffer's capability.
pub open spec fn undo_ipc() -> Seq<Undo> {
    seq![Undo::DeleteIpcCap, Undo::FreeIpcSlot, Undo::FreeIpcFrame].add(undo_vspace())
}

/// Undoing everything up to the process's endpoint.
pub open spec fn undo_ep() -> Seq<Undo> {
    seq![Undo::DeleteEp, Undo::FreeEpSlotInRoot].add(undo_ipc())
}

/// Undoing everything up to the TCB.
pub open spec fn undo_tcb() -> Seq<Undo> {
    seq![Undo::DeallocTcb, Undo::DeleteSelfCap, Undo::FreeSelfSlot].add(undo_ep())
}

/// Undoing everything up to the fault endpoint.
pub open spec fn undo_fault() -> Seq<Undo> {
    seq![Undo::DeleteFaultCap, Undo::FreeFaultSlot].add(undo_tcb())
}

/// What undoes the steps taken before step `i` failed, in order. Creating
/// the CSpace and writing the registers undo nothing, and neither the
/// scheduling context nor the CSpace is ever undone.
pub open spec fn undo_for(i: int) -> Seq<Undo> {
    if i == 0 || i == 2 || i == 25 {
        Seq::empty()
    } else if i == 1 || i == 3 {
        undo_vspace()
    } else if i == 4 {
        seq![Undo::FreeIpcFrame].add(undo_vspace())
    } else if i == 5 {
        seq![Undo::FreeIpcSlot, Undo::FreeIpcFrame].add(undo_vspace())
    } else if i == 6 {
        undo_ipc()
    } else if i == 7 {
        seq![Undo::FreeEpSlot].add(undo_ipc())
    } else if i == 8 {
        undo_ep()
    } else if i == 9 {
        seq![Undo::FreeSelfSlot].add(undo_ep())
    } else if i == 10 {
        seq![Undo::DeleteSelfCap, Undo::FreeSelfSlot].add(undo_ep())
    } else if 11 <= i <= 14 {
        undo_tcb()
    } else if i == 15 {
        seq![Undo::FreeFaultSlot].add(undo_tcb())
    } else if i == 21 {
        seq![Undo::FreeSharedFrame].add(undo_fault())
    } else if i == 22 {
        seq![Undo::FreeSharedSlot, Undo::FreeSharedFrame].add(undo_fault())
    } else if i == 23 {
        seq![Undo::DeleteSharedCap, Undo::FreeSharedSlot, Undo::FreeSharedFrame].add(undo_fault())
    } else {
        undo_fault()
    }
}

/// Where starting a process stands: its identifier and the step under way.
#[derive(Clone, Copy, Debug, PartialEq, Eq, Structural)]
pub struct StartState {
    pub pid: usize,
    pub step: usize,
}

/// How the step under way went.
#[derive(Clone, Copy, Debug, PartialEq, Eq, Structural)]
pub enum StartEvent {
    StepDone,
    StepFailed { err: Sel4Error },
}

/// What to do next.
#[derive(Clone, Copy, Debug, PartialEq, Eq, Structural)]
pub enum StartAction {
    /// Take step `step`.
    Take { step: StartStep },
    /// Step `failed` (by its number) failed with `err`: undo what
    /// `undo_steps(failed)` lists, in order, and fail with `err`.
    Abandon { failed: usize, err: Sel4Error },
    /// Every step is done: the process `pid` is recorded as running.
    Finish { pid: usize },
}

/// What follows event `ev` in state `s`.
pub open spec fn start_step_spec(s: StartState, ev: StartEvent) -> (StartState, StartAction) {
    match ev {
        StartEvent::StepDone => if s.step + 1 < START_STEPS {
            (
                StartState { pid: s.pid, step: (s.step + 1) as usize },
                StartAction::Take { step: start_step_at(s.step + 1, s.pid) },
            )
        } else {
            (s, StartAction::Finish { pid: s.pid })
        },
        StartEvent::StepFailed { err } => (s, StartAction::Abandon { failed: s.step, err: err }),
    }
}

/// Step `i` of starting process `pid`.
fn step_at(i: usize, pid: usize) -> (r: StartStep)
    ensures
        r == start_step_at(i as int, pid),
{
    match i {
        0 => StartStep::RetypeVSpace,
        1 => StartStep::AssignAsid,
        2 => StartStep::CreateCSpace,
        3 => StartStep::AllocIpcFrame,
        4 => StartStep::AllocIpcSlot,
        5 => StartStep::CopyIpcCap,
        6 => StartStep::AllocEpSlot,
        7 => StartStep::MintEp { badge: pid as u64 | INVOCATION_EP_BITS },
        8 => StartStep::AllocSelfSlot,
        9 => StartStep::CopySelfCap,
        10 => StartStep::RetypeTcb,
        11 => StartStep::ConfigureTcb,
        12 => StartStep::RetypeSchedContext,
        13 => StartStep::ConfigureSched,
        14 => StartStep::AllocFaultSlot,
        15 => StartStep::MintFaultEp { badge: pid as u64 | FAULT_EP_BITS },
        16 => StartStep::SetSchedParams,
        17 => StartStep::ParseElf,
        18 => StartStep::LoadElf,
        19 => StartStep::MapIpcBuffer,
        20 => StartStep::AllocSharedFrame,
        21 => StartStep::AllocSharedSlot,
        22 => StartStep::CopySharedCap,
        23 => StartStep::MapSharedBuffer,
        24 => StartStep::InitStack,
        _ => StartStep::WriteRegisters,
    }
}

/// Begins starting process `pid`: its first step.
pub fn start_begin(pid: usize) -> (r: (StartState, StartAction))
    ensures
        r == (StartState { pid: pid, step: 0 }, StartAction::Take { step: start_step_at(0, pid) }),
{
    (StartState { pid: pid, step: 0 }, StartAction::Take { step: step_at(0, pid) })
}

/// The next state and action after event `ev` in state `s`.
pub fn start_step(s: StartState, ev: StartEvent) -> (r: (StartState, StartAction))
    requires
        s.step < START_STEPS,
    ensures
        r == start_step_spec(s, ev),
{
    match ev {
        StartEvent::StepDone => {
            if s.step + 1 < START_STEPS {
                let n = s.step + 1;
                (StartState { pid: s.pid, step: n }, StartAction::Take { step: step_at(n, s.pid) })
            } else {
                (s, StartAction::Finish { pid: s.pid })
            }
        },
        StartEvent::StepFailed { err } => (s, StartAction::Abandon { failed: s.step, err: err }),
    }
}

fn push_vspace(v: &mut Vec<Undo>)
    ensures
        final(v)@ == old(v)@.add(undo_vspace()),
{
    v.push(Undo::DeallocVSpace);
    assert(v@ =~= old(v)@.add(undo_vspace()));
}

fn push_ipc(v: &mut Vec<Undo>)
    ensures
        final(v)@ == old(v)@.add(undo_ipc()),
{
    v.push(Undo::DeleteIpcCap);
    v.push(Undo::FreeIpcSlot);
    v.push(Undo::FreeIpcFrame);
    push_vspace(v);
    assert(v@ =~= old(v)@.add(undo_ipc()));
}

fn push_ep(v: &mut Vec<Undo>)
    ensures
        final(v)@ == old(v)@.add(undo_ep()),
{
    v.push(Undo::DeleteEp);
    v.push(Undo::FreeEpSlotInRoot);
    push_ipc(v);
    assert(v@ =~= old(v)@.add(undo_ep()));
}

fn push_tcb(v: &mut Vec<Undo>)
    ensures
        final(v)@ == old(v)@.add(undo_tcb()),
{
    v.push(Undo::DeallocTcb);
    v.push(Undo::DeleteSelfCap);
    v.push(Undo::FreeSelfSlot);
    push_ep(v);
    assert(v@ =~= old(v)@.add(undo_tcb()));
}

fn push_fault(v: &mut Vec<Undo>)
    ensures
        final(v)@ == old(v)@.add(undo_fault()),
{
    v.push(Undo::DeleteFaultCap);
    v.push(Undo::FreeFaultSlot);
    push_tcb(v);
    assert(v@ =~= old(v)@.add(undo_fault()));
}

/// What undoes the steps taken before step `failed` failed, in order (see
/// `undo_for`).
pub fn undo_steps(failed: usize) -> (r: Vec<Undo>)
    ensures
        r@ == undo_for(failed as int),
{
    let mut v: Vec<Undo> = Vec::new();
    let ghost e = v@;
    if failed == 0 || failed == 2 || failed == 25 {
    } else if failed == 1 || failed == 3 {
        push_vspace(&mut v);
    } else if failed == 4 {
        v.push(Undo::FreeIpcFrame);
        push_vspace(&mut v);
    } else if failed == 5 {
        v.push(Undo::FreeIpcSlot);
        v.push(Undo::FreeIpcFrame);
        push_vspace(&mut v);
    } else if failed == 6 {
        push_ipc(&mut v);
    } else if failed == 7 {
        v.push(Undo::FreeEpSlot);
        push_ipc(&mut v);
    } else if failed == 8 {
        push_ep(&mut v);
    } else if failed == 9 {
        v.push(Undo::FreeSelfSlot);
        push_ep(&mut v);
    } else if failed == 10 {
        v.push(Undo::DeleteSelfCap);
        v.push(Undo::FreeSelfSlot);
        push_ep(&mut v);
    } else if 11 <= failed && failed <= 14 {
        push_tcb(&mut v);
    } else if failed == 15 {
        v.push(Undo::FreeFaultSlot);
        push_tcb(&mut v);
    } else if failed == 21 {
        v.push(Undo::FreeSharedFrame);
        push_fault(&mut v);
    } else if failed == 22 {
        v.push(Undo::FreeSharedSlot);
        v.push(Undo::FreeSharedFrame);
        push_fault(&mut v);
    } else if failed == 23 {
        v.push(Undo::DeleteSharedCap);
        v.push(Undo::FreeSharedSlot);
        v.push(Undo::FreeSharedFrame);
        push_fault(&mut v);
    } else {
        push_fault(&mut v);
    }
    assert(v@ =~= undo_for(failed as int));
    v
}

/// Step `a` is taken before step `b` when starting a process: both are
/// among the steps, and wherever each stands, `a` stands earlier.
pub open spec fn taken_before(a: StartStep, b: StartStep, pid: usize) -> bool {
    &&& exists|i: int| 0 <= i < START_STEPS && start_step_at(i, pid) == a
    &&& exists|j: int| 0 <= j < START_STEPS && start_step_at(j, pid) == b
    &&& forall|i: int, j: int|
        0 <= i < START_STEPS && 0 <= j < START_STEPS && #[trigger] start_step_at(i, pid) == a && #[trigger] start_step_at(
            j,
            pid,
        ) == b ==> i < j
}

/// Law: the steps of starting a process come in the order their work
/// depends on: the VSpace exists before it is assigned an ASID, a slot is
/// allocated before a capability is copied into it, the TCB is retyped
/// before it is configured, the ELF file is parsed before it is loaded and
/// loaded before the IPC buffer and the stack are mapped and written, and
/// the registers are written last.
pub proof fn law_start_steps_in_dependency_order(pid: usize)
    ensures
        taken_before(StartStep::RetypeVSpace, StartStep::AssignAsid, pid),
        taken_before(StartStep::AllocIpcFrame, StartStep::AllocIpcSlot, pid),
        taken_before(StartStep::AllocIpcSlot, StartStep::CopyIpcCap, pid),
        taken_before(StartStep::AllocSelfSlot, StartStep::CopySelfCap, pid),
        taken_before(StartStep::RetypeTcb, StartStep::ConfigureTcb, pid),
        taken_before(StartStep::RetypeSchedContext, StartStep::ConfigureSched, pid),
        taken_before(StartStep::ConfigureSched, StartStep::SetSchedParams, pid),
        taken_before(StartStep::ParseElf, StartStep::LoadElf, pid),
        taken_before(StartStep::LoadElf, StartStep::MapIpcBuffer, pid),
        taken_before(StartStep::AllocSharedFrame, StartStep::AllocSharedSlot, pid),
        taken_before(StartStep::AllocSharedSlot, StartStep::CopySharedCap, pid),
        taken_before(StartStep::CopySharedCap, StartStep::MapSharedBuffer, pid),
        taken_before(StartStep::MapIpcBuffer, StartStep::InitStack, pid),
        taken_before(StartStep::InitStack, StartStep::WriteRegisters, pid),
        forall|i: int| 0 <= i < START_STEPS - 1 ==> start_step_at(i, pid) != StartStep::WriteRegisters,
        start_step_at(START_STEPS - 1, pid) == StartStep::WriteRegisters,
{
    assert(start_step_at(0, pid) == StartStep::RetypeVSpace);
    assert(start_step_at(1, pid) == StartStep::AssignAsid);
    assert(start_step_at(3, pid) == StartStep::AllocIpcFrame);
    assert(start_step_at(4, pid) == StartStep::AllocIpcSlot);
    assert(start_step_at(5, pid) == StartStep::CopyIpcCap);
    assert(start_step_at(8, pid) == StartStep::AllocSelfSlot);
    assert(start_step_at(9, pid) == StartStep::CopySelfCap);
    assert(start_step_at(10, pid) == StartStep::RetypeTcb);
    assert(start_step_at(11, pid) == StartStep::ConfigureTcb);
    assert(start_step_at(12, pid) == StartStep::RetypeSchedContext);
    assert(start_step_at(13, pid) == StartStep::ConfigureSched);
    assert(start_step_at(16, pid) == StartStep::SetSchedParams);
    assert(start_step_at(17, pid) == StartStep::ParseElf);
    assert(start_step_at(18, pid) == StartStep::LoadElf);
    assert(start_step_at(19, pid) == StartStep::MapIpcBuffer);
    assert(start_step_at(20, pid) == StartStep::AllocSharedFrame);
    assert(start_step_at(21, pid) == StartStep::AllocSharedSlot);
    assert(start_step_at(22, pid) == StartStep::CopySharedCap);
    assert(start_step_at(23, pid) == StartStep::MapSharedBuffer);
    assert(start_step_at(24, pid) == StartStep::InitStack);
    assert(start_step_at(25, pid) == StartStep::WriteRegisters);
}

/// The step whose work `u` undoes.
pub open spec fn undone_step(u: Undo) -> int {
    match u {
        Undo::DeallocVSpace => 0,
        Undo::FreeIpcFrame => 3,
        Undo::FreeIpcSlot => 4,
        Undo::DeleteIpcCap => 5,
        Undo::FreeEpSlot => 6,
        Undo::FreeEpSlotInRoot => 6,
        Undo::DeleteEp => 7,
        Undo::FreeSelfSlot => 8,
        Undo::DeleteSelfCap => 9,
        Undo::DeallocTcb => 10,
        Undo::FreeFaultSlot => 14,
        Undo::DeleteFaultCap => 15,
        Undo::FreeSharedFrame => 20,
        Undo::FreeSharedSlot => 21,
        Undo::DeleteSharedCap => 22,
    }
}

/// Step `k` of starting a process makes something that a failure later
/// has to undo: a VSpace, frame, slot, capability or TCB.
pub open spec fn makes_undoable(k: int) -> bool {
    k == 0 || (3 <= k <= 10) || k == 14 || k == 15 || (20 <= k <= 22)
}

/// Law: when step `failed` of starting a process fails, everything undone
/// was made by a step taken before it, the latest first, none twice; and,
/// but for a failure at creating the CSpace, at setting up the stack or at
/// writing the registers, everything such a step made is undone.
pub proof fn law_start_undo_matches_steps_taken(failed: int)
    requires
        0 <= failed < START_STEPS,
    ensures
        forall|x: int| 0 <= x < undo_for(failed).len() ==> makes_undoable(#[trigger] undone_step(undo_for(failed)[x]))
            && undone_step(undo_for(failed)[x]) < failed,
        forall|x: int, y: int|
            0 <= x < y < undo_for(failed).len() ==> #[trigger] undone_step(undo_for(failed)[x]) > #[trigger] undone_step(
                undo_for(failed)[y],
            ),
        failed != 2 && failed != 24 && failed != 25 ==> forall|k: int|
            0 <= k < failed && #[trigger] makes_undoable(k) ==> exists|x: int|
                0 <= x < undo_for(failed).len() && #[trigger] undone_step(undo_for(failed)[x]) == k,
{
    let u = undo_for(failed);
    let vs = Undo::DeallocVSpace;
    let ipf = Undo::FreeIpcFrame;
    let ips = Undo::FreeIpcSlot;
    let ipc = Undo::DeleteIpcCap;
    let eps = Undo::FreeEpSlot;
    let epr = Undo::FreeEpSlotInRoot;
    let ep = Undo::DeleteEp;
    let ss = Undo::FreeSelfSlot;
    let sc = Undo::DeleteSelfCap;
    let tcb = Undo::DeallocTcb;
    let fs = Undo::FreeFaultSlot;
    let fc = Undo::DeleteFaultCap;
    let shf = Undo::FreeSharedFrame;
    let shs = Undo::FreeSharedSlot;
    let shc = Undo::DeleteSharedCap;
    let l_ipc = seq![ipc, ips, ipf, vs];
    let l_ep = seq![ep, epr, ipc, ips, ipf, vs];
    let l_tcb = seq![tcb, sc, ss, ep, epr, ipc, ips, ipf, vs];
    let l_fault = seq![fc, fs, tcb, sc, ss, ep, epr, ipc, ips, ipf, vs];
    assert(undo_ipc() =~= l_ipc);
    assert(undo_ep() =~= l_ep);
    assert(undo_tcb() =~= l_tcb);
    assert(undo_fault() =~= l_fault);
    let l: Seq<Undo> = if failed == 0 || failed == 2 || failed == 25 {
        Seq::empty()
    } else if failed == 1 || failed == 3 {
        seq![vs]
    } else if failed == 4 {
        seq![ipf, vs]
    } else if failed == 5 {
        seq![ips, ipf, vs]
    } else if failed == 6 {
        l_ipc
    } else if failed == 7 {
        seq![eps, ipc, ips, ipf, vs]
    } else if failed == 8 {
        l_ep
    } else if failed == 9 {
        seq![ss, ep, epr, ipc, ips, ipf, vs]
    } else if failed == 10 {
        seq![sc, ss, ep, epr, ipc, ips, ipf, vs]
    } else if 11 <= failed <= 14 {
        l_tcb
    } else if failed == 15 {
        seq![fs, tcb, sc, ss, ep, epr, ipc, ips, ipf, vs]
    } else if failed == 21 {
        seq![shf, fc, fs, tcb, sc, ss, ep, epr, ipc, ips, ipf, vs]
    } else if failed == 22 {
        seq![shs, shf, fc, fs, tcb, sc, ss, ep, epr, ipc, ips, ipf, vs]
    } else if failed == 23 {
        seq![shc, shs, shf, fc, fs, tcb, sc, ss, ep, epr, ipc, ips, ipf, vs]
    } else {
        l_fault
    };
    assert(u =~= l);
    // The steps undone, in list order.
    let steps = l.map_values(|x: Undo| undone_step(x));
    assert forall|x: int| 0 <= x < l.len() implies #[trigger] steps[x] == undone_step(l[x]) by {}
    assert forall|x: int| 0 <= x < u.len() implies makes_undoable(#[trigger] undone_step(u[x])) && undone_step(u[x])
        < failed by {
        assert(steps[x] == undone_step(l[x]));
    }
    assert forall|x: int, y: int| 0 <= x < y < u.len() implies #[trigger] undone_step(u[x]) > #[trigger] undone_step(
        u[y],
    ) by {
        assert(steps[x] == undone_step(l[x]));
        assert(steps[y] == undone_step(l[y]));
    }
    if failed != 2 && failed != 24 && failed != 25 {
        assert forall|k: int| 0 <= k < failed && #[trigger] makes_undoable(k) implies exists|x: int|
            0 <= x < u.len() && #[trigger] undone_step(u[x]) == k by {
            let x = u.len() - 1 - (if k == 0 { 0 } else if k <= 10 { k - 2 } else if k <= 15 { k - 5 } else { k - 9 });
            assert(undone_step(u[x]) == k);
        }
    }
}

} // verus!
