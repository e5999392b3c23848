//! The life of a process after it starts: waiting for it and its exit. A
//! process that exits while another waits for it hands its waiter the reply
//! and leaves the table; one that exits with nobody waiting stays as a
//! zombie until someone waits for it.

use vstd::prelude::*;
use crate::error::Sel4Error;
use crate::proc::ProcessTable;

verus! {

/// The state of a process as the process table holds it.
#[derive(Clone, Copy, Debug, PartialEq, Eq, Structural)]
pub enum ProcessStatus {
    /// Running; `waiter` is the reply object of a process waiting for it.
    Active { waiter: Option<u64> },
    /// Exited with nobody waiting for it.
    Zombie,
}

/// What a wait on slot `pid` with reply object `reply` answers (whether
/// the waiter is answered at once) and leaves. A running process records
/// the waiter, replacing any earlier one; a zombie is reaped; an empty slot
/// is answered at once.
pub open spec fn wait_step(slots: Seq<Option<ProcessStatus>>, pid: int, reply: u64) -> (bool, Seq<Option<ProcessStatus>>) {
    match slots[pid] {
        Some(ProcessStatus::Active { .. }) => (false, slots.update(pid, Some(ProcessStatus::Active { waiter: Some(reply) }))),
        Some(ProcessStatus::Zombie) => (true, slots.update(pid, None)),
        None => (true, slots),
    }
}

/// What the exit of running process `pid` returns (the waiter to answer)
/// and leaves: with a waiter the slot is freed, without one the process
/// becomes a zombie.
pub open spec fn exit_step(slots: Seq<Option<ProcessStatus>>, pid: int) -> (Option<u64>, Seq<Option<ProcessStatus>>) {
    match slots[pid] {
        Some(ProcessStatus::Active { waiter: Some(w) }) => (Some(w), slots.update(pid, None)),
        _ => (None, slots.update(pid, Some(ProcessStatus::Zombie))),
    }
}

impl ProcessTable<ProcessStatus> {
    /// The slot, and so the identifier, a process about to start takes: the
    /// lowest free one. With every slot taken the start fails with
    /// `NotEnoughMemory` before any step is taken.
    pub fn process_start_slot(&self) -> (r: Result<usize, Sel4Error>)
        ensures
            r is Err <==> forall|j: int| 0 <= j < self.slots().len() ==> #[trigger] self.slots()[j] is Some,
            r is Err ==> r == Err::<usize, Sel4Error>(Sel4Error::NotEnoughMemory),
            r matches Ok(pid) ==> pid < self.slots().len() && self.slots()[pid as int] is None && forall|j: int|
                0 <= j < pid ==> #[trigger] self.slots()[j] is Some,
    {
        match self.find_free_proc() {
            Some(pid) => Ok(pid),
            None => Err(Sel4Error::NotEnoughMemory),
        }
    }

    /// Records process `pid`, every step of whose start is done, as running
    /// with nobody waiting for it.
    pub fn process_started(&mut self, pid: usize)
        requires
            pid < old(self).slots().len(),
            old(self).slots()[pid as int] is None,
        ensures
            final(self).slots() == old(self).slots().update(pid as int, Some(ProcessStatus::Active { waiter: None })),
    {
        self.procs_set(pid, Some(ProcessStatus::Active { waiter: None }));
    }

    /// A process waits, with reply object `reply`, for process `pid`.
    /// Returns whether the waiter is answered now; otherwise it is answered
    /// when `pid` exits.
    pub fn process_wait(&mut self, pid: usize, reply: u64) -> (answer_now: bool)
        requires
            pid < old(self).slots().len(),
        ensures
            (answer_now, final(self).slots()) == wait_step(old(self).slots(), pid as int, reply),
    {
        match self.procs_get(pid) {
            Some(ProcessStatus::Active { .. }) => {
                self.procs_set(pid, Some(ProcessStatus::Active { waiter: Some(reply) }));
                false
            },
            Some(ProcessStatus::Zombie) => {
                self.procs_set(pid, None);
                true
            },
            None => true,
        }
    }

    /// Running process `pid` exits. Returns the reply object of its waiter,
    /// who is to be answered; with none the process stays as a zombie.
    pub fn process_exit(&mut self, pid: usize) -> (waiter: Option<u64>)
        requires
            pid < old(self).slots().len(),
            old(self).slots()[pid as int] matches Some(ProcessStatus::Active { .. }),
        ensures
            (waiter, final(self).slots()) == exit_step(old(self).slots(), pid as int),
    {
        let w = match self.procs_get(pid) {
            Some(ProcessStatus::Active { waiter }) => *waiter,
            _ => None,
        };
        match w {
            Some(r) => {
                self.procs_set(pid, None);
                Some(r)
            },
            None => {
                self.procs_set(pid, Some(ProcessStatus::Zombie));
                None
            },
        }
    }
}

/// A process that is waited for and then exits answers its waiter and
/// leaves the table.
pub proof fn law_wait_then_exit(slots: Seq<Option<ProcessStatus>>, pid: int, reply: u64)
    requires
        0 <= pid < slots.len(),
        slots[pid] matches Some(ProcessStatus::Active { .. }),
    ensures
        !wait_step(slots, pid, reply).0,
        exit_step(wait_step(slots, pid, reply).1, pid) == (Some(reply), slots.update(pid, None)),
{
    assert(slots.update(pid, Some(ProcessStatus::Active { waiter: Some(reply) })).update(pid, None) =~= slots.update(
        pid,
        None,
    ));
}

/// A process that exits with nobody waiting and is then waited for answers
/// the waiter at once and leaves the table.
pub proof fn law_exit_then_wait(slots: Seq<Option<ProcessStatus>>, pid: int, reply: u64)
    requires
        0 <= pid < slots.len(),
        slots[pid] == Some(ProcessStatus::Active { waiter: None }),
    ensures
        exit_step(slots, pid).0 is None,
        wait_step(exit_step(slots, pid).1, pid, reply) == (true, slots.update(pid, None)),
{
    assert(slots.update(pid, Some(ProcessStatus::Zombie)).update(pid, None) =~= slots.update(pid, None));
}

/// Once a process has started in the lowest free slot, that slot is taken
/// and the next process to start gets a higher one: two processes never
/// share an identifier.
pub proof fn law_start_takes_lowest_free(slots: Seq<Option<ProcessStatus>>, pid: int)
    requires
        0 <= pid < slots.len(),
        slots[pid] is None,
        forall|j: int| 0 <= j < pid ==> #[trigger] slots[j] is Some,
    ensures
        forall|j: int| 0 <= j <= pid ==> #[trigger] slots.update(pid, Some(ProcessStatus::Active { waiter: None }))[j] is Some,
{
}

} // verus!
