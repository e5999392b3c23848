use smos::error::{InvocationError, Sel4Error};
use smos::lifecycle::ProcessStatus;
use smos::object::{obj_create_check, view_check, VIEW_ARG_OBJ_OFFSET, VIEW_ARG_WIN_OFFSET};
use smos::proc::{ProcessTable, UserProcess, WindowSpan, MAX_PROCS};
use smos::server::{connection_badge, publish_steps, publish_undo, PublishStep, PublishUndo, ServerRegistry};

#[test]
fn waiting_then_exiting_answers_the_waiter() {
    let mut t: ProcessTable<ProcessStatus> = ProcessTable::new();
    t.procs_set(3, Some(ProcessStatus::Active { waiter: None }));
    assert!(!t.process_wait(3, 77));
    assert_eq!(*t.procs_get(3), Some(ProcessStatus::Active { waiter: Some(77) }));
    assert_eq!(t.process_exit(3), Some(77));
    assert_eq!(*t.procs_get(3), None);
}

#[test]
fn exiting_then_waiting_reaps_the_zombie() {
    let mut t: ProcessTable<ProcessStatus> = ProcessTable::new();
    t.procs_set(5, Some(ProcessStatus::Active { waiter: None }));
    assert_eq!(t.process_exit(5), None);
    assert_eq!(*t.procs_get(5), Some(ProcessStatus::Zombie));
    assert!(t.process_wait(5, 9));
    assert_eq!(*t.procs_get(5), None);
    assert!(t.process_wait(5, 9));
}

#[test]
fn a_second_waiter_replaces_the_first() {
    let mut t: ProcessTable<ProcessStatus> = ProcessTable::new();
    t.procs_set(0, Some(ProcessStatus::Active { waiter: None }));
    assert!(!t.process_wait(0, 1));
    assert!(!t.process_wait(0, 2));
    assert_eq!(t.process_exit(0), Some(2));
}

#[test]
fn object_creation_checks() {
    assert_eq!(obj_create_check(false, 8192), Ok(()));
    assert_eq!(obj_create_check(true, 8192), Err(InvocationError::InvalidArguments));
    assert_eq!(obj_create_check(false, 0), Err(InvocationError::InvalidArguments));
    assert_eq!(obj_create_check(false, 4097), Err(InvocationError::InvalidArguments));
    assert_eq!(obj_create_check(false, 0x1_0000_0000_0000), Err(InvocationError::InvalidArguments));
    assert_eq!(obj_create_check(false, 0xFFFF_FFFF_F000), Ok(()));
}

#[test]
fn view_checks_in_order() {
    assert_eq!(view_check(0x4000, false, 0x4000, 0, 0, 0x2000), Ok(()));
    assert_eq!(view_check(0x4000, false, 0x4000, 0, 0, 0), Err(InvocationError::InvalidArguments));
    assert_eq!(
        view_check(0x4000, false, 0x4000, 0x1001, 0x1000, 0x1000),
        Err(InvocationError::AlignmentError { which_arg: VIEW_ARG_WIN_OFFSET })
    );
    assert_eq!(
        view_check(0x4000, false, 0x4000, 0, 0x10, 0x1000),
        Err(InvocationError::AlignmentError { which_arg: VIEW_ARG_OBJ_OFFSET })
    );
    assert_eq!(view_check(0x4000, false, 0x4000, 0x1000, 0x1000, 0x1000), Ok(()));
    assert_eq!(view_check(0x4000, false, 0x2000, 0, 0, 0x3000), Err(InvocationError::InvalidArguments));
    assert_eq!(view_check(0x2000, false, 0x4000, 0, 0, 0x3000), Err(InvocationError::InvalidArguments));
    assert_eq!(view_check(0x4000, true, 0x4000, 0, 0, 0x1000), Err(InvocationError::InvalidArguments));
}

#[test]
fn window_creation_checks() {
    let mut p = UserProcess::new(1, vec![]);
    assert_eq!(p.window_create_check(0x1001, 0x1000), Err(InvocationError::AlignmentError { which_arg: 0 }));
    assert_eq!(p.window_create_check(0x10000, 0x2000), Ok(()));
    p.add_window_unchecked(WindowSpan { id: 4, start: 0x10000, size: 0x2000 });
    assert_eq!(p.window_create_check(0x11000, 0x1000), Err(InvocationError::InvalidArguments));
    assert_eq!(p.window_create_check(0x12000, 0x1000), Ok(()));
    // A range that holds a whole window overlaps it.
    assert_eq!(p.window_create_check(0xF000, 0x4000), Err(InvocationError::InvalidArguments));
    assert_eq!(p.overlapping_window(0x1000, 0x10000), Some(WindowSpan { id: 4, start: 0x10000, size: 0x2000 }));
    assert_eq!(p.overlapping_window(0x1000, 0xF000), None);
}

#[test]
fn servers_publish_connect_and_register() {
    let mut reg = ServerRegistry::new();
    let p = UserProcess::new(2, vec![]);
    assert_eq!(reg.publish_check(&p, b"echo", 0x5000, 0x8000_0000), Ok(()));
    assert_eq!(reg.publish_check(&p, b"echo", 0x5001, 0x8000_0000), Err(InvocationError::AlignmentError { which_arg: 0 }));
    assert_eq!(reg.publish_check(&p, b"echo", 0x9000_0000, 0x8000_0000), Err(InvocationError::InvalidArguments));
    let s = reg.publish(b"echo".to_vec(), 2, 40);
    assert_eq!(reg.server_endpoint(s), 40);
    assert_eq!(connection_badge(8), 8);
    assert_eq!(reg.find_server(b"echo"), Some(s));
    assert_eq!(reg.find_server(b"ech"), None);
    assert_eq!(reg.publish_check(&p, b"echo", 0x5000, 0x8000_0000), Err(InvocationError::InvalidArguments));

    assert_eq!(reg.conn_create_check(b"echo", 2), Err(InvocationError::InvalidArguments));
    assert_eq!(reg.conn_create_check(b"nobody", 3), Err(InvocationError::InvalidArguments));
    assert_eq!(reg.conn_create_check(b"echo", 3), Ok(s));
    let c = reg.add_connection(s, 3, 41);
    assert_eq!(reg.conn_badged_ep(s, c), 41);
    assert!(!reg.conn_destroy_notifies(s, c));
    assert_eq!(reg.conn_register(s, 4), Err(InvocationError::InvalidArguments));
    assert_eq!(reg.conn_register(s, 3), Ok(c));
    assert!(reg.conn_destroy_notifies(s, c));
    reg.conn_deregister(s, c);
    assert!(!reg.conn_destroy_notifies(s, c));
}

#[test]
fn publishing_over_a_window_is_refused() {
    let reg = ServerRegistry::new();
    let mut p = UserProcess::new(2, vec![]);
    p.add_window_unchecked(WindowSpan { id: 1, start: 0x4000, size: 0x3000 });
    assert_eq!(reg.publish_check(&p, b"fs", 0x5000, 0x8000_0000), Err(InvocationError::InvalidArguments));
}

#[test]
fn starting_takes_the_lowest_free_slot_until_the_table_is_full() {
    let mut t: ProcessTable<ProcessStatus> = ProcessTable::new();
    assert_eq!(t.process_start_slot(), Ok(0));
    t.process_started(0);
    assert_eq!(t.procs_get(0), &Some(ProcessStatus::Active { waiter: None }));
    assert_eq!(t.process_start_slot(), Ok(1));
    for pid in 1..MAX_PROCS {
        assert_eq!(t.process_start_slot(), Ok(pid));
        t.process_started(pid);
    }
    assert_eq!(t.process_start_slot(), Err(Sel4Error::NotEnoughMemory));
    t.procs_set(7, None);
    assert_eq!(t.process_start_slot(), Ok(7));
}

#[test]
fn failed_publishing_steps_are_undone_latest_first() {
    assert_eq!(
        publish_steps(),
        vec![PublishStep::RetypeEp, PublishStep::RetypeNtfn, PublishStep::BindNtfn, PublishStep::RegisterNtfn, PublishStep::AllocFrame]
    );
    assert!(publish_undo(PublishStep::RetypeEp).is_empty());
    assert_eq!(publish_undo(PublishStep::RetypeNtfn), vec![PublishUndo::DeallocEp]);
    assert_eq!(publish_undo(PublishStep::BindNtfn), vec![PublishUndo::DeallocNtfn, PublishUndo::DeallocEp]);
    assert_eq!(
        publish_undo(PublishStep::RegisterNtfn),
        vec![PublishUndo::UnbindNtfn, PublishUndo::DeallocNtfn, PublishUndo::DeallocEp]
    );
    assert_eq!(
        publish_undo(PublishStep::AllocFrame),
        vec![PublishUndo::DestroyDispatch, PublishUndo::UnbindNtfn, PublishUndo::DeallocEp, PublishUndo::DeallocNtfn]
    );
}
