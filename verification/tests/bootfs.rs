use smos::bfs::{
    conn_open_plan, conn_open_undo, ConnOpenStep, ConnOpenUndo,
    fault_object_offset, shared_buffer_check, ClientRecord, ClientTable, FileTable, SharedBuffer, MAX_CLIENTS,
    SHARED_BUFFER_BASE,
};
use smos::error::InvocationError;

#[test]
fn files_open_by_name_the_last_match_winning() {
    let mut files = FileTable::new();
    assert_eq!(files.obj_open(b"init"), Err(InvocationError::InvalidArguments));
    files.set_file(0, b"init".to_vec(), 100);
    files.set_file(1, b"timer".to_vec(), 200);
    files.set_file(4, b"init".to_vec(), 300);
    assert_eq!(files.obj_open(b"timer"), Ok(1));
    assert_eq!(files.obj_open(b"init"), Ok(4));
    assert_eq!(files.obj_stat(4), 300);
    assert_eq!(files.obj_stat(1), 200);
    assert_eq!(files.obj_open(b"tim"), Err(InvocationError::InvalidArguments));
}

#[test]
fn clients_take_the_first_free_slot_and_are_found_by_id() {
    let mut t = ClientTable::new();
    assert_eq!(t.find_client_slot(), Some(0));
    assert_eq!(t.find_client_from_id(9), None);
    t.add_client(0, 9, None);
    assert_eq!(t.find_client_slot(), Some(1));
    assert_eq!(t.find_client_from_id(9), Some(0));
    let vaddr = t.reserve_window(1).unwrap();
    assert_eq!(vaddr, SHARED_BUFFER_BASE);
    assert!(vaddr < SHARED_BUFFER_BASE + MAX_CLIENTS * 4096);
    t.add_client(1, 12, Some(4096));
    assert_eq!(t.find_client_from_id(12), Some(1));
    t.delete_client(0);
    assert_eq!(t.find_client_from_id(9), None);
    assert_eq!(t.find_client_slot(), Some(0));
    t.delete_client(1);
    assert_eq!(t.find_client_from_id(12), None);
}

#[test]
fn windows_of_the_shared_buffer_row_are_distinct_and_reused() {
    let mut t = ClientTable::new();
    let a = t.reserve_window(0).unwrap();
    assert_eq!(a, SHARED_BUFFER_BASE);
    if let Ok(b) = t.reserve_window(1) {
        assert_ne!(a, b);
        t.release_window(1);
    }
    t.release_window(0);
    // With no window held, the row is whole again: the first page is taken.
    assert_eq!(t.reserve_window(2), Ok(SHARED_BUFFER_BASE));
    let _ = ClientRecord { id: 1, shared_buffer: Some(SharedBuffer { vaddr: a, size: 4096 }) };
}

#[test]
fn shared_buffers_must_be_one_page() {
    assert_eq!(shared_buffer_check(4096), Ok(()));
    assert_eq!(shared_buffer_check(8192), Err(InvocationError::AlignmentError { which_arg: 0 }));
}

#[test]
fn fault_offsets_map_into_the_object() {
    assert_eq!(fault_object_offset(0x3000, 0x1000, 0x4000, 0x10000), 0x12000);
}

#[test]
fn opening_a_connection_and_undoing_its_steps() {
    assert_eq!(conn_open_plan(false), vec![ConnOpenStep::Register]);
    assert_eq!(conn_open_plan(true).len(), 5);
    assert_eq!(conn_open_plan(true)[3], ConnOpenStep::CreateWindow);
    assert_eq!(conn_open_undo(0), vec![]);
    assert_eq!(conn_open_undo(1), vec![ConnOpenUndo::Deregister]);
    assert_eq!(conn_open_undo(3), vec![ConnOpenUndo::ReleaseWindow, ConnOpenUndo::Deregister]);
    assert_eq!(
        conn_open_undo(4),
        vec![ConnOpenUndo::DestroyWindow, ConnOpenUndo::ReleaseWindow, ConnOpenUndo::Deregister]
    );
}

#[test]
fn opening_with_every_client_slot_taken_runs_out_of_resources() {
    let mut t = ClientTable::new();
    assert_eq!(t.conn_open_slot(), Ok(0));
    for slot in 0..MAX_CLIENTS {
        assert_eq!(t.conn_open_slot(), Ok(slot));
        t.add_client(slot, 100 + slot, None);
    }
    assert_eq!(t.conn_open_slot(), Err(InvocationError::InsufficientResources));
    t.delete_client(3);
    assert_eq!(t.conn_open_slot(), Ok(3));
}
