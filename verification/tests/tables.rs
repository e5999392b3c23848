use smos::cspace::{CSpace, BOT_LVL_INDEX, CNODE_INDEX, CNODE_SLOTS, CNODE_SLOT_BITS, NODE_INDEX, NUM_BOT_LVL_NODES, TOP_LVL_INDEX};
use smos::error::{InvocationError, Sel4Error};
use smos::frame_table::{FrameTable, FRAME_DATA};
use smos::handle_capability::{HandleCapabilityTable, MAX_HANDLE_CAPS};
use smos::ut::{ut_alloc_undo, UTRegion, UTTable, UtAllocAction, UtAllocStep, UtUndo, UT_ENTRIES_PER_PAGE};

#[test]
fn cnode_index_helpers() {
    assert_eq!(CNODE_SLOT_BITS(13), 8);
    assert_eq!(CNODE_SLOTS(13), 256);
    assert_eq!(CNODE_SLOTS(18), 8192);
    assert_eq!(TOP_LVL_INDEX(0x1234), 0x12);
    assert_eq!(BOT_LVL_INDEX(0x1234), 0x34);
    assert_eq!(NODE_INDEX(256 * 97 + 5), 1);
    assert_eq!(CNODE_INDEX(256 * 97 + 5), 0);
    assert_eq!(CNODE_INDEX(256 * 3), 3);
    assert!(NUM_BOT_LVL_NODES(18) >= 1);
}

#[test]
fn one_level_cspace_reuses_freed_slot() {
    let mut cs = CSpace::new(1, false, 13, 0);
    let a = cs.alloc_slot().unwrap();
    assert_eq!(a, 0);
    let b = cs.alloc_slot().unwrap();
    assert_eq!(b, 1);
    cs.free_slot(b);
    assert_eq!(cs.alloc_slot().unwrap(), 1);
    assert_eq!(cs.alloc_slot().unwrap(), 2);
}

#[test]
fn user_cspace_keeps_null_slot() {
    let mut cs = CSpace::new_user(7, false).unwrap();
    assert_eq!(cs.root_cnode(), 7);
    assert!(!cs.is_two_level());
    let a = cs.alloc_slot().unwrap();
    assert!(a != 0);
    cs.free_slot(a);
    let b = cs.alloc_slot().unwrap();
    assert_eq!(a, b);
}

#[test]
fn two_level_cspace_allocates_in_cnodes() {
    let mut cs = CSpace::new(1, true, 18, 4);
    cs.init_bot_lvl_node(0, 0x100);
    cs.add_bot_lvl_cnode(0);
    assert_eq!(cs.n_bot_lvl_nodes(), 1);
    let a = cs.alloc_slot().unwrap();
    assert_eq!(a, 0);
    let b = cs.alloc_slot().unwrap();
    assert_eq!(b, 1);
    cs.free_slot(b);
    assert_eq!(cs.alloc_slot().unwrap(), 1);
}

#[test]
fn frame_table_places_fresh_frame_data_by_index() {
    let mut ft = FrameTable::init(9);
    assert_eq!(ft.fresh_frame_vaddr(), Some(FRAME_DATA));
    let a = ft.alloc_frame(Some(0x40)).unwrap();
    assert_eq!(ft.fresh_frame_vaddr(), Some(0x82_0000_1000));
    let b = ft.alloc_frame(Some(0x41)).unwrap();
    assert_eq!(ft.frame_data(b), 0x82_0000_1000);
    assert_eq!(ft.frame_data(a), 0x82_0000_0000);
    ft.free_frame(a);
    assert_eq!(ft.fresh_frame_vaddr(), None);
}

#[test]
fn frame_table_reuses_freed_frames_first() {
    let mut ft = FrameTable::init(9);
    assert_eq!(ft.vspace(), 9);
    let mut frames = Vec::new();
    for f in 0..10u64 {
        let r = ft.alloc_frame(Some(100 + f)).unwrap();
        assert_eq!(ft.get_cap(r), 100 + f);
        frames.push(r);
    }
    for f in &frames {
        ft.free_frame(*f);
    }
    // No fresh frame is needed: the freed ones come back, last freed first.
    let mut again = Vec::new();
    for _ in 0..10 {
        again.push(ft.alloc_frame(None).unwrap());
    }
    let mut expected = frames.clone();
    expected.reverse();
    assert_eq!(again, expected);
    // With the free list empty and no fresh capability, allocation fails.
    assert_eq!(ft.alloc_frame(None), None);
}

#[test]
fn untyped_table_hands_out_last_added_page_first() {
    let mut t = UTTable::new(UTRegion::new(0x4000_0000, 0x4001_0000), 0x8000_0000);
    t.add_untyped_range(0x4000_0000, 50, 4, false);
    let (pa, w) = t.alloc_4k_untyped().unwrap();
    assert_eq!(pa, 0x4000_3000);
    assert_eq!(w.get_cap(), 53);
    assert_eq!(w.get_size_bits(), 12);
    t.free(w);
    let (pa2, w2) = t.alloc_4k_untyped().unwrap();
    assert_eq!(pa2, 0x4000_3000);
    assert_eq!(w2.get_cap(), 53);
    for expected in [0x4000_2000usize, 0x4000_1000, 0x4000_0000] {
        assert_eq!(t.alloc_4k_untyped().unwrap().0, expected);
    }
    assert!(matches!(t.alloc_4k_untyped(), Err(Sel4Error::NotEnoughMemory)));
}

#[test]
fn untyped_table_devices_are_not_free() {
    let mut t = UTTable::new(UTRegion::new(0x1000_0000, 0x1000_4000), 0);
    t.add_untyped_range(0x1000_1000, 200, 2, true);
    assert!(matches!(t.alloc_4k_untyped(), Err(Sel4Error::NotEnoughMemory)));
    let d = t.alloc_4k_device(0x1000_2000).unwrap();
    assert_eq!(d.get_cap(), 201);
    assert!(matches!(t.alloc_4k_device(0x1000_3000), Err(Sel4Error::InvalidArgument)));
}

#[test]
fn untyped_table_splits_pages() {
    assert_eq!(UTTable::check_alloc_size(3), Err(Sel4Error::InvalidArgument));
    assert_eq!(UTTable::check_alloc_size(13), Err(Sel4Error::InvalidArgument));
    assert_eq!(UTTable::check_alloc_size(10), Ok(()));
    let mut t = UTTable::new(UTRegion::new(0, 0x2000), 0x9000);
    t.add_untyped_range(0, 10, 2, false);
    assert_eq!(t.split_source(11), Ok(12));
    assert!(t.needs_new_structures());
    assert_eq!(t.take_next_free_vaddr(), 0x9000);
    t.add_structures();
    assert!(!t.needs_new_structures());
    let page = t.alloc_from_list(12).unwrap();
    let half = t.split(page, 20, 21).unwrap();
    assert_eq!(half.get_cap(), 21);
    assert_eq!(half.get_size_bits(), 11);
    // The other half waits on the stack of its size.
    assert_eq!(t.split_source(11), Ok(11));
    let other = t.alloc_from_list(11).unwrap();
    assert_eq!(other.get_cap(), 20);
    assert_eq!(UT_ENTRIES_PER_PAGE, 170);
}

#[test]
fn split_without_spare_entries_fails_and_returns_the_untyped() {
    let mut t = UTTable::new(UTRegion::new(0, 0x1000), 0);
    t.add_untyped_range(0, 5, 1, false);
    let page = t.alloc_from_list(12).unwrap();
    assert_eq!(t.split(page, 1, 2).unwrap_err(), Sel4Error::NotEnoughMemory);
    assert_eq!(t.alloc_4k_untyped().unwrap().1.get_cap(), 5);
}

#[test]
fn handle_caps_are_handed_out_lowest_first() {
    let roots: Vec<u64> = (0..MAX_HANDLE_CAPS as u64).map(|i| 1000 + i).collect();
    let mut t: HandleCapabilityTable<u32> = HandleCapabilityTable::new(&roots);
    assert_eq!(t.allocate_handle_cap(), Ok((0, Some(1000))));
    t.set_handle_cap(0, Some(7)).unwrap();
    assert_eq!(t.get_handle_cap(0), Ok(Some(7)));
    assert_eq!(t.allocate_handle_cap(), Ok((1, Some(1001))));
    assert_eq!(t.cleanup_handle_cap(0), Ok(1000));
    assert_eq!(t.get_handle_cap(0), Ok(None));
    assert_eq!(t.get_handle_cap(MAX_HANDLE_CAPS), Err(()));
    assert_eq!(t.cleanup_handle_cap(MAX_HANDLE_CAPS), Err(()));
    for i in 0..MAX_HANDLE_CAPS {
        t.set_handle_cap(i, Some(1)).unwrap();
    }
    assert_eq!(t.allocate_handle_cap(), Err(InvocationError::OutOfHandleCaps));
}

#[test]
fn untyped_allocation_steps_split_down_to_the_size() {
    let mut t = UTTable::new(UTRegion::new(0, 0x2000), 0x9000);
    assert!(matches!(t.alloc_start(3), UtAllocAction::Fail { err: Sel4Error::InvalidArgument }));
    assert!(matches!(t.alloc_start(10), UtAllocAction::Fail { err: Sel4Error::NotEnoughMemory }));
    t.add_untyped_range(0, 10, 1, false);
    let cur = match t.alloc_start(10) {
        UtAllocAction::NeedStructures { cur } => cur,
        other => panic!("unexpected {:?}", other),
    };
    assert_eq!(cur.get_size_bits(), 12);
    t.take_next_free_vaddr();
    t.add_structures();
    let (cur, half) = match t.alloc_next(cur, 10) {
        UtAllocAction::Split { cur, half } => (cur, half),
        other => panic!("unexpected {:?}", other),
    };
    assert_eq!(half, 11);
    let (cur, half) = match t.alloc_split(cur, 10, 30, 31) {
        UtAllocAction::Split { cur, half } => (cur, half),
        other => panic!("unexpected {:?}", other),
    };
    assert_eq!((cur.get_cap(), half), (31, 10));
    match t.alloc_split(cur, 10, 40, 41) {
        UtAllocAction::Done { ut } => {
            assert_eq!(ut.get_cap(), 41);
            assert_eq!(ut.get_size_bits(), 10);
        }
        other => panic!("unexpected {:?}", other),
    }
}

#[test]
fn ten_frees_then_ten_allocations_give_the_frames_back_last_first() {
    let mut ft = FrameTable::init(9);
    let mut got = Vec::new();
    for i in 0..10u64 {
        got.push(ft.alloc_frame(Some(500 + i)).unwrap());
    }
    for r in got.iter() {
        ft.free_frame(*r);
    }
    for r in got.iter().rev() {
        assert_eq!(ft.alloc_frame(None), Some(*r));
    }
    assert_eq!(ft.alloc_frame(None), None);
}

#[test]
fn a_two_level_cspace_can_allocate_only_once_its_cnode_is_set_up() {
    let mut cs = CSpace::new(1, true, 18, 4);
    assert!(!cs.alloc_slot_allowed());
    cs.init_bot_lvl_node(0, 0x100);
    assert!(!cs.alloc_slot_allowed());
    cs.add_bot_lvl_cnode(0);
    assert!(cs.alloc_slot_allowed());
    assert!(cs.free_slot_allowed(0));
    assert!(cs.free_slot_allowed(5));
}

#[test]
fn failed_untyped_split_steps_are_undone_held_untyped_first() {
    assert_eq!(ut_alloc_undo(UtAllocStep::EnsureStructures), vec![UtUndo::FreeHeld]);
    assert_eq!(ut_alloc_undo(UtAllocStep::AllocSlot1), vec![UtUndo::FreeHeld]);
    assert_eq!(ut_alloc_undo(UtAllocStep::AllocSlot2), vec![UtUndo::FreeHeld, UtUndo::FreeSlot1]);
    assert_eq!(ut_alloc_undo(UtAllocStep::Retype1), vec![UtUndo::FreeHeld, UtUndo::FreeSlot1, UtUndo::FreeSlot2]);
    assert_eq!(
        ut_alloc_undo(UtAllocStep::Retype2),
        vec![UtUndo::FreeHeld, UtUndo::DeleteSlot1, UtUndo::FreeSlot1, UtUndo::FreeSlot2]
    );
}

#[test]
fn bootstrap_slots_are_recorded_as_used() {
    let mut cs = CSpace::new(1, true, 18, 4);
    cs.init_bot_lvl_node(0, 0x100);
    cs.record_bootstrap_slots(600, 5);
    assert_eq!(cs.alloc_slot(), Ok(600));
    assert_eq!(cs.alloc_slot(), Ok(601));
    cs.free_slot(5);
    assert_eq!(cs.alloc_slot(), Ok(5));
    assert_eq!(cs.alloc_slot(), Ok(602));
}

#[test]
fn a_freed_untyped_is_the_next_one_of_its_size_handed_out() {
    let mut t = UTTable::new(UTRegion::new(0, 0x2000), 0x9000);
    t.add_untyped_range(0, 10, 1, false);
    let cur = match t.alloc_start(10) {
        UtAllocAction::NeedStructures { cur } => cur,
        other => panic!("unexpected {:?}", other),
    };
    t.take_next_free_vaddr();
    t.add_structures();
    let cur = match t.alloc_next(cur, 10) {
        UtAllocAction::Split { cur, .. } => cur,
        other => panic!("unexpected {:?}", other),
    };
    let cur = match t.alloc_split(cur, 10, 30, 31) {
        UtAllocAction::Split { cur, .. } => cur,
        other => panic!("unexpected {:?}", other),
    };
    let got = match t.alloc_split(cur, 10, 40, 41) {
        UtAllocAction::Done { ut } => ut,
        other => panic!("unexpected {:?}", other),
    };
    // The other half (capability 40) waits on the size-10 list: it is taken
    // next, without a split.
    let other = match t.alloc_start(10) {
        UtAllocAction::Done { ut } => ut,
        other => panic!("unexpected {:?}", other),
    };
    assert_eq!((other.get_cap(), other.get_size_bits()), (40, 10));
    // A size-11 request takes the size-11 half (capability 30), not a page.
    match t.alloc_start(11) {
        UtAllocAction::Done { ut } => assert_eq!((ut.get_cap(), ut.get_size_bits()), (30, 11)),
        other => panic!("unexpected {:?}", other),
    }
    t.free(got);
    match t.alloc_start(10) {
        UtAllocAction::Done { ut } => assert_eq!((ut.get_cap(), ut.get_size_bits()), (41, 10)),
        other => panic!("unexpected {:?}", other),
    }
}
