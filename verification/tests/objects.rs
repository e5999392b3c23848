use smos::error::{InvocationError, Sel4Error};
use smos::frame_table::FrameTable;
use smos::object::{AnonymousMemoryObject, CapRights, ObjectView, PendingFault};
use smos::proc::{UserProcess, WindowSpan};
use smos::radix::RadixTable;
use smos::vm::{fault_action, page_map_plan, pending_fault_page, zero_frame, FaultAction, check_pt_slot, page_map_check, page_map_source, view_fill, vm_fault_window, MapAction, MapRetry, ViewFill};

#[test]
fn radix_table_insert_and_lookup() {
    let mut t: RadixTable<u32> = RadixTable::new();
    assert_eq!(t.lookup(0x1234_5000), None);
    assert_eq!(t.insert_at(0x1234_5000, 7), Ok(()));
    assert_eq!(t.lookup(0x1234_5000), Some(7));
    // Offsets in the same page share the entry.
    assert_eq!(t.lookup(0x1234_5FFF), Some(7));
    assert_eq!(t.lookup(0x1234_6000), None);
    assert_eq!(t.insert_at(0x1234_5800, 8), Err(Sel4Error::DeleteFirst));
    assert_eq!(t.lookup(0x1234_5000), Some(7));
    assert_eq!(t.insert_at(0x1000, 1), Ok(()));
    assert_eq!(t.insert_at(0x7F_FFFF_F000, 9), Ok(()));
    assert_eq!(t.entries_list(), vec![1, 7, 9]);
}

#[test]
fn object_frames_are_freed_in_offset_order() {
    let mut ft = FrameTable::init(1);
    let a = ft.alloc_frame(Some(100)).unwrap();
    let b = ft.alloc_frame(Some(101)).unwrap();
    let mut o = AnonymousMemoryObject::new(0x3000, CapRights::all());
    assert_eq!(o.size(), 0x3000);
    assert_eq!(o.rights(), CapRights::all());
    assert!(o.insert_frame_at(0x2000, (101, b)).is_ok());
    assert!(o.insert_frame_at(0x0, (100, a)).is_ok());
    assert_eq!(o.insert_frame_at(0x0, (100, a)), Err(Sel4Error::DeleteFirst));
    assert_eq!(o.lookup_frame(0x2010).unwrap().cap, 101);
    assert!(o.lookup_frame(0x1000).is_none());
    // No view maps the object: nothing to revoke.
    assert!(o.has_no_views());
    let revoke = o.cleanup_frame_table(&mut ft);
    assert!(revoke.is_empty());
    // Frames come back last freed first: b then a.
    assert_eq!(ft.alloc_frame(None), Some(b));
    assert_eq!(ft.alloc_frame(None), Some(a));
}

#[test]
fn mapped_objects_give_their_frames_to_revoke() {
    let mut ft = FrameTable::init(1);
    let a = ft.alloc_frame(Some(300)).unwrap();
    let mut o = AnonymousMemoryObject::new(0x1000, CapRights::write_only());
    o.insert_frame_at(0, (300, a)).unwrap();
    o.add_associated_view(4);
    assert_eq!(o.cleanup_frame_table(&mut ft), vec![300]);
}

#[test]
fn views_map_caps_by_offset() {
    let mut v = ObjectView::new(1, Some(2), CapRights::none(), 0x1000, 0x0);
    assert_eq!(v.get_binding(), (1, Some(2), CapRights::none(), 0x1000, 0));
    assert_eq!(v.lookup_cap(0x1000), None);
    assert_eq!(v.insert_cap_at(0x1000, 55), Ok(()));
    assert_eq!(v.insert_cap_at(0x1000, 56), Err(Sel4Error::DeleteFirst));
    assert_eq!(v.insert_cap_at(0x3000, 57), Ok(()));
    assert_eq!(v.lookup_cap(0x1abc), Some(55));
    assert_eq!(v.cleanup_cap_table(), vec![55, 57]);
}

#[test]
fn view_fill_decides_where_the_frame_comes_from() {
    let mut ft = FrameTable::init(1);
    let f = ft.alloc_frame(Some(77)).unwrap();
    let mut obj = AnonymousMemoryObject::new(0x4000, CapRights::all());
    obj.insert_frame_at(0x1000, (77, f)).unwrap();
    let mut v = ObjectView::new(1, Some(9), CapRights::all(), 0x2000, 0x0);
    // Window offset 0x3000 is object offset 0x1000, which has a frame.
    match view_fill(&v, Some(&obj), 0x3000) {
        ViewFill::FromObject { obj_offset, frame } => {
            assert_eq!(obj_offset, 0x1000);
            assert_eq!(frame.cap, 77);
        }
        other => panic!("unexpected {:?}", other),
    }
    match view_fill(&v, Some(&obj), 0x4000) {
        ViewFill::NewFrame { obj_offset } => assert_eq!(obj_offset, 0x2000),
        other => panic!("unexpected {:?}", other),
    }
    v.insert_cap_at(0x4000, 5).unwrap();
    assert!(matches!(view_fill(&v, Some(&obj), 0x4000), ViewFill::Mapped));
    let ext = ObjectView::new(1, None, CapRights::all(), 0, 0);
    assert!(matches!(view_fill(&ext, None, 0x1000), ViewFill::External));
}

#[test]
fn faults_and_page_maps_find_their_window() {
    let mut p = UserProcess::new(2, vec![]);
    p.add_window_unchecked(WindowSpan { id: 1, start: 0x40_0000, size: 0x4000 });
    let (win, off) = vm_fault_window(&p, 0x40_1234).unwrap();
    assert_eq!(win.id, 1);
    assert_eq!(off, 0x1234);
    assert!(vm_fault_window(&p, 0x50_0000).is_none());
    assert_eq!(page_map_source(&p, 0x9000), Err(InvocationError::InvalidArguments));
    assert_eq!(page_map_check(0x1000, 0x2000), Ok(()));
    assert_eq!(page_map_check(0x1001, 0x2000), Err(InvocationError::AlignmentError { which_arg: 1 }));
    assert_eq!(page_map_check(0x1000, 0x2001), Err(InvocationError::AlignmentError { which_arg: 1 }));
}

#[test]
fn mapping_retries_add_page_tables_up_to_three_times() {
    let mut m = MapRetry::new();
    assert_eq!(m.decide(Err(Sel4Error::FailedLookup)), MapAction::AddPageTable { attempt: 0 });
    assert_eq!(m.take_slot(Some([10, 11, 12])), Some(10));
    m.next_attempt();
    assert_eq!(m.take_slot(Some([10, 11, 12])), Some(11));
    m.next_attempt();
    assert_eq!(m.decide(Ok(())), MapAction::Done { used: 0b11 });
    assert_eq!(m.decide(Err(Sel4Error::InvalidArgument)), MapAction::Fail { err: Sel4Error::InvalidArgument });
    assert_eq!(m.take_slot(None), None);
    m.next_attempt();
    assert_eq!(m.decide(Err(Sel4Error::FailedLookup)), MapAction::Fail { err: Sel4Error::FailedLookup });
    assert_eq!(check_pt_slot(0), Err(Sel4Error::InvalidCapability));
    assert_eq!(check_pt_slot(4), Ok(4));
}

#[test]
fn faults_are_refused_forwarded_or_filled() {
    let w = WindowSpan { id: 1, start: 0x10000, size: 0x4000 };
    assert!(matches!(fault_action(None, None, None, 0x10010), FaultAction::Refuse));
    let external = ObjectView::new(1, None, CapRights::all(), 0, 0);
    assert!(matches!(
        fault_action(Some((w, 0x1010)), Some(&external), None, 0x11010),
        FaultAction::Forward { offset: 0x1000 }
    ));
    assert!(matches!(fault_action(Some((w, 0x1010)), None, None, 0x11010), FaultAction::Refuse));
    let mut obj = AnonymousMemoryObject::new(0x4000, CapRights::all());
    obj.insert_frame_at(0x1000, (77, 3)).unwrap();
    let mut view = ObjectView::new(1, Some(9), CapRights::all(), 0, 0);
    match fault_action(Some((w, 0x1010)), Some(&view), Some(&obj), 0x11010) {
        FaultAction::CopyFrame { offset, vaddr, obj_offset, frame } => {
            assert_eq!((offset, vaddr, obj_offset, frame.cap), (0x1010, 0x11000, 0x1010, 77));
        }
        _ => panic!("expected the object's frame"),
    }
    assert!(matches!(
        fault_action(Some((w, 0x2000)), Some(&view), Some(&obj), 0x12000),
        FaultAction::NewFrame { offset: 0x2000, vaddr: 0x12000, obj_offset: 0x2000 }
    ));
    view.insert_cap_at(0x2000, 5).unwrap();
    assert!(matches!(
        fault_action(Some((w, 0x2008)), Some(&view), Some(&obj), 0x12008),
        FaultAction::MapFrame { offset: 0x2008, vaddr: 0x12000 }
    ));
}

#[test]
fn page_map_requests_are_checked_then_planned() {
    let w = WindowSpan { id: 1, start: 0x10000, size: 0x4000 };
    let dst = ObjectView::new(2, None, CapRights::all(), 0, 0);
    let obj = AnonymousMemoryObject::new(0x4000, CapRights::all());
    let src = ObjectView::new(1, Some(9), CapRights::all(), 0, 0);
    let found = Some((w, 0x1000));
    assert_eq!(
        page_map_plan(0x10, 0x11000, Some(&dst), false, found, Some(&src), Some(&obj)).err(),
        Some(InvocationError::AlignmentError { which_arg: 1 })
    );
    assert_eq!(
        page_map_plan(0x1000, 0x11000, None, false, found, Some(&src), Some(&obj)).err(),
        Some(InvocationError::InvalidHandle { which_arg: 0 })
    );
    assert_eq!(
        page_map_plan(0x1000, 0x11000, Some(&dst), false, None, None, None).err(),
        Some(InvocationError::InvalidArguments)
    );
    assert_eq!(
        page_map_plan(0x1000, 0x11000, Some(&dst), false, found, None, None).err(),
        Some(InvocationError::InvalidArguments)
    );
    let plan = page_map_plan(0x1000, 0x11000, Some(&dst), true, found, Some(&src), Some(&obj)).unwrap();
    assert_eq!(plan.src_offset, 0x1000);
    assert!(plan.answer_pending);
    assert!(matches!(plan.fill, ViewFill::NewFrame { obj_offset: 0x1000 }));
}

#[test]
fn a_forwarded_fault_waits_on_its_view_until_the_page_is_mapped() {
    let mut v = ObjectView::new(1, None, CapRights::all(), 0, 0);
    assert_eq!(v.pending_fault(), None);
    let f = PendingFault { reply: 40, fault_addr: 0x7123, vspace: 3 };
    v.set_pending_fault(f);
    assert_eq!(v.pending_fault(), Some(f));
    assert_eq!(pending_fault_page(&f), 0x7000);
    assert_eq!(v.page_map_complete(0x2000, 99), Some(f));
    assert_eq!(v.lookup_cap(0x2000), Some(99));
    assert_eq!(v.lookup_cap(0x3000), None);
    assert_eq!(v.pending_fault(), None);
    assert_eq!(v.page_map_complete(0x3000, 100), None);
    assert_eq!(v.lookup_cap(0x3000), Some(100));
}

#[test]
fn a_new_frame_is_zeroed_over_its_first_page_only() {
    let mut data = vec![7u8; 4096 + 8];
    zero_frame(&mut data);
    assert!(data[..4096].iter().all(|b| *b == 0));
    assert!(data[4096..].iter().all(|b| *b == 7));
}
