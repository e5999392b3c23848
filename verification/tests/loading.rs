use smos::bootstrap::{
    bootstrap_plan, bot_lvl_nodes_needed, calculate_ut_caps, dma_vaddr_after, find_memory_bounds, paddr_from_avail_bytes,
    retype_chunk, steal_untyped, untyped_in_range, untyped_page_caps, ut_pages_for_region, UntypedDesc,
};
use smos::elf_load::{
    advance_cursor, fill_segment_page, load_segment, load_segment_into_windows, overlapping_window, parse_segments, rights_from_elf_flags, segment_cursor,
    segment_data, segment_window, select_segments, SegmentHeader, PT_LOAD, PT_TLS,
};
use smos::error::Sel4Error;
use smos::object::CapRights;
use smos::proc::WindowSpan;
use smos::ut::UTRegion;

fn ut(paddr: usize, size_bits: usize, is_device: bool) -> UntypedDesc {
    UntypedDesc { paddr, size_bits, is_device }
}

#[test]
fn usable_untypeds_are_below_the_limit() {
    assert!(untyped_in_range(&ut(0x4000_0000, 20, false)));
    assert!(!untyped_in_range(&ut(0xE000_0000, 12, false)));
    assert!(!untyped_in_range(&ut(0x1000, 33, false)));
}

#[test]
fn memory_bounds_cover_usable_untypeds() {
    let uts = [ut(0x5000_0000, 20, false), ut(0x4000_0000, 16, true), ut(0xF000_0000, 12, false)];
    let r = find_memory_bounds(&uts);
    assert_eq!(r.start, 0x4000_0000);
    assert_eq!(r.end, 0x5010_0000);
    // 0x10100 pages of 24-byte entries take 0x182 pages.
    assert_eq!(ut_pages_for_region(&UTRegion::new(0x4000_0000, 0x5010_0000)), 0x182);
}

#[test]
fn untyped_caps_count_and_available_bytes() {
    let uts = [ut(0x4000_0000, 14, false), ut(0x5000_0000, 12, true), ut(0x6000_0000, 11, false)];
    let mut avail = vec![0usize; 4];
    assert_eq!(calculate_ut_caps(&uts, 12, &mut avail), 5);
    assert_eq!(avail, vec![0x4000, 0, 0x800, 0]);
    assert_eq!(untyped_page_caps(&uts[0], avail[0]), 4);
    assert_eq!(untyped_page_caps(&uts[1], avail[1]), 1);
}

#[test]
fn stealing_carves_from_the_first_untyped_with_room() {
    let uts = [ut(0x4000_0000, 12, false), ut(0x5000_0000, 16, false)];
    let mut avail = vec![0x1000usize, 0x10000];
    assert_eq!(steal_untyped(&uts, 13, &mut avail, 100), Some((101, 0x5000_0000)));
    assert_eq!(avail, vec![0x1000, 0xE000]);
    assert_eq!(paddr_from_avail_bytes(&uts, 1, 12, &avail), 0x5000_2000);
    assert_eq!(steal_untyped(&uts, 12, &mut avail, 100), Some((100, 0x4000_0000)));
    assert_eq!(steal_untyped(&uts, 16, &mut avail, 100), None);
    assert_eq!(avail, vec![0, 0xE000]);
}

#[test]
fn bootstrap_plan_counts_slots_and_bytes() {
    let p = bootstrap_plan(10, 0x181, 0x20000);
    assert_eq!(p.n_slots, 9 + 0x181 + 1 + 32 + 2 + 0x20000);
    assert_eq!(p.n_cnodes, p.n_slots / 256 + 2);
    assert_eq!(p.size, 0x181 * 4096 + 4096 + 32 * 4096 + 8192 + p.n_cnodes * 8192 + 262144);
    assert_eq!(1usize << (p.steal_size_bits - 1) <= p.size, true);
    assert!(p.size < 1usize << p.steal_size_bits);
}

#[test]
fn bootstrap_small_helpers() {
    assert_eq!(retype_chunk(1000, 250, 256), 6);
    assert_eq!(retype_chunk(3, 0, 256), 3);
    assert_eq!(retype_chunk(1000, 0, 100), 100);
    assert_eq!(bot_lvl_nodes_needed(300, 2), 1);
    assert_eq!(bot_lvl_nodes_needed(256 * 200, 2), 3);
    assert_eq!(dma_vaddr_after(0x8000_1000), 0x8020_0000);
}

fn put16(v: &mut Vec<u8>, x: u16) {
    v.extend_from_slice(&x.to_le_bytes());
}
fn put32(v: &mut Vec<u8>, x: u32) {
    v.extend_from_slice(&x.to_le_bytes());
}
fn put64(v: &mut Vec<u8>, x: u64) {
    v.extend_from_slice(&x.to_le_bytes());
}

fn phdr(v: &mut Vec<u8>, p_type: u32, flags: u32, offset: u64, vaddr: u64, filesz: u64, memsz: u64) {
    put32(v, p_type);
    put32(v, flags);
    put64(v, offset);
    put64(v, vaddr);
    put64(v, vaddr);
    put64(v, filesz);
    put64(v, memsz);
    put64(v, 0x1000);
}

fn tiny_elf() -> Vec<u8> {
    let mut v = vec![0x7f, b'E', b'L', b'F', 2, 1, 1, 0, 0, 0, 0, 0, 0, 0, 0, 0];
    put16(&mut v, 2);
    put16(&mut v, 0xB7);
    put32(&mut v, 1);
    put64(&mut v, 0x40_0000);
    put64(&mut v, 64);
    put64(&mut v, 0);
    put32(&mut v, 0);
    put16(&mut v, 64);
    put16(&mut v, 56);
    put16(&mut v, 3);
    put16(&mut v, 64);
    put16(&mut v, 0);
    put16(&mut v, 0);
    phdr(&mut v, PT_LOAD, 5, 232, 0x40_0010, 4, 0x20);
    phdr(&mut v, 4, 4, 0, 0, 0, 0);
    phdr(&mut v, PT_TLS, 6, 236, 0x41_0000, 0, 8);
    v.extend_from_slice(&[1, 2, 3, 4]);
    v
}

#[test]
fn elf_segments_are_read_and_selected() {
    let elf = tiny_elf();
    let hs = parse_segments(&elf).unwrap();
    assert_eq!(hs.len(), 3);
    assert_eq!(hs[0], SegmentHeader { p_type: PT_LOAD, p_offset: 232, p_vaddr: 0x40_0010, p_filesz: 4, p_memsz: 0x20, p_flags: 5 });
    let sel = select_segments(&hs);
    assert_eq!(sel.len(), 2);
    assert_eq!(sel[1].p_type, PT_TLS);
    assert_eq!(segment_data(&elf, &sel[0]), Some(vec![1, 2, 3, 4]));
    let too_far = SegmentHeader { p_offset: 230, p_filesz: 10, ..sel[0] };
    assert_eq!(segment_data(&elf, &too_far), None);
    assert_eq!(parse_segments(&[0u8; 8]), Err(Sel4Error::InvalidArgument));
}

#[test]
fn segment_windows_and_rights() {
    let s = SegmentHeader { p_type: PT_LOAD, p_offset: 0, p_vaddr: 0x40_0010, p_filesz: 4, p_memsz: 0x20, p_flags: 5 };
    assert_eq!(segment_window(&s), (0x40_0000, 0x20 + 0x10 + (0x1000 - 0x30)));
    let aligned_end = SegmentHeader { p_vaddr: 0x40_0000, p_memsz: 0x1000, ..s };
    assert_eq!(segment_window(&aligned_end), (0x40_0000, 0x2000));
    assert_eq!(rights_from_elf_flags(5), CapRights { read: true, write: false, grant: false, grant_reply: false });
    assert_eq!(rights_from_elf_flags(1), CapRights { read: true, write: false, grant: false, grant_reply: false });
    assert_eq!(rights_from_elf_flags(2), CapRights { read: false, write: true, grant: false, grant_reply: false });
    assert_eq!(rights_from_elf_flags(0), CapRights::none());
    let ws = vec![WindowSpan { id: 1, start: 0x40_0000, size: 0x1000 }];
    assert!(overlapping_window(&ws, 0x40_0800, 0x10).is_some());
    // Ending exactly at a window's start shares no byte with it.
    assert!(overlapping_window(&ws, 0x3F_F000, 0x1000).is_none());
    // A segment that holds a whole window overlaps it.
    assert!(overlapping_window(&ws, 0x3F_F000, 0x3000).is_some());
    assert!(overlapping_window(&ws, 0x40_1000, 0x10).is_none());
}

#[test]
fn segment_pages_hold_file_bytes_then_zeros() {
    let data: Vec<u8> = (1..=10u8).collect();
    let mut c = segment_cursor(0x40_0FFA);
    let mut page = vec![0xEEu8; 4096];
    fill_segment_page(&mut page, &data, 10, &c);
    assert!(page[..0xFFA].iter().all(|b| *b == 0));
    assert_eq!(&page[0xFFA..], &[1, 2, 3, 4, 5, 6]);
    advance_cursor(&mut c);
    assert_eq!((c.pos, c.curr_vaddr, c.curr_offset, c.page), (6, 0x40_1000, 6, 1));
    fill_segment_page(&mut page, &data, 10, &c);
    assert_eq!(&page[..4], &[7, 8, 9, 10]);
    assert!(page[4..].iter().all(|b| *b == 0));
    advance_cursor(&mut c);
    fill_segment_page(&mut page, &data, 10, &c);
    assert!(page.iter().all(|b| *b == 0));
}

#[test]
fn whole_segments_load_file_bytes_then_zeros() {
    let data: Vec<u8> = vec![1, 2, 3];
    let s = SegmentHeader { p_type: PT_LOAD, p_offset: 0, p_vaddr: 0x1010, p_filesz: 3, p_memsz: 0x1000, p_flags: 4 };
    let l = load_segment(&data, &s);
    assert_eq!(l.window_start, 0x1000);
    assert_eq!(l.window_size, 0x2000);
    assert_eq!(l.rights, CapRights { read: true, write: false, grant: false, grant_reply: false });
    assert_eq!(l.pages.len(), 2);
    assert_eq!(&l.pages[0][0x10..0x13], &[1, 2, 3]);
    assert!(l.pages[0][..0x10].iter().all(|b| *b == 0));
    assert!(l.pages[0][0x13..].iter().all(|b| *b == 0));
    assert!(l.pages[1].iter().all(|b| *b == 0));
    let empty = SegmentHeader { p_memsz: 0, p_filesz: 0, ..s };
    assert_eq!(load_segment(&data, &empty).pages.len(), 0);
}

#[test]
fn a_loaded_segment_adds_its_window_bound_to_a_new_object() {
    let data: Vec<u8> = vec![1, 2, 3];
    let s = SegmentHeader { p_type: PT_LOAD, p_offset: 0, p_vaddr: 0x1010, p_filesz: 3, p_memsz: 0x1000, p_flags: 6 };
    let mut windows = vec![WindowSpan { id: 1, start: 0x8000, size: 0x1000 }];
    let b = load_segment_into_windows(&mut windows, 2, 20, 200, &data, &s);
    assert_eq!(windows.len(), 2);
    assert_eq!(windows[1], WindowSpan { id: 2, start: 0x1000, size: 0x2000 });
    assert_eq!(b.object.size(), 0x2000);
    assert_eq!(b.object.rights(), CapRights { read: true, write: true, grant: false, grant_reply: false });
    assert!(b.object.lookup_frame(0).is_none());
    assert_eq!(b.view.get_binding(), (2, Some(20), b.load.rights, 0, 0));
    assert_eq!(b.view.lookup_cap(0), None);
    assert_eq!(b.view.pending_fault(), None);
    assert_eq!(&b.load.pages[0][0x10..0x13], &[1, 2, 3]);
}
