//! Loading an ELF file into a process's address space: which segments
//! are loaded, the window and rights each gets, and what each page of a
//! segment holds. Mapping the pages is kernel work done by the caller.

use vstd::prelude::*;
use elf::ElfBytes;
use elf::endian::AnyEndian;
use crate::error::Sel4Error;
use crate::object::{AnonymousMemoryObject, CapRights, ObjectView, MAX_OBJ_SIZE};
use crate::proc::WindowSpan;

verus! {

/// Segment type of a loadable segment.
pub const PT_LOAD: u32 = 1;
/// Segment type of the thread-local storage template.
pub const PT_TLS: u32 = 7;
/// Segment flag: executable.
pub const PF_X: u32 = 1;
/// Segment flag: writable.
pub const PF_W: u32 = 2;
/// Segment flag: readable.
pub const PF_R: u32 = 4;

/// A program header of an ELF file.
#[derive(Clone, Copy, Debug, PartialEq, Eq, Structural)]
pub struct SegmentHeader {
    pub p_type: u32,
    pub p_offset: u64,
    pub p_vaddr: u64,
    pub p_filesz: u64,
    pub p_memsz: u64,
    pub p_flags: u32,
}

/// The program headers the `elf` crate reads from the ELF file `bytes`,
/// or none when it cannot parse the file or the file has no program
/// header table.
pub uninterp spec fn elf_program_headers(bytes: Seq<u8>) -> Option<Seq<SegmentHeader>>;

/// Calls `elf::ElfBytes::minimal_parse` on `bytes`, then `segments` on the
/// result, and reads each program header of the table, in order. Claimed:
/// the headers, or none, are what `elf_program_headers` names for these
/// bytes; the parse is not stated.
#[verifier::external_body]
fn parse_program_headers(bytes: &[u8]) -> (r: Option<Vec<SegmentHeader>>)
    ensures
        r matches Some(v) ==> elf_program_headers(bytes@) == Some(v@),
        r is None ==> elf_program_headers(bytes@) is None,
{
    let file = match ElfBytes::<AnyEndian>::minimal_parse(bytes) {
        Ok(f) => f,
        Err(_) => return None,
    };
    let table = file.segments()?;
    Some(table.iter().map(|ph| segment_header(ph.p_type, ph.p_offset, ph.p_vaddr, ph.p_filesz, ph.p_memsz, ph.p_flags)).collect())
}

/// A program header with these fields.
pub fn segment_header(p_type: u32, p_offset: u64, p_vaddr: u64, p_filesz: u64, p_memsz: u64, p_flags: u32) -> (r: SegmentHeader)
    ensures
        r == (SegmentHeader { p_type, p_offset, p_vaddr, p_filesz, p_memsz, p_flags }),
{
    SegmentHeader { p_type, p_offset, p_vaddr, p_filesz, p_memsz, p_flags }
}

/// The segment is loaded: it is loadable or the thread-local storage template.
pub open spec fn is_loaded(s: SegmentHeader) -> bool {
    s.p_type == PT_LOAD || s.p_type == PT_TLS
}

/// The loaded segments of `hs`, in order.
pub open spec fn loaded_segments(hs: Seq<SegmentHeader>) -> Seq<SegmentHeader> {
    hs.filter(|s: SegmentHeader| is_loaded(s))
}

/// The program headers of ELF file `elf_data`; fails with `InvalidArgument`
/// when the file cannot be read or has no program header table.
pub fn parse_segments(elf_data: &[u8]) -> (r: Result<Vec<SegmentHeader>, Sel4Error>)
    ensures
        r matches Ok(v) ==> elf_program_headers(elf_data@) == Some(v@),
        r is Err ==> r == Err::<Vec<SegmentHeader>, Sel4Error>(Sel4Error::InvalidArgument) && elf_program_headers(
            elf_data@,
        ) is None,
{
    match parse_program_headers(elf_data) {
        None => Err(Sel4Error::InvalidArgument),
        Some(v) => Ok(v),
    }
}

/// The segments of `headers` that are loaded, in order.
pub fn select_segments(headers: &Vec<SegmentHeader>) -> (r: Vec<SegmentHeader>)
    ensures
        r@ == loaded_segments(headers@),
{
    let mut out: Vec<SegmentHeader> = Vec::new();
    let mut i: usize = 0;
    proof {
        reveal(Seq::filter);
        assert(headers@.subrange(0, 0) =~= Seq::<SegmentHeader>::empty());
    }
    while i < headers.len()
        invariant
            i <= headers@.len(),
            out@ == loaded_segments(headers@.subrange(0, i as int)),
        decreases headers@.len() - i,
    {
        let h = headers[i];
        proof {
            let t = headers@.subrange(0, i + 1);
            assert(t.drop_last() =~= headers@.subrange(0, i as int));
            assert(t.last() == h);
            headers@.subrange(0, i as int).lemma_filter_push(h, |s: SegmentHeader| is_loaded(s));
            assert(headers@.subrange(0, i as int).push(h) =~= t);
        }
        if h.p_type == PT_LOAD || h.p_type == PT_TLS {
            out.push(h);
        }
        i += 1;
    }
    proof {
        assert(headers@.subrange(0, headers@.len() as int) =~= headers@);
    }
    out
}

/// The file bytes of a segment: `p_filesz` bytes from `p_offset`, when they
/// lie inside the file.
pub open spec fn segment_bytes(bytes: Seq<u8>, s: SegmentHeader) -> Option<Seq<u8>> {
    if s.p_offset + s.p_filesz <= bytes.len() {
        Some(bytes.subrange(s.p_offset as int, s.p_offset + s.p_filesz))
    } else {
        None
    }
}

/// The file bytes of segment `s` of ELF file `bytes`, or none when they do
/// not lie inside the file.
pub fn segment_data(bytes: &[u8], s: &SegmentHeader) -> (r: Option<Vec<u8>>)
    ensures
        r matches Some(v) ==> segment_bytes(bytes@, *s) == Some(v@),
        r is None ==> segment_bytes(bytes@, *s) is None,
{
    let len = bytes.len();
    if s.p_offset > len as u64 || s.p_filesz > len as u64 - s.p_offset {
        return None;
    }
    let start = s.p_offset as usize;
    let end = start + s.p_filesz as usize;
    let mut out: Vec<u8> = Vec::new();
    let mut i: usize = start;
    while i < end
        invariant
            start <= i <= end,
            end <= bytes@.len(),
            start == s.p_offset,
            end == s.p_offset + s.p_filesz,
            out@ == bytes@.subrange(start as int, i as int),
        decreases end - i,
    {
        out.push(bytes[i]);
        proof {
            assert(bytes@.subrange(start as int, i + 1) =~= bytes@.subrange(start as int, i as int).push(bytes@[i as int]));
        }
        i += 1;
    }
    Some(out)
}

/// The rights segment flags `flags` give: read if readable or executable,
/// write if writable.
pub open spec fn elf_flags_rights(flags: u32) -> CapRights {
    CapRights { read: flags & PF_R != 0 || flags & PF_X != 0, write: flags & PF_W != 0, grant: false, grant_reply: false }
}

/// The rights a segment's flags give its mapping: read if readable or
/// executable, write if writable.
pub fn rights_from_elf_flags(flags: u32) -> (r: CapRights)
    ensures
        r == elf_flags_rights(flags),
{
    let mut rights = CapRights::none();
    if flags & PF_R != 0 || flags & PF_X != 0 {
        rights.read = true;
    }
    if flags & PF_W != 0 {
        rights.write = true;
    }
    rights
}

/// Bytes of the window a segment gets: its memory size, plus the bytes
/// before it on its first page, plus the bytes from its end to the end of
/// its last page (a whole page when it ends on a page boundary).
pub open spec fn segment_span(vaddr: u64, memsz: u64) -> int {
    memsz + vaddr % 4096 + (4096 - (vaddr + memsz) % 4096)
}

/// The window a segment gets: from its page, `segment_span` bytes long.
pub fn segment_window(s: &SegmentHeader) -> (r: (usize, usize))
    requires
        s.p_vaddr + s.p_memsz + 4096 <= usize::MAX,
    ensures
        r.0 == s.p_vaddr - s.p_vaddr % 4096,
        r.1 == segment_span(s.p_vaddr, s.p_memsz),
{
    let vaddr = s.p_vaddr as usize;
    let total = s.p_memsz + (s.p_vaddr % 4096) + (4096 - ((s.p_vaddr + s.p_memsz) % 4096));
    (vaddr - vaddr % 4096, total as usize)
}

/// `start .. start + size` and `w` share a byte.
pub open spec fn touches(start: int, size: int, w: WindowSpan) -> bool {
    start < w.start + w.size && w.start < start + size
}

/// The first window of `ws` that shares a byte with `start .. start + size`.
pub open spec fn first_touching(ws: Seq<WindowSpan>, start: int, size: int) -> Option<WindowSpan>
    decreases ws.len(),
{
    if ws.len() == 0 {
        None
    } else if touches(start, size, ws[0]) {
        Some(ws[0])
    } else {
        first_touching(ws.drop_first(), start, size)
    }
}

/// The first window, of those the segments loaded so far got, that shares
/// a byte with a segment at `start .. start + size`.
pub fn overlapping_window(windows: &Vec<WindowSpan>, start: usize, size: usize) -> (r: Option<WindowSpan>)
    requires
        forall|i: int| 0 <= i < windows@.len() ==> crate::proc::span_fits(#[trigger] windows@[i]),
        start + size <= usize::MAX,
    ensures
        r == first_touching(windows@, start as int, size as int),
{
    let ghost ws = windows@;
    let mut i: usize = 0;
    proof {
        assert(ws.subrange(0, ws.len() as int) =~= ws);
    }
    while i < windows.len()
        invariant
            ws == windows@,
            i <= ws.len(),
            start + size <= usize::MAX,
            forall|k: int| 0 <= k < ws.len() ==> crate::proc::span_fits(#[trigger] ws[k]),
            first_touching(ws, start as int, size as int) == first_touching(
                ws.subrange(i as int, ws.len() as int),
                start as int,
                size as int,
            ),
        decreases ws.len() - i,
    {
        let w = windows[i];
        proof {
            let t = ws.subrange(i as int, ws.len() as int);
            assert(t[0] == ws[i as int]);
            assert(t.drop_first() =~= ws.subrange(i + 1, ws.len() as int));
            assert(crate::proc::span_fits(ws[i as int]));
        }
        if start < w.start + w.size && w.start < start + size {
            return Some(w);
        }
        i += 1;
    }
    proof {
        assert(ws.subrange(ws.len() as int, ws.len() as int) =~= Seq::<WindowSpan>::empty());
    }
    None
}

/// Where the loading of a segment stands: bytes of the segment done, the
/// address and file offset to go on from, and the page of the segment's
/// object next filled.
#[derive(Clone, Copy, Debug)]
pub struct SegmentCursor {
    pub pos: usize,
    pub curr_vaddr: usize,
    pub curr_offset: usize,
    pub page: usize,
}

/// The start of loading a segment at `vaddr`.
pub fn segment_cursor(vaddr: usize) -> (c: SegmentCursor)
    ensures
        c == (SegmentCursor { pos: 0, curr_vaddr: vaddr, curr_offset: 0, page: 0 }),
{
    SegmentCursor { pos: 0, curr_vaddr: vaddr, curr_offset: 0, page: 0 }
}

/// Bytes of the segment the page being filled takes: the rest of the page
/// from the current address.
pub open spec fn page_share(c: SegmentCursor) -> int {
    4096 - c.curr_vaddr % 4096
}

/// The cursor after a page is filled.
pub open spec fn advanced(c: SegmentCursor) -> SegmentCursor {
    SegmentCursor {
        pos: (c.pos + page_share(c)) as usize,
        curr_vaddr: (c.curr_vaddr + page_share(c)) as usize,
        curr_offset: (c.curr_offset + page_share(c)) as usize,
        page: (c.page + 1) as usize,
    }
}

/// Moves the cursor past the page just filled.
pub fn advance_cursor(c: &mut SegmentCursor)
    requires
        old(c).pos + 4096 <= usize::MAX,
        old(c).curr_vaddr + 4096 <= usize::MAX,
        old(c).curr_offset + 4096 <= usize::MAX,
        old(c).page + 1 <= usize::MAX,
    ensures
        *final(c) == advanced(*old(c)),
{
    let share = 4096 - c.curr_vaddr % 4096;
    c.pos = c.pos + share;
    c.curr_vaddr = c.curr_vaddr + share;
    c.curr_offset = c.curr_offset + share;
    c.page = c.page + 1;
}

/// Byte `b` of the page filled at cursor `c` of a segment with `filesz`
/// bytes of `data` in the file: zero before the current address, then the
/// segment's file bytes while they last, then zero.
pub open spec fn page_byte(data: Seq<u8>, filesz: int, c: SegmentCursor, b: int) -> u8 {
    let lead = c.curr_vaddr % 4096;
    let file_bytes = if c.pos < filesz {
        vstd::math::min(4096 - lead, filesz - c.pos)
    } else {
        0
    };
    if lead <= b < lead + file_bytes {
        data[c.curr_offset + b - lead]
    } else {
        0u8
    }
}

/// Fills `page`, the frame of the page at cursor `c`, as `page_byte` says.
pub fn fill_segment_page(page: &mut Vec<u8>, data: &[u8], filesz: usize, c: &SegmentCursor)
    requires
        old(page)@.len() == 4096,
        c.pos < filesz ==> c.curr_offset + vstd::math::min(4096 - c.curr_vaddr % 4096, filesz - c.pos) <= data@.len(),
    ensures
        final(page)@.len() == 4096,
        forall|b: int| 0 <= b < 4096 ==> #[trigger] final(page)@[b] == page_byte(data@, filesz as int, *c, b),
{
    let lead = c.curr_vaddr % 4096;
    let file_bytes: usize = if c.pos < filesz {
        let room = 4096 - lead;
        let left = filesz - c.pos;
        if room < left { room } else { left }
    } else {
        0
    };
    let n = data.len();
    let mut b: usize = 0;
    while b < 4096
        invariant
            n == data@.len(),
            b <= 4096,
            page@.len() == 4096,
            lead == c.curr_vaddr % 4096,
            file_bytes == (if c.pos < filesz {
                vstd::math::min(4096 - lead, filesz - c.pos)
            } else {
                0
            }),
            c.pos < filesz ==> c.curr_offset + file_bytes <= data@.len(),
            forall|k: int| 0 <= k < b ==> #[trigger] page@[k] == page_byte(data@, filesz as int, *c, k),
        decreases 4096 - b,
    {
        if lead <= b && b < lead + file_bytes {
            page.set(b, data[c.curr_offset + (b - lead)]);
        } else {
            page.set(b, 0);
        }
        b += 1;
    }
}

/// Byte `o` of the window of a segment at `vaddr` whose first `filesz`
/// bytes come from `data`: the segment starts `vaddr % 4096` bytes into its
/// window; its file bytes follow, and every other byte is zero.
pub open spec fn segment_image_byte(data: Seq<u8>, filesz: int, vaddr: int, o: int) -> u8 {
    let lead = vaddr % 4096;
    if lead <= o < lead + filesz {
        data[o - lead]
    } else {
        0u8
    }
}

/// Where the loading of a segment at `vaddr` stands after `k` pages.
pub open spec fn cursor_after(vaddr: int, k: int) -> SegmentCursor {
    if k == 0 {
        SegmentCursor { pos: 0, curr_vaddr: vaddr as usize, curr_offset: 0, page: 0 }
    } else {
        let pos = k * 4096 - vaddr % 4096;
        SegmentCursor { pos: pos as usize, curr_vaddr: (vaddr + pos) as usize, curr_offset: pos as usize, page: k as usize }
    }
}

proof fn lemma_cursor_page(data: Seq<u8>, filesz: int, vaddr: int, k: int, b: int)
    requires
        0 <= vaddr <= usize::MAX,
        0 <= k,
        0 <= b < 4096,
        0 <= filesz,
        k > 0 ==> vaddr + k * 4096 - vaddr % 4096 <= usize::MAX,
        k * 4096 <= usize::MAX,
    ensures
        page_byte(data, filesz, cursor_after(vaddr, k), b) == segment_image_byte(data, filesz, vaddr, k * 4096 + b),
        k > 0 ==> cursor_after(vaddr, k).curr_vaddr % 4096 == 0,
{
    let c = cursor_after(vaddr, k);
    let lead0 = vaddr % 4096;
    if k > 0 {
        let pos = k * 4096 - lead0;
        assert((vaddr + (k * 4096 - vaddr % 4096)) % 4096 == 0) by (nonlinear_arith)
            requires
                vaddr >= 0,
                k > 0,
        {
            vstd::arithmetic::div_mod::lemma_fundamental_div_mod(vaddr, 4096);
            vstd::arithmetic::div_mod::lemma_mod_multiples_basic(vaddr / 4096 + k, 4096);
        }
        assert(c.pos == pos);
        assert(c.curr_offset == pos);
        assert(c.curr_vaddr == vaddr + pos);
        assert(c.curr_vaddr % 4096 == 0);
        let fb = if c.pos < filesz {
            vstd::math::min(4096 - 0, filesz - c.pos)
        } else {
            0
        };
        assert((0 <= b < fb) == (lead0 <= k * 4096 + b < lead0 + filesz));
    } else {
        assert(c.pos == 0);
        assert(c.curr_offset == 0);
        assert(c.curr_vaddr == vaddr);
    }
}

/// A page of zero bytes.
fn zero_page() -> (v: Vec<u8>)
    ensures
        v@.len() == 4096,
{
    let mut v: Vec<u8> = Vec::new();
    let mut i: usize = 0;
    while i < 4096
        invariant
            i <= 4096,
            v@.len() == i,
        decreases 4096 - i,
    {
        v.push(0);
        i += 1;
    }
    v
}

/// The pages of a segment loaded into memory, in order: page `p` holds
/// bytes `p * 4096 ..` of the segment's window, which hold the segment's
/// file bytes `data` (the first `p_filesz` of them) from `p_vaddr % 4096`
/// on, and zero elsewhere. There are as many pages as the segment's memory
/// size reaches into, none for an empty segment.
pub fn load_segment_pages(data: &[u8], s: &SegmentHeader) -> (pages: Vec<Vec<u8>>)
    requires
        s.p_filesz <= data@.len(),
        s.p_vaddr + s.p_memsz + 4096 <= usize::MAX,
    ensures
        s.p_memsz == 0 ==> pages@.len() == 0,
        s.p_memsz > 0 ==> (pages@.len() - 1) * 4096 < s.p_vaddr % 4096 + s.p_memsz <= pages@.len() * 4096,
        forall|p: int| 0 <= p < pages@.len() ==> (#[trigger] pages@[p])@.len() == 4096,
        forall|p: int, b: int|
            0 <= p < pages@.len() && 0 <= b < 4096 ==> #[trigger] pages@[p]@[b] == segment_image_byte(
                data@,
                s.p_filesz as int,
                s.p_vaddr as int,
                p * 4096 + b,
            ),
{
    let n = data.len();
    let vaddr = s.p_vaddr as usize;
    let memsz = s.p_memsz as usize;
    let filesz = s.p_filesz as usize;
    let ghost lead = vaddr % 4096;
    let mut c = segment_cursor(vaddr);
    let mut pages: Vec<Vec<u8>> = Vec::new();
    while c.pos < memsz
        invariant
            vaddr == s.p_vaddr,
            lead == vaddr % 4096,
            n == data@.len(),
            memsz == s.p_memsz,
            filesz == s.p_filesz,
            filesz <= data@.len(),
            vaddr + memsz + 4096 <= usize::MAX,
            c == cursor_after(vaddr as int, pages@.len() as int),
            pages@.len() > 0 ==> (pages@.len() - 1) * 4096 < lead + memsz,
            pages@.len() > 0 ==> memsz > 0,
            pages@.len() * 4096 <= lead + memsz + 4096,
            forall|p: int| 0 <= p < pages@.len() ==> (#[trigger] pages@[p])@.len() == 4096,
            forall|p: int, b: int|
                0 <= p < pages@.len() && 0 <= b < 4096 ==> #[trigger] pages@[p]@[b] == segment_image_byte(
                    data@,
                    filesz as int,
                    vaddr as int,
                    p * 4096 + b,
                ),
        decreases memsz + 4096 - c.pos,
    {
        let ghost k = pages@.len() as int;
        let mut page = zero_page();
        proof {
            if k > 0 {
                assert(0 <= k * 4096 - lead <= usize::MAX);
                assert(c.pos == k * 4096 - lead);
                assert(vaddr + k * 4096 - lead <= usize::MAX);
            } else {
                assert(c.pos == 0);
            }
            if k > 0 {
                assert(c.curr_offset == c.pos);
            }
            assert(c.pos < filesz ==> c.curr_offset + vstd::math::min(4096 - c.curr_vaddr % 4096, filesz - c.pos)
                <= data@.len());
        }
        fill_segment_page(&mut page, data, filesz, &c);
        proof {
            assert forall|b: int| 0 <= b < 4096 implies page@[b] == segment_image_byte(
                data@,
                filesz as int,
                vaddr as int,
                k * 4096 + b,
            ) by {
                lemma_cursor_page(data@, filesz as int, vaddr as int, k, b);
            }
        }
        let ghost before = pages@;
        pages.push(page);
        proof {
            assert forall|p: int| 0 <= p < pages@.len() implies (#[trigger] pages@[p])@.len() == 4096 by {
                if p < k {
                    assert(pages@[p] == before[p]);
                }
            }
            assert forall|p: int, b: int| 0 <= p < pages@.len() && 0 <= b < 4096 implies #[trigger] pages@[p]@[b] == segment_image_byte(data@, filesz as int, vaddr as int, p * 4096 + b) by {
                if p < k {
                    assert(pages@[p] == before[p]);
                }
            }
            if k > 0 {
                assert(c.curr_vaddr % 4096 == 0) by {
                    lemma_cursor_page(data@, filesz as int, vaddr as int, k, 0);
                    assert((vaddr + (k * 4096 - vaddr % 4096)) % 4096 == 0) by (nonlinear_arith)
                        requires
                            vaddr >= 0,
                            k > 0,
                    {
                        vstd::arithmetic::div_mod::lemma_fundamental_div_mod(vaddr as int, 4096);
                        vstd::arithmetic::div_mod::lemma_mod_multiples_basic(vaddr / 4096 + k, 4096);
                    }
                }
            }
        }
        let ghost old_pos = c.pos;
        advance_cursor(&mut c);
        proof {
            assert(0 <= (k + 1) * 4096 - lead <= usize::MAX);
            assert(c.pos == (k + 1) * 4096 - lead);
            assert(c.pos > old_pos);
            assert(c.pos < memsz + 4096);
            assert(c == cursor_after(vaddr as int, k + 1));
        }
    }
    pages
}

/// What loading a segment gives: the window it gets (start and size), the
/// rights its pages are mapped with, and the filled pages of its object.
pub struct SegmentLoad {
    pub window_start: usize,
    pub window_size: usize,
    pub rights: CapRights,
    pub pages: Vec<Vec<u8>>,
}

/// Loads segment `s`, whose file bytes are `data`: its window as
/// `segment_window` gives it, its rights as `rights_from_elf_flags` gives
/// them, and the pages of the new object bound to the window, as
/// `load_segment_pages` fills them (the file bytes below `p_filesz`, zero up
/// to `p_memsz` and around).
pub fn load_segment(data: &[u8], s: &SegmentHeader) -> (r: SegmentLoad)
    requires
        s.p_filesz <= data@.len(),
        s.p_vaddr + s.p_memsz + 4096 <= usize::MAX,
    ensures
        r.window_start == s.p_vaddr - s.p_vaddr % 4096,
        r.window_size == segment_span(s.p_vaddr, s.p_memsz),
        r.rights == elf_flags_rights(s.p_flags),
        s.p_memsz == 0 ==> r.pages@.len() == 0,
        s.p_memsz > 0 ==> (r.pages@.len() - 1) * 4096 < s.p_vaddr % 4096 + s.p_memsz <= r.pages@.len() * 4096,
        forall|p: int| 0 <= p < r.pages@.len() ==> (#[trigger] r.pages@[p])@.len() == 4096,
        forall|p: int, b: int|
            0 <= p < r.pages@.len() && 0 <= b < 4096 ==> #[trigger] r.pages@[p]@[b] == segment_image_byte(
                data@,
                s.p_filesz as int,
                s.p_vaddr as int,
                p * 4096 + b,
            ),
{
    let (start, size) = segment_window(s);
    let rights = rights_from_elf_flags(s.p_flags);
    let pages = load_segment_pages(data, s);
    SegmentLoad { window_start: start, window_size: size, rights: rights, pages: pages }
}

/// A loaded segment, with the window it adds to the process, the new object
/// that backs the window and the view that binds the two.
pub struct SegmentBinding {
    pub load: SegmentLoad,
    pub object: AnonymousMemoryObject,
    pub view: ObjectView,
}

/// Loads segment `s`, whose file bytes are `data`, into a new window of the
/// process whose windows so far are `windows`: the window, numbered
/// `window_id`, is added to them; a new object, numbered `object_id`, of the
/// window's size and the segment's rights backs it; and a view, numbered
/// `view_id`, binds the window to the object from their starts. The object
/// is to hold the pages `load` fills, each copied into the view at the same
/// offset and mapped. The segment shares no byte with an earlier window and
/// its window is no larger than an object can be.
pub fn load_segment_into_windows(
    windows: &mut Vec<WindowSpan>,
    window_id: usize,
    object_id: usize,
    view_id: usize,
    data: &[u8],
    s: &SegmentHeader,
) -> (r: SegmentBinding)
    requires
        forall|i: int| 0 <= i < old(windows)@.len() ==> crate::proc::span_fits(#[trigger] old(windows)@[i]),
        s.p_filesz <= data@.len(),
        s.p_vaddr + s.p_memsz + 4096 <= usize::MAX,
        first_touching(old(windows)@, s.p_vaddr as int, s.p_memsz as int) is None,
        segment_span(s.p_vaddr, s.p_memsz) <= MAX_OBJ_SIZE,
    ensures
        final(windows)@ == old(windows)@.push(
            WindowSpan { id: window_id, start: r.load.window_start, size: r.load.window_size },
        ),
        forall|i: int| 0 <= i < final(windows)@.len() ==> crate::proc::span_fits(#[trigger] final(windows)@[i]),
        r.load.window_start == s.p_vaddr - s.p_vaddr % 4096,
        r.load.window_size == segment_span(s.p_vaddr, s.p_memsz),
        r.load.rights == elf_flags_rights(s.p_flags),
        s.p_memsz == 0 ==> r.load.pages@.len() == 0,
        s.p_memsz > 0 ==> (r.load.pages@.len() - 1) * 4096 < s.p_vaddr % 4096 + s.p_memsz <= r.load.pages@.len() * 4096,
        forall|p: int| 0 <= p < r.load.pages@.len() ==> (#[trigger] r.load.pages@[p])@.len() == 4096,
        forall|p: int, b: int|
            0 <= p < r.load.pages@.len() && 0 <= b < 4096 ==> #[trigger] r.load.pages@[p]@[b] == segment_image_byte(
                data@,
                s.p_filesz as int,
                s.p_vaddr as int,
                p * 4096 + b,
            ),
        r.object.wf(),
        r.object.spec_size() == r.load.window_size,
        r.object.spec_rights() == r.load.rights,
        forall|off: usize| (#[trigger] r.object.frame_at(off)) is None,
        r.object.views() == seq![view_id],
        r.view.wf(),
        r.view.binding() == (window_id, Some(object_id), r.load.rights, 0usize, 0usize),
        forall|off: usize| (#[trigger] r.view.cap_at(off)) is None,
        r.view.pending() is None,
{
    let load = load_segment(data, s);
    let window = WindowSpan { id: window_id, start: load.window_start, size: load.window_size };
    windows.push(window);
    let mut object = AnonymousMemoryObject::new(load.window_size, load.rights);
    object.add_associated_view(view_id);
    proof {
        assert(object.views() =~= seq![view_id]);
    }
    let view = ObjectView::new(window_id, Some(object_id), load.rights, 0, 0);
    SegmentBinding { load: load, object: object, view: view }
}

} // verus!
