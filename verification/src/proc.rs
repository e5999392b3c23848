//! Processes: the table of process slots, the windows of a process's
//! address space, and the initial stack a process starts on.
//!
//! A window is known here by an identifier and its span; the objects behind
//! it stay with the caller. The initial stack is built in an image of the
//! stack's pages, which the caller copies into the stack's frames.

use vstd::prelude::*;
use byteorder::{ByteOrder, LittleEndian};
use crate::error::InvocationError;

verus! {

/// Bytes of a page.
pub const PAGE_BYTES: usize = 4096;

/// The little-endian bytes of `w`.
pub open spec fn le64(w: u64) -> Seq<u8> {
    Seq::new(8, |i: int| ((w >> ((8 * i) as u64)) & 0xffu64) as u8)
}

/// The little-endian bytes of `w`.
pub open spec fn le32(w: u32) -> Seq<u8> {
    Seq::new(4, |i: int| ((w >> ((8 * i) as u32)) & 0xffu32) as u8)
}

/// The little-endian bytes of each word of `ws`, in order.
pub open spec fn words_le(ws: Seq<u64>) -> Seq<u8>
    decreases ws.len(),
{
    if ws.len() == 0 {
        Seq::empty()
    } else {
        words_le(ws.drop_last()).add(le64(ws.last()))
    }
}

/// The little-endian bytes of each half word of `ws`, in order.
pub open spec fn half_words_le(ws: Seq<u32>) -> Seq<u8>
    decreases ws.len(),
{
    if ws.len() == 0 {
        Seq::empty()
    } else {
        half_words_le(ws.drop_last()).add(le32(ws.last()))
    }
}

/// Calls `byteorder::LittleEndian::write_u64_into`, which asserts that `dst`
/// holds exactly eight bytes per word of `src` and writes each word's
/// little-endian bytes, in order. Claimed: exactly that.
#[verifier::external_body]
fn write_u64_into(src: &[u64], dst: &mut [u8])
    requires
        old(dst)@.len() == src@.len() * 8,
    ensures
        final(dst)@ == words_le(src@),
{
    LittleEndian::write_u64_into(src, dst)
}

/// Calls `byteorder::LittleEndian::write_u32_into`, which asserts that `dst`
/// holds exactly four bytes per half word of `src` and writes each one's
/// little-endian bytes, in order. Claimed: exactly that.
#[verifier::external_body]
fn write_u32_into(src: &[u32], dst: &mut [u8])
    requires
        old(dst)@.len() == src@.len() * 4,
    ensures
        final(dst)@ == half_words_le(src@),
{
    LittleEndian::write_u32_into(src, dst)
}

/// `img` with `bytes` written from offset `off`.
pub open spec fn put(img: Seq<u8>, off: int, bytes: Seq<u8>) -> Seq<u8> {
    img.subrange(0, off).add(bytes).add(img.subrange(off + bytes.len(), img.len() as int))
}

/// `x` rounded up to a page boundary.
pub open spec fn page_round_up(x: int) -> int {
    x + (PAGE_BYTES - x % (PAGE_BYTES as int)) % (PAGE_BYTES as int)
}

/// `len` bytes from address `vaddr` lie in one page of the stack, which
/// spans `bottom .. top`.
pub open spec fn in_one_page(bottom: int, top: int, vaddr: int, len: int) -> bool {
    &&& bottom <= vaddr
    &&& vaddr + len <= top
    &&& vaddr % (PAGE_BYTES as int) + len <= PAGE_BYTES
}

/// The stack image and pointer after the arguments `args` are pushed from
/// `sp` down, each with a terminating NUL, and the address of each.
pub open spec fn place_args(img: Seq<u8>, bottom: int, sp: int, args: Seq<Seq<u8>>) -> (Seq<u8>, int, Seq<u64>)
    decreases args.len(),
{
    if args.len() == 0 {
        (img, sp, Seq::empty())
    } else {
        let p = place_args(img, bottom, sp, args.drop_last());
        let a = args.last();
        let sp2 = p.1 - (a.len() + 1);
        (put(p.0, sp2 - bottom, a.push(0u8)), sp2, p.2.push(sp2 as u64))
    }
}

/// Each argument, pushed from `sp` down, stays on one page and inside the
/// stack.
pub open spec fn args_fit(bottom: int, top: int, sp: int, args: Seq<Seq<u8>>) -> bool
    decreases args.len(),
{
    if args.len() == 0 {
        true
    } else {
        let p = place_args(Seq::empty(), bottom, sp, args.drop_last());
        let a = args.last();
        let sp2 = p.1 - (a.len() + 1);
        &&& args_fit(bottom, top, sp, args.drop_last())
        &&& page_round_up(p.1) == page_round_up(sp2)
        &&& bottom <= sp2
    }
}

/// Where the pieces of the initial stack go.
pub struct StackPlan {
    pub envp_entries: int,
    pub envp_ptr: int,
    pub args_end: int,
    pub argv_ptr: int,
    pub argv_slot: int,
    pub envp_slot: int,
    pub argc_slot: int,
    pub argv: Seq<u64>,
}

/// The layout of the initial stack below `top`: the stack top, IPC buffer
/// and shared page addresses, the environment array pointing at them (with a
/// NULL end), the argument strings and, if there are arguments, the word
/// aligned array of their addresses, then the environment pointer, the
/// argument array pointer (0 without arguments) and the argument count.
pub open spec fn stack_plan(bottom: int, top: int, has_args: bool, args: Seq<Seq<u8>>) -> StackPlan {
    let envp_entries = top - 24;
    let envp_ptr = envp_entries - 32;
    let argv = place_args(Seq::empty(), bottom, envp_ptr, args).2;
    let args_end = place_args(Seq::empty(), bottom, envp_ptr, args).1;
    let aligned = args_end - args_end % 8;
    let argv_ptr = if has_args { aligned - argv.len() * 8 } else { 0 };
    let below = if has_args { argv_ptr } else { envp_ptr };
    StackPlan {
        envp_entries: envp_entries,
        envp_ptr: envp_ptr,
        args_end: args_end,
        argv_ptr: argv_ptr,
        envp_slot: below - 8,
        argv_slot: below - 16,
        argc_slot: below - 20,
        argv: if has_args { argv } else { Seq::empty() },
    }
}

/// The stack image after the environment is written: the stack top, IPC
/// buffer and shared page addresses below `top`, and below them the
/// environment array pointing at each, with a NULL end.
pub open spec fn env_image(img: Seq<u8>, bottom: int, top: int, ipc: u64, rs_data: u64) -> Seq<u8> {
    let i1 = put(img, top - 8 - bottom, le64(top as u64));
    let i2 = put(i1, top - 16 - bottom, le64(ipc));
    let i3 = put(i2, top - 24 - bottom, le64(rs_data));
    let envp = seq![(top - 8) as u64, (top - 16) as u64, (top - 24) as u64, 0u64];
    put(i3, top - 56 - bottom, words_le(envp))
}

/// The stack image after the initial stack is written into `img`, the image
/// of `bottom .. top`.
#[verifier::opaque]
pub open spec fn stack_image(img: Seq<u8>, bottom: int, top: int, ipc: u64, rs_data: u64, has_args: bool, args: Seq<Seq<u8>>) -> Seq<u8> {
    let plan = stack_plan(bottom, top, has_args, args);
    let i4 = env_image(img, bottom, top, ipc, rs_data);
    let i5 = if has_args {
        put(place_args(i4, bottom, plan.envp_ptr, args).0, plan.argv_ptr - bottom, words_le(plan.argv))
    } else {
        i4
    };
    let i6 = put(i5, plan.envp_slot - bottom, le64(plan.envp_ptr as u64));
    let i7 = put(i6, plan.argv_slot - bottom, le64(plan.argv_ptr as u64));
    put(i7, plan.argc_slot - bottom, le32(plan.argv.len() as u32))
}

/// Every write of the initial stack stays on one page of the stack, and
/// the argument count fits its half word.
#[verifier::opaque]
pub open spec fn stack_fits(bottom: int, top: int, has_args: bool, args: Seq<Seq<u8>>) -> bool {
    let plan = stack_plan(bottom, top, has_args, args);
    &&& in_one_page(bottom, top, top - 8, 8)
    &&& in_one_page(bottom, top, top - 16, 8)
    &&& in_one_page(bottom, top, top - 24, 8)
    &&& in_one_page(bottom, top, plan.envp_ptr, 32)
    &&& has_args ==> args_fit(bottom, top, plan.envp_ptr, args)
    &&& has_args ==> in_one_page(bottom, top, plan.argv_ptr, (plan.argv.len() * 8) as int)
    &&& in_one_page(bottom, top, plan.envp_slot, 8)
    &&& in_one_page(bottom, top, plan.argv_slot, 8)
    &&& in_one_page(bottom, top, plan.argc_slot, 4)
    &&& plan.argv.len() <= u32::MAX
}

/// Writes `bytes` into `img` from offset `off`.
fn put_bytes(img: &mut Vec<u8>, off: usize, bytes: &[u8])
    requires
        off + bytes@.len() <= old(img)@.len(),
    ensures
        final(img)@.len() == old(img)@.len(),
        final(img)@ == put(old(img)@, off as int, bytes@),
{
    let n = img.len();
    let mut i: usize = 0;
    while i < bytes.len()
        invariant
            i <= bytes@.len(),
            off + bytes@.len() <= img@.len(),
            img@.len() == old(img)@.len(),
            img@.len() == n,
            forall|k: int| 0 <= k < off ==> #[trigger] img@[k] == old(img)@[k],
            forall|k: int| 0 <= k < i ==> #[trigger] img@[off + k] == bytes@[k],
            forall|k: int| off + i <= k < img@.len() ==> #[trigger] img@[k] == old(img)@[k],
        decreases bytes@.len() - i,
    {
        img.set(off + i, bytes[i]);
        i += 1;
    }
    proof {
        let p = put(old(img)@, off as int, bytes@);
        assert forall|k: int| 0 <= k < img@.len() implies #[trigger] img@[k] == p[k] by {
            if k < off {
            } else if k < off + bytes@.len() {
                assert(img@[off + (k - off)] == bytes@[k - off]);
            } else {
            }
        }
        assert(img@ =~= p);
    }
}

/// A vector of `n` zero bytes.
fn zeros(n: usize) -> (r: Vec<u8>)
    ensures
        r@.len() == n,
{
    let mut v: Vec<u8> = Vec::new();
    let mut i: usize = 0;
    while i < n
        invariant
            i <= n,
            v@.len() == i,
        decreases n - i,
    {
        v.push(0);
        i += 1;
    }
    v
}

proof fn lemma_words_le_len(ws: Seq<u64>)
    ensures
        words_le(ws).len() == ws.len() * 8,
    decreases ws.len(),
{
    if ws.len() > 0 {
        lemma_words_le_len(ws.drop_last());
    }
}

proof fn lemma_half_words_le_len(ws: Seq<u32>)
    ensures
        half_words_le(ws).len() == ws.len() * 4,
    decreases ws.len(),
{
    if ws.len() > 0 {
        lemma_half_words_le_len(ws.drop_last());
    }
}

/// One word's bytes are its little-endian bytes.
proof fn lemma_words_le_one(w: u64)
    ensures
        words_le(seq![w]) == le64(w),
{
    reveal_with_fuel(words_le, 2);
    assert(seq![w].drop_last() =~= Seq::<u64>::empty());
    assert(seq![w].last() == w);
    assert(Seq::<u8>::empty().add(le64(w)) =~= le64(w));
}

/// One half word's bytes are its little-endian bytes.
proof fn lemma_half_words_le_one(w: u32)
    ensures
        half_words_le(seq![w]) == le32(w),
{
    reveal_with_fuel(half_words_le, 2);
    assert(seq![w].drop_last() =~= Seq::<u32>::empty());
    assert(seq![w].last() == w);
    assert(Seq::<u8>::empty().add(le32(w)) =~= le32(w));
}

/// Writes `words` little-endian at address `vaddr` of the stack image of
/// `bottom ..`.
fn write_words_to_stack(img: &mut Vec<u8>, bottom: usize, vaddr: usize, words: &[u64])
    requires
        bottom <= vaddr,
        vaddr - bottom + words@.len() * 8 <= old(img)@.len(),
    ensures
        final(img)@.len() == old(img)@.len(),
        final(img)@ == put(old(img)@, vaddr - bottom, words_le(words@)),
{
    let _n = img.len();
    proof {
        lemma_words_le_len(words@);
    }
    let mut buf = zeros(words.len() * 8);
    write_u64_into(words, buf.as_mut_slice());
    put_bytes(img, vaddr - bottom, buf.as_slice());
}

/// Writes `data` little-endian at address `vaddr` of the stack image of
/// `bottom ..`.
fn write_half_words_to_stack(img: &mut Vec<u8>, bottom: usize, vaddr: usize, data: &[u32])
    requires
        bottom <= vaddr,
        vaddr - bottom + data@.len() * 4 <= old(img)@.len(),
    ensures
        final(img)@.len() == old(img)@.len(),
        final(img)@ == put(old(img)@, vaddr - bottom, half_words_le(data@)),
{
    let _n = img.len();
    proof {
        lemma_half_words_le_len(data@);
    }
    let mut buf = zeros(data.len() * 4);
    write_u32_into(data, buf.as_mut_slice());
    put_bytes(img, vaddr - bottom, buf.as_slice());
}

/// Writes `s` and a terminating NUL at address `vaddr` of the stack image of
/// `bottom ..`.
fn write_str_to_stack(img: &mut Vec<u8>, bottom: usize, vaddr: usize, s: &[u8])
    requires
        bottom <= vaddr,
        vaddr - bottom + s@.len() + 1 <= old(img)@.len(),
    ensures
        final(img)@.len() == old(img)@.len(),
        final(img)@ == put(old(img)@, vaddr - bottom, s@.push(0u8)),
{
    let mut buf: Vec<u8> = Vec::new();
    let mut i: usize = 0;
    while i < s.len()
        invariant
            i <= s@.len(),
            buf@ == s@.subrange(0, i as int),
        decreases s@.len() - i,
    {
        buf.push(s[i]);
        i += 1;
    }
    buf.push(0);
    proof {
        assert(buf@ =~= s@.push(0u8));
    }
    put_bytes(img, vaddr - bottom, buf.as_slice());
}

proof fn lemma_place_args_pos(img: Seq<u8>, other: Seq<u8>, bottom: int, sp: int, args: Seq<Seq<u8>>)
    ensures
        place_args(img, bottom, sp, args).1 == place_args(other, bottom, sp, args).1,
        place_args(img, bottom, sp, args).2 == place_args(other, bottom, sp, args).2,
        place_args(img, bottom, sp, args).2.len() == args.len(),
        place_args(img, bottom, sp, args).1 <= sp,
    decreases args.len(),
{
    if args.len() > 0 {
        lemma_place_args_pos(img, other, bottom, sp, args.drop_last());
    }
}

/// Pushes `args` from `sp` down onto the stack image, as `place_args` says.
fn push_args(img: &mut Vec<u8>, bottom: usize, top: usize, sp: usize, args: &Vec<Vec<u8>>, argv: &mut Vec<u64>) -> (r: usize)
    requires
        bottom <= sp <= top,
        old(img)@.len() == top - bottom,
        args_fit(bottom as int, top as int, sp as int, args@.map_values(|a: Vec<u8>| a@)),
    ensures
        final(img)@.len() == old(img)@.len(),
        r == place_args(old(img)@, bottom as int, sp as int, args@.map_values(|a: Vec<u8>| a@)).1,
        final(img)@ == place_args(old(img)@, bottom as int, sp as int, args@.map_values(|a: Vec<u8>| a@)).0,
        final(argv)@ == old(argv)@.add(place_args(old(img)@, bottom as int, sp as int, args@.map_values(|a: Vec<u8>| a@)).2),
        bottom <= r <= sp,
{
    let ghost all = args@.map_values(|a: Vec<u8>| a@);
    let mut cur = sp;
    let mut i: usize = 0;
    while i < args.len()
        invariant
            i <= args@.len(),
            all == args@.map_values(|a: Vec<u8>| a@),
            bottom <= cur <= sp <= top,
            img@.len() == top - bottom,
            args_fit(bottom as int, top as int, sp as int, all),
            cur == place_args(old(img)@, bottom as int, sp as int, all.subrange(0, i as int)).1,
            img@ == place_args(old(img)@, bottom as int, sp as int, all.subrange(0, i as int)).0,
            argv@ == old(argv)@.add(place_args(old(img)@, bottom as int, sp as int, all.subrange(0, i as int)).2),
        decreases args@.len() - i,
    {
        let a = &args[i];
        let len = a.len();
        proof {
            let t = all.subrange(0, i + 1);
            assert(t.drop_last() =~= all.subrange(0, i as int));
            assert(t.last() == a@);
            lemma_args_fit_prefix(bottom as int, top as int, sp as int, all, i + 1);
            lemma_place_args_pos(Seq::empty(), old(img)@, bottom as int, sp as int, all.subrange(0, i as int));
            lemma_page_round_up_fit(cur as int, (cur - (len + 1)) as int, bottom as int);
        }
        let next = cur - (len + 1);
        argv.push(next as u64);
        write_str_to_stack(img, bottom, next, a.as_slice());
        cur = next;
        i += 1;
        proof {
            assert(argv@ =~= old(argv)@.add(place_args(old(img)@, bottom as int, sp as int, all.subrange(0, i as int)).2));
        }
    }
    proof {
        assert(all.subrange(0, args@.len() as int) =~= all);
        lemma_place_args_pos(Seq::empty(), old(img)@, bottom as int, sp as int, all);
    }
    cur
}

proof fn lemma_args_fit_prefix(bottom: int, top: int, sp: int, args: Seq<Seq<u8>>, n: int)
    requires
        args_fit(bottom, top, sp, args),
        0 < n <= args.len(),
    ensures
        args_fit(bottom, top, sp, args.subrange(0, n)),
        ({
            let p = place_args(Seq::empty(), bottom, sp, args.subrange(0, n - 1));
            let sp2 = p.1 - (args[n - 1].len() + 1);
            page_round_up(p.1) == page_round_up(sp2) && bottom <= sp2
        }),
    decreases args.len(),
{
    if n == args.len() {
        assert(args.subrange(0, n) =~= args);
        assert(args.drop_last() =~= args.subrange(0, n - 1));
    } else {
        lemma_args_fit_prefix(bottom, top, sp, args.drop_last(), n);
        assert(args.drop_last().subrange(0, n) =~= args.subrange(0, n));
        assert(args.drop_last().subrange(0, n - 1) =~= args.subrange(0, n - 1));
    }
}

/// A string pushed below `cur` that starts in the page `cur` rounds up to
/// ends no further than `cur`'s page boundary: it stays on one page.
proof fn lemma_page_round_up_fit(cur: int, start: int, bottom: int)
    requires
        start < cur,
        page_round_up(cur) == page_round_up(start),
        bottom <= start,
    ensures
        start % (PAGE_BYTES as int) + (cur - start) <= PAGE_BYTES,
{
    let a = cur % 4096;
    let b = start % 4096;
    assert(0 <= a < 4096);
    assert(0 <= b < 4096);
    assert(cur == (cur / 4096) * 4096 + a) by (nonlinear_arith)
        requires a == cur % 4096;
    assert(start == (start / 4096) * 4096 + b) by (nonlinear_arith)
        requires b == start % 4096;
    if a == 0 {
        assert(page_round_up(cur) == cur);
    } else {
        assert(page_round_up(cur) == cur + 4096 - a);
    }
    if b == 0 {
        assert(page_round_up(start) == start);
    } else {
        assert(page_round_up(start) == start + 4096 - b);
    }
}

/// Writes the environment below `top`; returns where its array starts.
fn write_envp(img: &mut Vec<u8>, bottom: usize, top: usize, ipc_buffer: u64, rs_data_page: u64) -> (r: usize)
    requires
        bottom + 56 <= top,
        top <= u64::MAX,
        old(img)@.len() == top - bottom,
    ensures
        final(img)@.len() == old(img)@.len(),
        r == top - 56,
        final(img)@ == env_image(old(img)@, bottom as int, top as int, ipc_buffer, rs_data_page),
{
    let mut one: Vec<u64> = Vec::new();
    one.push(top as u64);
    proof {
        lemma_words_le_one(top as u64);
    }
    write_words_to_stack(img, bottom, top - 8, one.as_slice());
    one.set(0, ipc_buffer);
    proof {
        assert(one@ =~= seq![ipc_buffer]);
        lemma_words_le_one(ipc_buffer);
    }
    write_words_to_stack(img, bottom, top - 16, one.as_slice());
    one.set(0, rs_data_page);
    proof {
        assert(one@ =~= seq![rs_data_page]);
        lemma_words_le_one(rs_data_page);
    }
    write_words_to_stack(img, bottom, top - 24, one.as_slice());
    let mut envp: Vec<u64> = Vec::new();
    envp.push((top - 8) as u64);
    envp.push((top - 16) as u64);
    envp.push((top - 24) as u64);
    envp.push(0);
    proof {
        assert(envp@ =~= seq![(top - 8) as u64, (top - 16) as u64, (top - 24) as u64, 0u64]);
    }
    write_words_to_stack(img, bottom, top - 56, envp.as_slice());
    top - 56
}

/// Writes one word at `vaddr`.
fn write_word(img: &mut Vec<u8>, bottom: usize, vaddr: usize, w: u64)
    requires
        bottom <= vaddr,
        vaddr - bottom + 8 <= old(img)@.len(),
    ensures
        final(img)@.len() == old(img)@.len(),
        final(img)@ == put(old(img)@, vaddr - bottom, le64(w)),
{
    let mut one: Vec<u64> = Vec::new();
    one.push(w);
    proof {
        assert(one@ =~= seq![w]);
        lemma_words_le_one(w);
    }
    write_words_to_stack(img, bottom, vaddr, one.as_slice());
}

/// Writes the arguments below `envp_ptr`, then, word aligned below them,
/// the array of their addresses; returns where the array starts and how
/// many arguments there are.
fn write_argv(img: &mut Vec<u8>, bottom: usize, top: usize, envp_ptr: usize, all: &Vec<Vec<u8>>) -> (r: (usize, usize))
    requires
        bottom <= envp_ptr <= top,
        envp_ptr == top - 56,
        old(img)@.len() == top - bottom,
        args_fit(bottom as int, top as int, envp_ptr as int, all@.map_values(|a: Vec<u8>| a@)),
        in_one_page(
            bottom as int,
            top as int,
            stack_plan(bottom as int, top as int, true, all@.map_values(|a: Vec<u8>| a@)).argv_ptr,
            (stack_plan(bottom as int, top as int, true, all@.map_values(|a: Vec<u8>| a@)).argv.len() * 8) as int,
        ),
    ensures
        final(img)@.len() == old(img)@.len(),
        ({
            let args = all@.map_values(|a: Vec<u8>| a@);
            let plan = stack_plan(bottom as int, top as int, true, args);
            &&& r.0 == plan.argv_ptr
            &&& r.1 == plan.argv.len()
            &&& final(img)@ == put(place_args(old(img)@, bottom as int, envp_ptr as int, args).0, plan.argv_ptr - bottom, words_le(plan.argv))
        }),
{
    let ghost args = all@.map_values(|a: Vec<u8>| a@);
    let mut argv: Vec<u64> = Vec::new();
    proof {
        lemma_place_args_pos(Seq::empty(), old(img)@, bottom as int, envp_ptr as int, args);
    }
    let ghost plan = stack_plan(bottom as int, top as int, true, args);
    let mut cur = push_args(img, bottom, top, envp_ptr, all, &mut argv);
    proof {
        lemma_place_args_pos(Seq::empty(), old(img)@, bottom as int, envp_ptr as int, args);
        assert(argv@ =~= place_args(Seq::empty(), bottom as int, envp_ptr as int, args).2);
        assert(plan.argv == argv@);
        assert(cur == plan.args_end);
    }
    cur = cur - cur % 8;
    assert(plan.argv_ptr == cur - argv@.len() * 8);
    cur = cur - argv.len() * 8;
    write_words_to_stack(img, bottom, cur, argv.as_slice());
    (cur, argv.len())
}

/// Writes, below `below`, the environment pointer, the argument array
/// pointer and the argument count; returns where the count is.
fn write_tail(img: &mut Vec<u8>, bottom: usize, top: usize, below: usize, envp_ptr: u64, argv_ptr: u64, argc: u32) -> (r: usize)
    requires
        old(img)@.len() == top - bottom,
        in_one_page(bottom as int, top as int, below - 8, 8),
        in_one_page(bottom as int, top as int, below - 16, 8),
        in_one_page(bottom as int, top as int, below - 20, 4),
    ensures
        final(img)@.len() == old(img)@.len(),
        r == below - 20,
        final(img)@ == put(
            put(put(old(img)@, below - 8 - bottom, le64(envp_ptr)), below - 16 - bottom, le64(argv_ptr)),
            below - 20 - bottom,
            le32(argc),
        ),
{
    write_word(img, bottom, below - 8, envp_ptr);
    write_word(img, bottom, below - 16, argv_ptr);
    let mut a: Vec<u32> = Vec::new();
    a.push(argc);
    proof {
        assert(a@ =~= seq![argc]);
        lemma_half_words_le_one(argc);
    }
    write_half_words_to_stack(img, bottom, below - 20, a.as_slice());
    below - 20
}

proof fn lemma_fits_unpack(bottom: int, top: int, has_args: bool, args: Seq<Seq<u8>>)
    requires
        stack_fits(bottom, top, has_args, args),
    ensures
        ({
            let plan = stack_plan(bottom, top, has_args, args);
            &&& bottom + 56 <= top
            &&& plan.envp_ptr == top - 56
            &&& has_args ==> args_fit(bottom, top, top - 56, args)
            &&& has_args ==> in_one_page(bottom, top, plan.argv_ptr, (plan.argv.len() * 8) as int)
            &&& has_args ==> plan == stack_plan(bottom, top, true, args)
            &&& !has_args ==> plan.argv.len() == 0
            &&& in_one_page(bottom, top, plan.envp_slot, 8)
            &&& in_one_page(bottom, top, plan.argv_slot, 8)
            &&& in_one_page(bottom, top, plan.argc_slot, 4)
            &&& plan.argv.len() <= u32::MAX
        }),
{
    reveal(stack_fits);
}

/// Builds the initial stack of a process in `img`, the image of the stack
/// pages `bottom .. top`: the environment (stack top, IPC buffer address
/// `ipc_buffer`, shared page address `rs_data_page`), the loader's
/// arguments then the program's, their address array, and the pointers and
/// count the start-up code reads. Returns the stack pointer to start with.
#[verifier::rlimit(30)]
pub fn write_args_to_stack(
    img: &mut Vec<u8>,
    bottom: usize,
    top: usize,
    ipc_buffer: u64,
    rs_data_page: u64,
    loader_args: Option<Vec<Vec<u8>>>,
    exec_args: Option<Vec<Vec<u8>>>,
) -> (r: usize)
    requires
        bottom <= top,
        old(img)@.len() == top - bottom,
        top <= u64::MAX,
        stack_fits(bottom as int, top as int, loader_args is Some || exec_args is Some, all_args(loader_args, exec_args)),
    ensures
        final(img)@ == stack_image(
            old(img)@,
            bottom as int,
            top as int,
            ipc_buffer,
            rs_data_page,
            loader_args is Some || exec_args is Some,
            all_args(loader_args, exec_args),
        ),
        r == stack_plan(bottom as int, top as int, loader_args is Some || exec_args is Some, all_args(loader_args, exec_args)).argc_slot,
{
    let has_args = loader_args.is_some() || exec_args.is_some();
    let ghost args = all_args(loader_args, exec_args);
    let ghost plan = stack_plan(bottom as int, top as int, has_args, args);
    let ghost img0 = img@;
    proof {
        lemma_fits_unpack(bottom as int, top as int, has_args, args);
    }
    let envp_ptr = write_envp(img, bottom, top, ipc_buffer, rs_data_page);
    let ghost i4 = img@;
    let all = concat_args(loader_args, exec_args);
    let (argv_ptr, argc) = if has_args {
        write_argv(img, bottom, top, envp_ptr, &all)
    } else {
        (0, 0)
    };
    let ghost i5 = img@;
    let below = if has_args { argv_ptr } else { envp_ptr };
    proof {
        assert(below - 8 == plan.envp_slot);
        assert(argc == plan.argv.len());
    }
    let r = write_tail(img, bottom, top, below, envp_ptr as u64, argv_ptr as u64, argc as u32);
    proof {
        reveal(stack_image);
        assert(i4 == env_image(img0, bottom as int, top as int, ipc_buffer, rs_data_page));
    }
    r
}

/// The loader's arguments followed by the program's.
fn concat_args(loader_args: Option<Vec<Vec<u8>>>, exec_args: Option<Vec<Vec<u8>>>) -> (all: Vec<Vec<u8>>)
    ensures
        all@.map_values(|a: Vec<u8>| a@) == all_args(loader_args, exec_args),
{
    let mut all: Vec<Vec<u8>> = Vec::new();
    match loader_args {
        Some(v) => {
            all = v;
        },
        None => {},
    }
    match exec_args {
        Some(mut v) => {
            all.append(&mut v);
        },
        None => {},
    }
    proof {
        assert(all@.map_values(|a: Vec<u8>| a@) =~= all_args(loader_args, exec_args));
    }
    all
}

/// The loader's arguments followed by the program's, as byte strings.
pub open spec fn all_args(loader_args: Option<Vec<Vec<u8>>>, exec_args: Option<Vec<Vec<u8>>>) -> Seq<Seq<u8>> {
    let l = match loader_args {
        Some(v) => v@.map_values(|a: Vec<u8>| a@),
        None => Seq::empty(),
    };
    let e = match exec_args {
        Some(v) => v@.map_values(|a: Vec<u8>| a@),
        None => Seq::empty(),
    };
    l.add(e)
}

/// Slots of the process table.
pub const MAX_PROCS: usize = 64;

/// The table of processes, one slot per process identifier.
pub struct ProcessTable<T> {
    procs: Vec<Option<T>>,
}

impl<T> ProcessTable<T> {
    /// The slots, by process identifier.
    pub closed spec fn slots(&self) -> Seq<Option<T>> {
        self.procs@
    }

    /// A table with every slot free.
    pub fn new() -> (t: Self)
        ensures
            t.slots().len() == MAX_PROCS,
            forall|i: int| 0 <= i < MAX_PROCS ==> #[trigger] t.slots()[i] is None,
    {
        let mut procs: Vec<Option<T>> = Vec::new();
        let mut i: usize = 0;
        while i < MAX_PROCS
            invariant
                i <= MAX_PROCS,
                procs@.len() == i,
                forall|j: int| 0 <= j < i ==> #[trigger] procs@[j] is None,
            decreases MAX_PROCS - i,
        {
            procs.push(None);
            i += 1;
        }
        ProcessTable { procs: procs }
    }

    /// The process in slot `i`.
    pub fn procs_get(&self, i: usize) -> (r: &Option<T>)
        requires
            i < self.slots().len(),
        ensures
            *r == self.slots()[i as int],
    {
        &self.procs[i]
    }

    /// Puts `proc` in slot `i`.
    pub fn procs_set(&mut self, i: usize, proc: Option<T>)
        requires
            i < old(self).slots().len(),
        ensures
            final(self).slots() == old(self).slots().update(i as int, proc),
    {
        self.procs.set(i, proc);
    }

    /// The lowest free slot, if any.
    pub fn find_free_proc(&self) -> (r: Option<usize>)
        ensures
            r matches Some(i) ==> i < self.slots().len() && self.slots()[i as int] is None && forall|j: int|
                0 <= j < i ==> #[trigger] self.slots()[j] is Some,
            r is None ==> forall|j: int| 0 <= j < self.slots().len() ==> #[trigger] self.slots()[j] is Some,
    {
        let mut i: usize = 0;
        while i < self.procs.len()
            invariant
                i <= self.procs@.len(),
                forall|j: int| 0 <= j < i ==> #[trigger] self.procs@[j] is Some,
            decreases self.procs@.len() - i,
        {
            if self.procs[i].is_none() {
                return Some(i);
            }
            i += 1;
        }
        None
    }
}

/// A window of a process's address space: its identifier and span.
#[derive(Clone, Copy, Debug, PartialEq, Eq, Structural)]
pub struct WindowSpan {
    pub id: usize,
    pub start: usize,
    pub size: usize,
}

/// Position of the base address among the arguments of a window-creation
/// request.
pub const WINDOW_CREATE_ARG_BASE_VADDR: usize = 0;

/// The span of `w` ends within a machine word.
pub open spec fn span_fits(w: WindowSpan) -> bool {
    w.start + w.size <= usize::MAX
}

/// `start .. start + size` and `w` share a byte.
pub open spec fn overlaps(start: int, size: int, w: WindowSpan) -> bool {
    start < w.start + w.size && w.start < start + size
}

/// `vaddr` lies in `w`.
pub open spec fn contains(w: WindowSpan, vaddr: int) -> bool {
    vaddr >= w.start && vaddr < w.start + w.size
}

/// The first window of `ws` that `start .. start + size` overlaps.
pub open spec fn first_overlapping(ws: Seq<WindowSpan>, start: int, size: int) -> Option<WindowSpan>
    decreases ws.len(),
{
    if ws.len() == 0 {
        None
    } else if overlaps(start, size, ws[0]) {
        Some(ws[0])
    } else {
        first_overlapping(ws.drop_first(), start, size)
    }
}

/// The first window of `ws` that contains `vaddr`.
pub open spec fn first_containing(ws: Seq<WindowSpan>, vaddr: int) -> Option<WindowSpan>
    decreases ws.len(),
{
    if ws.len() == 0 {
        None
    } else if contains(ws[0], vaddr) {
        Some(ws[0])
    } else {
        first_containing(ws.drop_first(), vaddr)
    }
}

/// The first position of `ws` holding window `id`.
pub open spec fn position_of(ws: Seq<WindowSpan>, id: usize) -> Option<int>
    decreases ws.len(),
{
    if ws.len() == 0 {
        None
    } else if ws[0].id == id {
        Some(0)
    } else {
        match position_of(ws.drop_first(), id) {
            Some(i) => Some(i + 1),
            None => None,
        }
    }
}

/// The windows of a process: those it was started with and those it created.
pub struct UserProcess {
    pid: usize,
    initial_windows: Vec<WindowSpan>,
    windows: Vec<WindowSpan>,
}

proof fn lemma_first_overlapping_step(ws: Seq<WindowSpan>, i: int, start: int, size: int)
    requires
        0 <= i < ws.len(),
    ensures
        first_overlapping(ws.subrange(i, ws.len() as int), start, size) == (if overlaps(start, size, ws[i]) {
            Some(ws[i])
        } else {
            first_overlapping(ws.subrange(i + 1, ws.len() as int), start, size)
        }),
{
    let t = ws.subrange(i, ws.len() as int);
    assert(t[0] == ws[i]);
    assert(t.drop_first() =~= ws.subrange(i + 1, ws.len() as int));
}

proof fn lemma_first_containing_step(ws: Seq<WindowSpan>, i: int, vaddr: int)
    requires
        0 <= i < ws.len(),
    ensures
        first_containing(ws.subrange(i, ws.len() as int), vaddr) == (if contains(ws[i], vaddr) {
            Some(ws[i])
        } else {
            first_containing(ws.subrange(i + 1, ws.len() as int), vaddr)
        }),
{
    let t = ws.subrange(i, ws.len() as int);
    assert(t[0] == ws[i]);
    assert(t.drop_first() =~= ws.subrange(i + 1, ws.len() as int));
}

proof fn lemma_position_step(ws: Seq<WindowSpan>, i: int, id: usize)
    requires
        0 <= i < ws.len(),
        forall|j: int| 0 <= j < i ==> (#[trigger] ws[j]).id != id,
    ensures
        ws[i].id == id ==> position_of(ws, id) == Some(i),
        ws[i].id != id ==> forall|j: int| 0 <= j < i + 1 ==> (#[trigger] ws[j]).id != id,
    decreases i,
{
    if i > 0 {
        let t = ws.drop_first();
        assert forall|j: int| 0 <= j < i - 1 implies (#[trigger] t[j]).id != id by {
            assert(t[j] == ws[j + 1]);
        }
        assert(t[i - 1] == ws[i]);
        lemma_position_step(t, i - 1, id);
        assert(ws[0].id != id);
    }
}

proof fn lemma_position_none(ws: Seq<WindowSpan>, id: usize)
    requires
        forall|j: int| 0 <= j < ws.len() ==> (#[trigger] ws[j]).id != id,
    ensures
        position_of(ws, id) is None,
    decreases ws.len(),
{
    if ws.len() > 0 {
        let t = ws.drop_first();
        assert forall|j: int| 0 <= j < t.len() implies (#[trigger] t[j]).id != id by {
            assert(t[j] == ws[j + 1]);
        }
        lemma_position_none(t, id);
        assert(ws[0].id != id);
    }
}

impl UserProcess {
    /// Every window's span ends within a machine word.
    pub closed spec fn wf(&self) -> bool {
        &&& forall|i: int| 0 <= i < self.initial_windows@.len() ==> span_fits(#[trigger] self.initial_windows@[i])
        &&& forall|i: int| 0 <= i < self.windows@.len() ==> span_fits(#[trigger] self.windows@[i])
    }

    /// The process identifier.
    pub closed spec fn spec_pid(&self) -> usize {
        self.pid
    }

    /// The process identifier.
    pub fn pid(&self) -> (r: usize)
        ensures
            r == self.spec_pid(),
    {
        self.pid
    }

    /// The windows the process was started with.
    pub closed spec fn spec_initial_windows(&self) -> Seq<WindowSpan> {
        self.initial_windows@
    }

    /// The windows the process created, in the order the table keeps them.
    pub closed spec fn spec_windows(&self) -> Seq<WindowSpan> {
        self.windows@
    }

    /// A process `pid` started with `initial_windows`, having created none.
    pub fn new(pid: usize, initial_windows: Vec<WindowSpan>) -> (p: Self)
        requires
            forall|i: int| 0 <= i < initial_windows@.len() ==> span_fits(#[trigger] initial_windows@[i]),
        ensures
            p.wf(),
            p.spec_pid() == pid,
            p.spec_initial_windows() == initial_windows@,
            p.spec_windows().len() == 0,
    {
        UserProcess { pid: pid, initial_windows: initial_windows, windows: Vec::new() }
    }

    /// Checks a request to create a window of `size` bytes at `base_vaddr`:
    /// the base must be page aligned (else `AlignmentError` on the base
    /// argument, the first), and the span must overlap no created window
    /// (else `InvalidArguments`).
    pub fn window_create_check(&self, base_vaddr: usize, size: usize) -> (r: Result<(), InvocationError>)
        requires
            self.wf(),
            base_vaddr % 4096 == 0 ==> base_vaddr + size <= usize::MAX,
        ensures
            base_vaddr % 4096 != 0 ==> r == Err::<(), InvocationError>(
                InvocationError::AlignmentError { which_arg: WINDOW_CREATE_ARG_BASE_VADDR },
            ),
            base_vaddr % 4096 == 0 ==> (r is Ok <==> first_overlapping(
                self.spec_windows(),
                base_vaddr as int,
                size as int,
            ) is None),
            base_vaddr % 4096 == 0 && r is Err ==> r == Err::<(), InvocationError>(InvocationError::InvalidArguments),
    {
        if base_vaddr % PAGE_BYTES != 0 {
            return Err(InvocationError::AlignmentError { which_arg: WINDOW_CREATE_ARG_BASE_VADDR });
        }
        if self.overlapping_window(base_vaddr, size).is_some() {
            return Err(InvocationError::InvalidArguments);
        }
        Ok(())
    }

    /// Creates window `id` of `size` bytes at `base_vaddr` when
    /// `window_create_check` passes; otherwise fails with its error and
    /// changes nothing.
    pub fn create_window(&mut self, id: usize, base_vaddr: usize, size: usize) -> (r: Result<(), InvocationError>)
        requires
            old(self).wf(),
            base_vaddr % 4096 == 0 ==> base_vaddr + size <= usize::MAX,
        ensures
            final(self).wf(),
            base_vaddr % 4096 != 0 ==> r == Err::<(), InvocationError>(
                InvocationError::AlignmentError { which_arg: WINDOW_CREATE_ARG_BASE_VADDR },
            ),
            base_vaddr % 4096 == 0 ==> (r is Ok <==> first_overlapping(
                old(self).spec_windows(),
                base_vaddr as int,
                size as int,
            ) is None),
            base_vaddr % 4096 == 0 && r is Err ==> r == Err::<(), InvocationError>(InvocationError::InvalidArguments),
            r is Err ==> *final(self) == *old(self),
            r is Ok ==> final(self).spec_windows() == old(self).spec_windows().push(
                WindowSpan { id: id, start: base_vaddr, size: size },
            ) && final(self).spec_initial_windows() == old(self).spec_initial_windows() && final(self).spec_pid()
                == old(self).spec_pid(),
    {
        let c = self.window_create_check(base_vaddr, size);
        match c {
            Err(e) => Err(e),
            Ok(()) => {
                self.add_window_unchecked(WindowSpan { id: id, start: base_vaddr, size: size });
                Ok(())
            },
        }
    }

    /// The first created window that shares a byte with `start .. start + size`.
    pub fn overlapping_window(&self, start: usize, size: usize) -> (r: Option<WindowSpan>)
        requires
            self.wf(),
            start + size <= usize::MAX,
        ensures
            r == first_overlapping(self.spec_windows(), start as int, size as int),
    {
        let ghost ws = self.windows@;
        let mut i: usize = 0;
        proof {
            assert(ws.subrange(0, ws.len() as int) =~= ws);
        }
        while i < self.windows.len()
            invariant
                self.wf(),
                ws == self.windows@,
                i <= ws.len(),
                start + size <= usize::MAX,
                first_overlapping(ws, start as int, size as int) == first_overlapping(
                    ws.subrange(i as int, ws.len() as int),
                    start as int,
                    size as int,
                ),
            decreases ws.len() - i,
        {
            let w = self.windows[i];
            proof {
                lemma_first_overlapping_step(ws, i as int, start as int, size as int);
                assert(span_fits(ws[i as int]));
            }
            if start < w.start + w.size && w.start < start + size {
                return Some(w);
            }
            i += 1;
        }
        proof {
            assert(ws.subrange(ws.len() as int, ws.len() as int) =~= Seq::<WindowSpan>::empty());
            assert(ws.subrange(0, ws.len() as int) =~= ws);
        }
        None
    }

    /// The first window containing `vaddr`: those the process was started
    /// with come first.
    pub fn find_window_containing(&self, vaddr: usize) -> (r: Option<WindowSpan>)
        requires
            self.wf(),
        ensures
            r == (match first_containing(self.spec_initial_windows(), vaddr as int) {
                Some(w) => Some(w),
                None => first_containing(self.spec_windows(), vaddr as int),
            }),
    {
        let r0 = find_containing(&self.initial_windows, vaddr);
        if r0.is_some() {
            return r0;
        }
        find_containing(&self.windows, vaddr)
    }

    /// Adds window `window`, without checking it against the others.
    pub fn add_window_unchecked(&mut self, window: WindowSpan)
        requires
            old(self).wf(),
            span_fits(window),
        ensures
            final(self).wf(),
            final(self).spec_windows() == old(self).spec_windows().push(window),
            final(self).spec_initial_windows() == old(self).spec_initial_windows(),
            final(self).spec_pid() == old(self).spec_pid(),
    {
        self.windows.push(window);
    }

    /// Removes the first created window with identifier `id`, putting the
    /// last window in its place; nothing changes if there is none.
    pub fn remove_window(&mut self, id: usize)
        requires
            old(self).wf(),
        ensures
            final(self).wf(),
            final(self).spec_initial_windows() == old(self).spec_initial_windows(),
            final(self).spec_pid() == old(self).spec_pid(),
            final(self).spec_windows() == (match position_of(old(self).spec_windows(), id) {
                Some(i) => old(self).spec_windows().update(i, old(self).spec_windows().last()).drop_last(),
                None => old(self).spec_windows(),
            }),
    {
        let ghost ws = self.windows@;
        let mut i: usize = 0;
        while i < self.windows.len()
            invariant
                ws == self.windows@,
                *self == *old(self),
                old(self).wf(),
                i <= ws.len(),
                forall|j: int| 0 <= j < i ==> (#[trigger] ws[j]).id != id,
            decreases ws.len() - i,
        {
            proof {
                lemma_position_step(ws, i as int, id);
            }
            if self.windows[i].id == id {
                self.windows.swap_remove(i);
                proof {
                    let nw = self.windows@;
                    assert(span_fits(ws[ws.len() - 1]));
                    assert forall|k: int| 0 <= k < nw.len() implies span_fits(#[trigger] nw[k]) by {
                        if k == i {
                            assert(nw[k] == ws[ws.len() - 1]);
                        } else {
                            assert(nw[k] == ws[k]);
                            assert(span_fits(ws[k]));
                        }
                    }
                }
                return;
            }
            i += 1;
        }
        proof {
            lemma_position_none(ws, id);
        }
    }
}

/// The first window of `ws` containing `vaddr`.
fn find_containing(ws: &Vec<WindowSpan>, vaddr: usize) -> (r: Option<WindowSpan>)
    requires
        forall|i: int| 0 <= i < ws@.len() ==> span_fits(#[trigger] ws@[i]),
    ensures
        r == first_containing(ws@, vaddr as int),
{
    let mut i: usize = 0;
    proof {
        assert(ws@.subrange(0, ws@.len() as int) =~= ws@);
    }
    while i < ws.len()
        invariant
            i <= ws@.len(),
            forall|k: int| 0 <= k < ws@.len() ==> span_fits(#[trigger] ws@[k]),
            first_containing(ws@, vaddr as int) == first_containing(ws@.subrange(i as int, ws@.len() as int), vaddr as int),
        decreases ws@.len() - i,
    {
        let w = ws[i];
        proof {
            lemma_first_containing_step(ws@, i as int, vaddr as int);
            assert(span_fits(ws@[i as int]));
        }
        if vaddr >= w.start && vaddr < w.start + w.size {
            return Some(w);
        }
        i += 1;
    }
    proof {
        assert(ws@.subrange(ws@.len() as int, ws@.len() as int) =~= Seq::<WindowSpan>::empty());
    }
    None
}

/// Adding a window with a fresh identifier and then removing that
/// identifier leaves the process's windows as they were.
pub proof fn law_add_then_remove_window(ws: Seq<WindowSpan>, w: WindowSpan)
    requires
        forall|j: int| 0 <= j < ws.len() ==> (#[trigger] ws[j]).id != w.id,
    ensures
        position_of(ws.push(w), w.id) == Some(ws.len() as int),
        ws.push(w).update(ws.len() as int, ws.push(w).last()).drop_last() == ws,
{
    let t = ws.push(w);
    assert forall|j: int| 0 <= j < ws.len() implies (#[trigger] t[j]).id != w.id by {
        assert(t[j] == ws[j]);
    }
    lemma_position_step(t, ws.len() as int, w.id);
    assert(t.update(ws.len() as int, t.last()).drop_last() =~= ws);
}

} // verus!
