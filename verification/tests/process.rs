use smos::start::{start_begin, start_step, undo_steps, StartAction, StartEvent, StartStep, Undo, START_STEPS};
use smos::proc::{write_args_to_stack, ProcessTable, UserProcess, WindowSpan, MAX_PROCS};

const TOP: usize = 0x9000_0000;
const BOTTOM: usize = TOP - 2 * 4096;

fn word(img: &[u8], addr: usize) -> u64 {
    let o = addr - BOTTOM;
    u64::from_le_bytes(img[o..o + 8].try_into().unwrap())
}

fn half(img: &[u8], addr: usize) -> u32 {
    let o = addr - BOTTOM;
    u32::from_le_bytes(img[o..o + 4].try_into().unwrap())
}

#[test]
fn stack_holds_environment_and_arguments() {
    let mut img = vec![0xAAu8; TOP - BOTTOM];
    let loader = Some(vec![b"ld".to_vec()]);
    let exec = Some(vec![b"prog".to_vec(), b"x".to_vec()]);
    let sp = write_args_to_stack(&mut img, BOTTOM, TOP, 0xA000_0000, 0xB000_0000, loader, exec);
    assert_eq!(sp, 0x8FFF_FF8C);
    // Stack top, IPC buffer and shared page, then the environment array.
    assert_eq!(word(&img, TOP - 8), 0x9000_0000);
    assert_eq!(word(&img, TOP - 16), 0xA000_0000);
    assert_eq!(word(&img, TOP - 24), 0xB000_0000);
    assert_eq!(word(&img, 0x8FFF_FFC8), 0x8FFF_FFF8);
    assert_eq!(word(&img, 0x8FFF_FFD0), 0x8FFF_FFF0);
    assert_eq!(word(&img, 0x8FFF_FFD8), 0x8FFF_FFE8);
    assert_eq!(word(&img, 0x8FFF_FFE0), 0);
    // The argument strings, each with its NUL.
    let o = 0x8FFF_FFBE - BOTTOM;
    assert_eq!(&img[o..o + 10], b"x\0prog\0ld\0");
    // Padding to a word boundary is left alone.
    let p = 0x8FFF_FFB8 - BOTTOM;
    assert_eq!(&img[p..p + 6], &[0xAA; 6]);
    // The argument array, the two pointers and the count.
    assert_eq!(word(&img, 0x8FFF_FFA0), 0x8FFF_FFC5);
    assert_eq!(word(&img, 0x8FFF_FFA8), 0x8FFF_FFC0);
    assert_eq!(word(&img, 0x8FFF_FFB0), 0x8FFF_FFBE);
    assert_eq!(word(&img, 0x8FFF_FF98), 0x8FFF_FFC8);
    assert_eq!(word(&img, 0x8FFF_FF90), 0x8FFF_FFA0);
    assert_eq!(half(&img, 0x8FFF_FF8C), 3);
    // Nothing below the stack pointer is touched.
    assert!(img[..0x8FFF_FF8C - BOTTOM].iter().all(|b| *b == 0xAA));
}

#[test]
fn stack_without_arguments_has_null_argument_array() {
    let mut img = vec![0u8; TOP - BOTTOM];
    let sp = write_args_to_stack(&mut img, BOTTOM, TOP, 1, 2, None, None);
    assert_eq!(sp, TOP - 76);
    assert_eq!(word(&img, TOP - 64), (TOP - 56) as u64);
    assert_eq!(word(&img, TOP - 72), 0);
    assert_eq!(half(&img, TOP - 76), 0);
}

#[test]
fn empty_argument_list_still_gets_an_array_pointer() {
    let mut img = vec![0u8; TOP - BOTTOM];
    let sp = write_args_to_stack(&mut img, BOTTOM, TOP, 1, 2, Some(vec![]), None);
    assert_eq!(sp, TOP - 76);
    assert_eq!(word(&img, TOP - 72), (TOP - 56) as u64);
}

fn w(id: usize, start: usize, size: usize) -> WindowSpan {
    WindowSpan { id, start, size }
}

#[test]
fn overlapping_window_checks_start_and_end() {
    let mut p = UserProcess::new(3, vec![]);
    assert_eq!(p.pid(), 3);
    p.add_window_unchecked(w(1, 0x10000, 0x2000));
    assert_eq!(p.overlapping_window(0x11000, 0x100), Some(w(1, 0x10000, 0x2000)));
    assert_eq!(p.overlapping_window(0xF000, 0x2000), Some(w(1, 0x10000, 0x2000)));
    // A range that holds the whole window overlaps it too.
    assert_eq!(p.overlapping_window(0xF000, 0x3000), Some(w(1, 0x10000, 0x2000)));
    assert_eq!(p.overlapping_window(0xF000, 0x4000), Some(w(1, 0x10000, 0x2000)));
    assert_eq!(p.overlapping_window(0xF000, 0x1000), None);
    assert_eq!(p.overlapping_window(0x12000, 0x1000), None);
}

#[test]
fn windows_are_found_initial_ones_first() {
    let mut p = UserProcess::new(1, vec![w(10, 0x1000, 0x1000)]);
    p.add_window_unchecked(w(11, 0x1000, 0x4000));
    p.add_window_unchecked(w(12, 0x8000, 0x1000));
    assert_eq!(p.find_window_containing(0x1800), Some(w(10, 0x1000, 0x1000)));
    assert_eq!(p.find_window_containing(0x2800), Some(w(11, 0x1000, 0x4000)));
    assert_eq!(p.find_window_containing(0x8FFF), Some(w(12, 0x8000, 0x1000)));
    assert_eq!(p.find_window_containing(0x9000), None);
}

#[test]
fn removing_a_window_moves_the_last_into_its_place() {
    let mut p = UserProcess::new(1, vec![]);
    p.add_window_unchecked(w(1, 0x1000, 0x1000));
    p.add_window_unchecked(w(2, 0x3000, 0x1000));
    p.add_window_unchecked(w(3, 0x5000, 0x1000));
    p.remove_window(1);
    assert_eq!(p.find_window_containing(0x1000), None);
    assert_eq!(p.overlapping_window(0x5000, 0x10), Some(w(3, 0x5000, 0x1000)));
    p.remove_window(42);
    assert_eq!(p.find_window_containing(0x3000), Some(w(2, 0x3000, 0x1000)));
}

#[test]
fn process_table_finds_lowest_free_slot() {
    let mut t: ProcessTable<u32> = ProcessTable::new();
    assert_eq!(t.find_free_proc(), Some(0));
    t.procs_set(0, Some(5));
    t.procs_set(1, Some(6));
    assert_eq!(t.find_free_proc(), Some(2));
    assert_eq!(*t.procs_get(1), Some(6));
    t.procs_set(0, None);
    assert_eq!(t.find_free_proc(), Some(0));
    for i in 0..MAX_PROCS {
        t.procs_set(i, Some(1));
    }
    assert_eq!(t.find_free_proc(), None);
}

#[test]
fn starting_a_process_takes_its_steps_in_order_and_undoes_on_failure() {
    let (mut s, a) = start_begin(5);
    assert_eq!(a, StartAction::Take { step: StartStep::RetypeVSpace });
    let mut steps = vec![];
    loop {
        let (n, a) = start_step(s, StartEvent::StepDone);
        s = n;
        match a {
            StartAction::Take { step } => steps.push(step),
            StartAction::Finish { pid } => {
                assert_eq!(pid, 5);
                break;
            }
            StartAction::Abandon { .. } => panic!("no step failed"),
        }
    }
    assert_eq!(steps.len(), START_STEPS - 1);
    assert_eq!(steps[6], StartStep::MintEp { badge: 5 });
    assert_eq!(steps[14], StartStep::MintFaultEp { badge: 5 | 2 });
    assert_eq!(steps[24], StartStep::WriteRegisters);
    let s9 = smos::start::StartState { pid: 5, step: 9 };
    let (_, a) = start_step(s9, StartEvent::StepFailed { err: smos::error::Sel4Error::NotEnoughMemory });
    assert_eq!(a, StartAction::Abandon { failed: 9, err: smos::error::Sel4Error::NotEnoughMemory });
    assert_eq!(
        undo_steps(9),
        vec![
            Undo::FreeSelfSlot,
            Undo::DeleteEp,
            Undo::FreeEpSlotInRoot,
            Undo::DeleteIpcCap,
            Undo::FreeIpcSlot,
            Undo::FreeIpcFrame,
            Undo::DeallocVSpace
        ]
    );
    assert_eq!(undo_steps(2), vec![]);
    assert_eq!(undo_steps(25), vec![]);
}
