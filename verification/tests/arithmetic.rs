use smos::arith::LOG_BASE_2;
use smos::page::{BIT, BYTES_TO_4K_PAGES, BYTES_TO_SIZE_BITS, BYTES_TO_SIZE_BITS_PAGES, PAGE_ALIGN_4K, SIZE_BITS_TO_BYTES};
use smos::util::{decode_entry_type, EntryType, ALIGN_DOWN, ALIGN_UP, MASK};
use smos::clock_arm::{configure_timeout_at, cycles_and_freq_to_ns, disable_timer, get_time, ns_and_freq_to_cycles, timer_enable, timer_or_ctrl};
use smos::clock_meson::{timeout_irq, TimeoutID};

#[test]
fn log_base_2_rounds_down() {
    assert_eq!(LOG_BASE_2(1), 0);
    assert_eq!(LOG_BASE_2(2), 1);
    assert_eq!(LOG_BASE_2(4096), 12);
    assert_eq!(LOG_BASE_2(4097), 12);
    assert_eq!(LOG_BASE_2(usize::MAX), (usize::BITS - 1) as usize);
}

#[test]
fn page_size_helpers() {
    assert_eq!(BIT(12), 4096);
    assert_eq!(BYTES_TO_SIZE_BITS(4096), 12);
    assert_eq!(BYTES_TO_SIZE_BITS(6000), 12);
    assert_eq!(BYTES_TO_SIZE_BITS_PAGES(5000, 12), 2);
    assert_eq!(BYTES_TO_SIZE_BITS_PAGES(4096, 12), 1);
    assert_eq!(BYTES_TO_4K_PAGES(0), 0);
    assert_eq!(BYTES_TO_4K_PAGES(4096), 1);
    assert_eq!(BYTES_TO_4K_PAGES(4097), 2);
    assert_eq!(SIZE_BITS_TO_BYTES(21), 0x20_0000);
    assert_eq!(PAGE_ALIGN_4K(0x1234), 0x1000);
    assert_eq!(PAGE_ALIGN_4K(0x2000), 0x2000);
}

#[test]
fn alignment_helpers() {
    assert_eq!(ALIGN_DOWN(0x1234, 0x1000), 0x1000);
    assert_eq!(ALIGN_UP(0x1234, 0x1000), 0x2000);
    assert_eq!(ALIGN_UP(0x1000, 0x1000), 0x1000);
    assert_eq!(ALIGN_UP(0, 8), 0);
    assert_eq!(MASK(12), 0xfff);
    assert_eq!(MASK(0), 0);
}

#[test]
fn badges_decode_by_kind() {
    assert_eq!(decode_entry_type(0x8000_0000_0000_0005), EntryType::Irq);
    assert_eq!(decode_entry_type(0x10), EntryType::RSInvocation(0x10));
    assert_eq!(decode_entry_type(0x12), EntryType::Fault(0x10));
    assert_eq!(decode_entry_type(0x15), EntryType::BFSInvocation(0x10));
    assert_eq!(decode_entry_type(0x21), EntryType::RSInvocation(0x20));
}

#[test]
fn cycle_conversions_follow_frequency_class() {
    // A frequency in whole GHz divides by the frequency and by 10^9 again.
    assert_eq!(cycles_and_freq_to_ns(2_000_000_000, 1_000_000_000), 0);
    // A frequency in whole MHz scales by 1000 over the MHz.
    assert_eq!(cycles_and_freq_to_ns(36_000_000, 24_000_000), 1_500_000_000);
    // 62.5 MHz is not in whole MHz: cycles * 10^9 / freq.
    assert_eq!(cycles_and_freq_to_ns(62_500_000, 62_500_000), 1_000_000_000);
    // Otherwise nanoseconds are cycles * 10^9 / freq.
    assert_eq!(cycles_and_freq_to_ns(32768, 32768), 1_000_000_000);
    assert_eq!(cycles_and_freq_to_ns(100, 32768), 3_051_757);
    assert_eq!(get_time(100, 32768), 3_051_757);
    assert_eq!(ns_and_freq_to_cycles(1_000_000_000, 62_500_000), 62_500_000);
    assert_eq!(configure_timeout_at(0, 2_000_000_000, 62_500_000), 125_000_000);
}

#[test]
fn timer_control_bits() {
    assert_eq!(timer_or_ctrl(4, 1), 5);
    assert_eq!(timer_enable(0b100), 0b101);
    assert_eq!(disable_timer(0b111), 0b110);
    assert_eq!(disable_timer(0b110), 0b110);
}

#[test]
fn meson_timer_fields() {
    assert_eq!(TimeoutID::TimerA.irq(), 42);
    assert_eq!(TimeoutID::TimerB.irq(), 43);
    assert_eq!(TimeoutID::TimerC.irq(), 38);
    assert_eq!(TimeoutID::TimerD.irq(), 61);
    assert_eq!(TimeoutID::TimerC.clk(), 4);
    assert_eq!(TimeoutID::TimerD.en(), 0x8_0000);
    assert_eq!(TimeoutID::TimerB.mode(), 0x2000);
    assert_eq!(timeout_irq(), 42);
}
