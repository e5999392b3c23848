//! Arithmetic of the ARM generic timer. The registers themselves are read
//! and written by the caller; these functions compute what is read from
//! them and what is written to them.
#![allow(non_snake_case)]

use vstd::prelude::*;

verus! {

/// Enable bit of the timer control register.
pub const TIMER_ENABLE: u64 = 1;
/// Interrupt number of the timer.
pub const TIMEOUT_IRQ: usize = 30;

pub const HZ: u64 = 1;
pub const KHZ: u64 = 1000;
pub const MHZ: u64 = 1_000_000;
pub const GHZ: u64 = 1_000_000_000;
pub const MS_IN_S: u64 = 1000;
pub const US_IN_MS: u64 = 1000;
pub const US_IN_S: u64 = 1_000_000;
pub const NS_IN_S: u64 = 1_000_000_000;

/// The count `cycles_and_freq_to_ns` gives: the conversion is chosen by
/// which power of ten divides the frequency (see that function for the
/// whole-GHz case).
pub open spec fn spec_cycles_to_ns(cycles: int, freq: int) -> int {
    if freq % 1_000_000_000 == 0 {
        cycles / freq / 1_000_000_000
    } else if freq % 1_000_000 == 0 {
        cycles * 1000 / (freq / 1_000_000)
    } else {
        cycles * 1_000_000_000 / freq
    }
}

/// `cycles_and_freq_to_ns` stays within 64 bits on these inputs.
pub open spec fn cycles_to_ns_fits(cycles: int, freq: int) -> bool {
    &&& freq > 0
    &&& freq % 1_000_000_000 != 0 && freq % 1_000_000 == 0 ==> cycles * 1000 <= u64::MAX
    &&& freq % 1_000_000_000 != 0 && freq % 1_000_000 != 0 ==> freq * 1000 <= u64::MAX
        && cycles * 1_000_000_000 <= u64::MAX
}

/// Converts a cycle count of a timer running at `freq` Hz to nanoseconds.
/// For a frequency that is a whole number of GHz the count is divided by
/// the frequency and again by 10^9 (not multiplied), so the result there is
/// the whole seconds divided by 10^9: 0 for any count below 10^18 at 1 GHz.
pub fn cycles_and_freq_to_ns(cycles: u64, freq: u64) -> (r: u64)
    requires
        cycles_to_ns_fits(cycles as int, freq as int),
    ensures
        r == spec_cycles_to_ns(cycles as int, freq as int),
{
    if freq % GHZ == 0 {
        return cycles / freq / GHZ;
    } else if freq % MHZ == 0 {
        return cycles * MS_IN_S / (freq / MHZ);
    } else if freq * KHZ == 0 {
        return (cycles * US_IN_S) / (freq / KHZ);
    } else {
        return (cycles * NS_IN_S) / freq;
    }
}

/// Converts nanoseconds to cycles of a timer running at `freq` Hz.
pub fn ns_and_freq_to_cycles(ns: u64, freq: u64) -> (r: u64)
    requires
        ns * freq <= u64::MAX,
    ensures
        r == (ns * freq) / 1_000_000_000,
{
    (ns * freq) / NS_IN_S
}

/// The time in nanoseconds given the counter and frequency registers.
pub fn get_time(ticks: u64, freq: u64) -> (r: u64)
    requires
        cycles_to_ns_fits(ticks as int, freq as int),
    ensures
        r == spec_cycles_to_ns(ticks as int, freq as int),
{
    cycles_and_freq_to_ns(ticks, freq)
}

/// The control register value that also sets `bits`.
pub fn timer_or_ctrl(ctrl: u64, bits: u64) -> (r: u64)
    ensures
        r == ctrl | bits,
{
    ctrl | bits
}

/// The control register value with the timer enabled.
pub fn timer_enable(ctrl: u64) -> (r: u64)
    ensures
        r == ctrl | 1,
        r & 1 == 1,
{
    assert((ctrl | 1) & 1 == 1) by (bit_vector);
    timer_or_ctrl(ctrl, TIMER_ENABLE)
}

/// The control register value with the timer disabled and every other bit kept.
pub fn disable_timer(ctrl: u64) -> (r: u64)
    ensures
        r == ctrl & !1u64,
        r & 1 == 0,
        r | 1 == ctrl | 1,
{
    assert((ctrl & !1u64) & 1 == 0) by (bit_vector);
    assert((ctrl & !1u64) | 1 == ctrl | 1) by (bit_vector);
    ctrl & !TIMER_ENABLE
}

/// The compare value that fires the timer at `deadline` nanoseconds.
pub fn configure_timeout_at(_curr_time: u64, deadline: u64, freq: u64) -> (r: u64)
    requires
        deadline * freq <= u64::MAX,
    ensures
        r == (deadline * freq) / 1_000_000_000,
{
    ns_and_freq_to_cycles(deadline, freq)
}

} // verus!
