//! The four timers of the Amlogic Meson timer block.
#![allow(non_snake_case)]

use vstd::prelude::*;
use crate::page::BIT;

verus! {

/// One of the Meson timers.
#[derive(PartialEq, Eq, Structural, Debug, Clone, Copy)]
pub enum TimeoutID {
    TimerA,
    TimerB,
    TimerC,
    TimerD,
}

impl TimeoutID {
    /// Interrupt number of the timer.
    pub fn irq(&self) -> (r: usize)
        ensures
            r == match *self {
                TimeoutID::TimerA => 42usize,
                TimeoutID::TimerB => 43,
                TimeoutID::TimerC => 38,
                TimeoutID::TimerD => 61,
            },
    {
        match self {
            TimeoutID::TimerA => 42,
            TimeoutID::TimerB => 43,
            TimeoutID::TimerC => 38,
            TimeoutID::TimerD => 61,
        }
    }

    /// Shift of the timer's clock-source field in the mux register.
    pub fn clk(&self) -> (r: usize)
        ensures
            r == match *self {
                TimeoutID::TimerA => 0usize,
                TimeoutID::TimerB => 2,
                TimeoutID::TimerC => 4,
                TimeoutID::TimerD => 6,
            },
    {
        match self {
            TimeoutID::TimerA => 0,
            TimeoutID::TimerB => 2,
            TimeoutID::TimerC => 4,
            TimeoutID::TimerD => 6,
        }
    }

    /// Enable bit of the timer in the mux register.
    pub fn en(&self) -> (r: usize)
        ensures
            r == match *self {
                TimeoutID::TimerA => 0x1_0000usize,
                TimeoutID::TimerB => 0x2_0000,
                TimeoutID::TimerC => 0x4_0000,
                TimeoutID::TimerD => 0x8_0000,
            },
    {
        proof {
            vstd::arithmetic::power2::lemma2_to64();
        }
        match self {
            TimeoutID::TimerA => BIT(16),
            TimeoutID::TimerB => BIT(17),
            TimeoutID::TimerC => BIT(18),
            TimeoutID::TimerD => BIT(19),
        }
    }

    /// Periodic-mode bit of the timer in the mux register.
    pub fn mode(&self) -> (r: usize)
        ensures
            r == match *self {
                TimeoutID::TimerA => 0x1000usize,
                TimeoutID::TimerB => 0x2000,
                TimeoutID::TimerC => 0x4000,
                TimeoutID::TimerD => 0x8000,
            },
    {
        proof {
            vstd::arithmetic::power2::lemma2_to64();
        }
        match self {
            TimeoutID::TimerA => BIT(12),
            TimeoutID::TimerB => BIT(13),
            TimeoutID::TimerC => BIT(14),
            TimeoutID::TimerD => BIT(15),
        }
    }
}

/// Interrupt number of the timer used for timeouts.
pub fn timeout_irq() -> (r: usize)
    ensures
        r == 42,
{
    TimeoutID::TimerA.irq()
}

} // verus!
