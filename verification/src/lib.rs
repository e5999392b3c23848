//! Verified core of the SMOS root server, its boot file server and its
//! support crates.
use vstd::prelude::*;

pub mod bitfield;
pub mod rs_bitfield;
pub mod arith;
pub mod page;
pub mod util;
pub mod frame_table;
pub mod clock;
pub mod error;
pub mod clock_arm;
pub mod clock_meson;
pub mod cspace;
pub mod dma;
pub mod ut;
pub mod bootstrap;
pub mod irq;
pub mod proc;
pub mod lifecycle;
pub mod start;
pub mod server;
pub mod bfs;
pub mod radix;
pub mod object;
pub mod handle_capability;
pub mod elf_load;
pub mod self_test;
pub mod vm;
pub mod uart;
