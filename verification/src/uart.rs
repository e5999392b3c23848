//! The root server's console UART: where its registers are mapped and
//! what is sent for each character. The register writes themselves are
//! done by the caller.

use vstd::prelude::*;
use crate::util::MASK;

verus! {

/// A console printer over the UART whose registers are mapped at `uart_vaddr`.
#[derive(Clone, Copy, Debug)]
pub struct UARTPrinter {
    uart_vaddr: usize,
}

impl UARTPrinter {
    pub closed spec fn spec_uart_vaddr(&self) -> usize {
        self.uart_vaddr
    }

    /// A printer over the UART registers mapped at `uart_vaddr`.
    pub fn new(uart_vaddr: usize) -> (r: Self)
        ensures
            r.spec_uart_vaddr() == uart_vaddr,
    {
        UARTPrinter { uart_vaddr: uart_vaddr }
    }

    /// Where the UART registers are mapped.
    pub fn uart_vaddr(&self) -> (r: usize)
        ensures
            r == self.spec_uart_vaddr(),
    {
        self.uart_vaddr
    }

    /// The characters sent for `c`: `c` itself, and a carriage return after
    /// a newline.
    pub fn chars_for(c: char) -> (r: (char, Option<char>))
        ensures
            r.0 == c,
            r.1 == (if c == '\n' { Some('\r') } else { None::<char> }),
    {
        if c == '\n' {
            (c, Some('\r'))
        } else {
            (c, None)
        }
    }
}

/// Virtual address of UART registers at physical address `paddr`, when the
/// page holding them is mapped at `page_vaddr`.
pub fn uart_vaddr_in_page(page_vaddr: usize, paddr: usize) -> (r: usize)
    requires
        page_vaddr + 4096 <= usize::MAX,
    ensures
        r == page_vaddr + paddr % 4096,
{
    let m = MASK(12);
    assert(paddr & 4095usize == paddr % 4096) by (bit_vector);
    assert(m == 4095) by {
        vstd::arithmetic::power2::lemma2_to64();
    }
    page_vaddr + (paddr & m)
}

} // verus!
