//! Architectural state of a SIMD-oriented x86 CPU emulator: sparse byte memory,
//! vector registers with width aliasing, general-purpose registers with
//! sub-register aliasing, flags and instruction pointer.

pub mod bits;
pub mod encoding;
pub mod memory;
pub mod names;
pub mod registers;
pub mod selector;
pub mod utilities;
pub mod vector;
pub mod wide;

pub use encoding::MemoryIO;
pub use memory::Memory;
pub use names::{FLAGSName, GPRName, IPName, VecRegName};
pub use registers::Registers;
pub use utilities::Utilities;
pub use vector::SectionCompatible;
pub use wide::{u256, u512};

use vstd::prelude::*;

verus! {

/// Base address of memory in a CPU made by `default`.
pub const DEFAULT_BASE: usize = 0x0040_0000;

/// The state of one emulated CPU: its registers and its memory.
pub struct CPU {
    pub registers: Registers,
    pub memory: Memory,
}

impl CPU {
    /// A CPU with every register clear and empty memory based at `base`.
    pub fn new(base: usize) -> (r: CPU)
        ensures
            r.registers.wf(),
            r.memory.wf(),
            r.memory.base() == base,
            forall|a: usize| #[trigger] r.memory.byte(a) == 0,
            forall|s: int|
                0 <= s < registers::REGISTER_COUNT ==> #[trigger] r.registers.simd(s) == bits::zero_bits(
                    vector::REGISTER_BITS as nat,
                ),
            forall|f: int| 0 <= f < registers::REGISTER_COUNT ==> #[trigger] r.registers.gpr_value(f) == 0,
            r.registers.flags() == 0,
            r.registers.ip() == 0,
    {
        CPU { registers: Registers::new(), memory: Memory::new(base) }
    }
}

impl Default for CPU {
    /// A CPU with every register clear and empty memory based at
    /// `DEFAULT_BASE`.
    fn default() -> (r: CPU)
        ensures
            r.registers.wf(),
            r.memory.wf(),
            r.memory.base() == DEFAULT_BASE,
            forall|a: usize| #[trigger] r.memory.byte(a) == 0,
    {
        CPU::new(DEFAULT_BASE)
    }
}

} // verus!
