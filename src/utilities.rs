//! Helpers around register names.

use crate::names::GPRName;
use vstd::prelude::*;

verus! {

/// Helpers around register names.
pub struct Utilities {}

impl Utilities {
    /// Width in bits of the general-purpose register that `gpr` names.
    pub fn get_gpr_size(gpr: &GPRName) -> (r: usize)
        ensures
            r == gpr.spec_view().width,
    {
        match gpr {
            GPRName::RAX | GPRName::RBX | GPRName::RCX | GPRName::RDX | GPRName::RSI |
            GPRName::RDI | GPRName::RBP | GPRName::RSP | GPRName::R8 | GPRName::R9 | GPRName::R10 |
            GPRName::R11 | GPRName::R12 | GPRName::R13 | GPRName::R14 | GPRName::R15 => {
                64
            },
            GPRName::EAX | GPRName::EBX | GPRName::ECX | GPRName::EDX | GPRName::ESI |
            GPRName::EDI | GPRName::EBP | GPRName::ESP | GPRName::R8D | GPRName::R9D |
            GPRName::R10D | GPRName::R11D | GPRName::R12D | GPRName::R13D | GPRName::R14D |
            GPRName::R15D => {
                32
            },
            GPRName::AX | GPRName::BX | GPRName::CX | GPRName::DX | GPRName::SI | GPRName::DI |
            GPRName::BP | GPRName::SP | GPRName::R8W | GPRName::R9W | GPRName::R10W |
            GPRName::R11W | GPRName::R12W | GPRName::R13W | GPRName::R14W | GPRName::R15W => {
                16
            },
            GPRName::AL | GPRName::BL | GPRName::CL | GPRName::DL | GPRName::AH | GPRName::BH |
            GPRName::CH | GPRName::DH | GPRName::SIL | GPRName::DIL | GPRName::BPL | GPRName::SPL |
            GPRName::R8B | GPRName::R9B | GPRName::R10B | GPRName::R11B | GPRName::R12B |
            GPRName::R13B | GPRName::R14B | GPRName::R15B => {
                8
            },
        }
    }
}

} // verus!
