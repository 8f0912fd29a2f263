//! Register names, and the general-purpose registers' sub-register views.

use vstd::prelude::*;

verus! {

/// The three widths at which a vector register can be viewed.
#[derive(PartialEq, Eq, Hash, Copy, Clone, Debug, Structural)]
pub enum VecRegName {
    XMM,
    YMM,
    ZMM,
}

impl VecRegName {
    /// Number of bits the view covers.
    pub open spec fn spec_width(self) -> nat {
        match self {
            VecRegName::XMM => 128,
            VecRegName::YMM => 256,
            VecRegName::ZMM => 512,
        }
    }

    pub open spec fn spec_name(self) -> Seq<char> {
        match self {
            VecRegName::XMM => "XMM"@,
            VecRegName::YMM => "YMM"@,
            VecRegName::ZMM => "ZMM"@,
        }
    }

    /// Number of bits the view covers.
    pub fn width(&self) -> (r: usize)
        ensures
            r == self.spec_width(),
    {
        match self {
            VecRegName::XMM => 128,
            VecRegName::YMM => 256,
            VecRegName::ZMM => 512,
        }
    }

    /// The register's name as written in assembly.
    pub fn name(&self) -> (r: String)
        ensures
            r@ == self.spec_name(),
    {
        let s = match self {
            VecRegName::XMM => "XMM",
            VecRegName::YMM => "YMM",
            VecRegName::ZMM => "ZMM",
        };
        s.to_owned()
    }
}

/// Names of the general-purpose registers and of their sub-registers.
#[derive(PartialEq, Eq, Hash, Copy, Clone, Debug, Structural)]
pub enum GPRName {
    // 64-bit registers
    RAX, RBX, RCX, RDX, RSI, RDI, RBP, RSP, R8, R9, R10, R11, R12, R13, R14, R15,
    // 32-bit registers
    EAX, EBX, ECX, EDX, ESI, EDI, EBP, ESP, R8D, R9D, R10D, R11D, R12D, R13D, R14D, R15D,
    // 16-bit registers
    AX, BX, CX, DX, SI, DI, BP, SP, R8W, R9W, R10W, R11W, R12W, R13W, R14W, R15W,
    // 8-bit registers
    AH, BH, CH, DH, AL, BL, CL, DL, SIL, DIL, BPL, SPL, R8B, R9B, R10B, R11B, R12B, R13B, R14B,
    R15B,
}

/// Where a general-purpose register name points: the register family, the
/// width of the view in bits, and the bit at which the view starts.
#[derive(PartialEq, Eq, Copy, Clone, Debug, Structural)]
pub struct GprView {
    pub family: usize,
    pub width: u32,
    pub shift: u32,
}

impl GPRName {
    pub open spec fn spec_view(self) -> GprView {
        match self {
            GPRName::RAX => GprView { family: 0, width: 64, shift: 0 },
            GPRName::RBX => GprView { family: 1, width: 64, shift: 0 },
            GPRName::RCX => GprView { family: 2, width: 64, shift: 0 },
            GPRName::RDX => GprView { family: 3, width: 64, shift: 0 },
            GPRName::RSI => GprView { family: 4, width: 64, shift: 0 },
            GPRName::RDI => GprView { family: 5, width: 64, shift: 0 },
            GPRName::RBP => GprView { family: 6, width: 64, shift: 0 },
            GPRName::RSP => GprView { family: 7, width: 64, shift: 0 },
            GPRName::R8 => GprView { family: 8, width: 64, shift: 0 },
            GPRName::R9 => GprView { family: 9, width: 64, shift: 0 },
            GPRName::R10 => GprView { family: 10, width: 64, shift: 0 },
            GPRName::R11 => GprView { family: 11, width: 64, shift: 0 },
            GPRName::R12 => GprView { family: 12, width: 64, shift: 0 },
            GPRName::R13 => GprView { family: 13, width: 64, shift: 0 },
            GPRName::R14 => GprView { family: 14, width: 64, shift: 0 },
            GPRName::R15 => GprView { family: 15, width: 64, shift: 0 },
            GPRName::EAX => GprView { family: 0, width: 32, shift: 0 },
            GPRName::EBX => GprView { family: 1, width: 32, shift: 0 },
            GPRName::ECX => GprView { family: 2, width: 32, shift: 0 },
            GPRName::EDX => GprView { family: 3, width: 32, shift: 0 },
            GPRName::ESI => GprView { family: 4, width: 32, shift: 0 },
            GPRName::EDI => GprView { family: 5, width: 32, shift: 0 },
            GPRName::EBP => GprView { family: 6, width: 32, shift: 0 },
            GPRName::ESP => GprView { family: 7, width: 32, shift: 0 },
            GPRName::R8D => GprView { family: 8, width: 32, shift: 0 },
            GPRName::R9D => GprView { family: 9, width: 32, shift: 0 },
            GPRName::R10D => GprView { family: 10, width: 32, shift: 0 },
            GPRName::R11D => GprView { family: 11, width: 32, shift: 0 },
            GPRName::R12D => GprView { family: 12, width: 32, shift: 0 },
            GPRName::R13D => GprView { family: 13, width: 32, shift: 0 },
            GPRName::R14D => GprView { family: 14, width: 32, shift: 0 },
            GPRName::R15D => GprView { family: 15, width: 32, shift: 0 },
            GPRName::AX => GprView { family: 0, width: 16, shift: 0 },
            GPRName::BX => GprView { family: 1, width: 16, shift: 0 },
            GPRName::CX => GprView { family: 2, width: 16, shift: 0 },
            GPRName::DX => GprView { family: 3, width: 16, shift: 0 },
            GPRName::SI => GprView { family: 4, width: 16, shift: 0 },
            GPRName::DI => GprView { family: 5, width: 16, shift: 0 },
            GPRName::BP => GprView { family: 6, width: 16, shift: 0 },
            GPRName::SP => GprView { family: 7, width: 16, shift: 0 },
            GPRName::R8W => GprView { family: 8, width: 16, shift: 0 },
            GPRName::R9W => GprView { family: 9, width: 16, shift: 0 },
            GPRName::R10W => GprView { family: 10, width: 16, shift: 0 },
            GPRName::R11W => GprView { family: 11, width: 16, shift: 0 },
            GPRName::R12W => GprView { family: 12, width: 16, shift: 0 },
            GPRName::R13W => GprView { family: 13, width: 16, shift: 0 },
            GPRName::R14W => GprView { family: 14, width: 16, shift: 0 },
            GPRName::R15W => GprView { family: 15, width: 16, shift: 0 },
            GPRName::AH => GprView { family: 0, width: 8, shift: 8 },
            GPRName::BH => GprView { family: 1, width: 8, shift: 8 },
            GPRName::CH => GprView { family: 2, width: 8, shift: 8 },
            GPRName::DH => GprView { family: 3, width: 8, shift: 8 },
            GPRName::AL => GprView { family: 0, width: 8, shift: 0 },
            GPRName::BL => GprView { family: 1, width: 8, shift: 0 },
            GPRName::CL => GprView { family: 2, width: 8, shift: 0 },
            GPRName::DL => GprView { family: 3, width: 8, shift: 0 },
            GPRName::SIL => GprView { family: 4, width: 8, shift: 0 },
            GPRName::DIL => GprView { family: 5, width: 8, shift: 0 },
            GPRName::BPL => GprView { family: 6, width: 8, shift: 0 },
            GPRName::SPL => GprView { family: 7, width: 8, shift: 0 },
            GPRName::R8B => GprView { family: 8, width: 8, shift: 0 },
            GPRName::R9B => GprView { family: 9, width: 8, shift: 0 },
            GPRName::R10B => GprView { family: 10, width: 8, shift: 0 },
            GPRName::R11B => GprView { family: 11, width: 8, shift: 0 },
            GPRName::R12B => GprView { family: 12, width: 8, shift: 0 },
            GPRName::R13B => GprView { family: 13, width: 8, shift: 0 },
            GPRName::R14B => GprView { family: 14, width: 8, shift: 0 },
            GPRName::R15B => GprView { family: 15, width: 8, shift: 0 },
        }
    }

    pub open spec fn spec_name(self) -> Seq<char> {
        match self {
            GPRName::RAX => "RAX"@,
            GPRName::RBX => "RBX"@,
            GPRName::RCX => "RCX"@,
            GPRName::RDX => "RDX"@,
            GPRName::RSI => "RSI"@,
            GPRName::RDI => "RDI"@,
            GPRName::RBP => "RBP"@,
            GPRName::RSP => "RSP"@,
            GPRName::R8 => "R8"@,
            GPRName::R9 => "R9"@,
            GPRName::R10 => "R10"@,
            GPRName::R11 => "R11"@,
            GPRName::R12 => "R12"@,
            GPRName::R13 => "R13"@,
            GPRName::R14 => "R14"@,
            GPRName::R15 => "R15"@,
            GPRName::EAX => "EAX"@,
            GPRName::EBX => "EBX"@,
            GPRName::ECX => "ECX"@,
            GPRName::EDX => "EDX"@,
            GPRName::ESI => "ESI"@,
            GPRName::EDI => "EDI"@,
            GPRName::EBP => "EBP"@,
            GPRName::ESP => "ESP"@,
            GPRName::R8D => "R8D"@,
            GPRName::R9D => "R9D"@,
            GPRName::R10D => "R10D"@,
            GPRName::R11D => "R11D"@,
            GPRName::R12D => "R12D"@,
            GPRName::R13D => "R13D"@,
            GPRName::R14D => "R14D"@,
            GPRName::R15D => "R15D"@,
            GPRName::AX => "AX"@,
            GPRName::BX => "BX"@,
            GPRName::CX => "CX"@,
            GPRName::DX => "DX"@,
            GPRName::SI => "SI"@,
            GPRName::DI => "DI"@,
            GPRName::BP => "BP"@,
            GPRName::SP => "SP"@,
            GPRName::R8W => "R8W"@,
            GPRName::R9W => "R9W"@,
            GPRName::R10W => "R10W"@,
            GPRName::R11W => "R11W"@,
            GPRName::R12W => "R12W"@,
            GPRName::R13W => "R13W"@,
            GPRName::R14W => "R14W"@,
            GPRName::R15W => "R15W"@,
            GPRName::AH => "AH"@,
            GPRName::BH => "BH"@,
            GPRName::CH => "CH"@,
            GPRName::DH => "DH"@,
            GPRName::AL => "AL"@,
            GPRName::BL => "BL"@,
            GPRName::CL => "CL"@,
            GPRName::DL => "DL"@,
            GPRName::SIL => "SIL"@,
            GPRName::DIL => "DIL"@,
            GPRName::BPL => "BPL"@,
            GPRName::SPL => "SPL"@,
            GPRName::R8B => "R8B"@,
            GPRName::R9B => "R9B"@,
            GPRName::R10B => "R10B"@,
            GPRName::R11B => "R11B"@,
            GPRName::R12B => "R12B"@,
            GPRName::R13B => "R13B"@,
            GPRName::R14B => "R14B"@,
            GPRName::R15B => "R15B"@,
        }
    }

    /// Where this name points.
    pub fn view(&self) -> (r: GprView)
        ensures
            r == self.spec_view(),
    {
        match self {
            GPRName::RAX => GprView { family: 0, width: 64, shift: 0 },
            GPRName::RBX => GprView { family: 1, width: 64, shift: 0 },
            GPRName::RCX => GprView { family: 2, width: 64, shift: 0 },
            GPRName::RDX => GprView { family: 3, width: 64, shift: 0 },
            GPRName::RSI => GprView { family: 4, width: 64, shift: 0 },
            GPRName::RDI => GprView { family: 5, width: 64, shift: 0 },
            GPRName::RBP => GprView { family: 6, width: 64, shift: 0 },
            GPRName::RSP => GprView { family: 7, width: 64, shift: 0 },
            GPRName::R8 => GprView { family: 8, width: 64, shift: 0 },
            GPRName::R9 => GprView { family: 9, width: 64, shift: 0 },
            GPRName::R10 => GprView { family: 10, width: 64, shift: 0 },
            GPRName::R11 => GprView { family: 11, width: 64, shift: 0 },
            GPRName::R12 => GprView { family: 12, width: 64, shift: 0 },
            GPRName::R13 => GprView { family: 13, width: 64, shift: 0 },
            GPRName::R14 => GprView { family: 14, width: 64, shift: 0 },
            GPRName::R15 => GprView { family: 15, width: 64, shift: 0 },
            GPRName::EAX => GprView { family: 0, width: 32, shift: 0 },
            GPRName::EBX => GprView { family: 1, width: 32, shift: 0 },
            GPRName::ECX => GprView { family: 2, width: 32, shift: 0 },
            GPRName::EDX => GprView { family: 3, width: 32, shift: 0 },
            GPRName::ESI => GprView { family: 4, width: 32, shift: 0 },
            GPRName::EDI => GprView { family: 5, width: 32, shift: 0 },
            GPRName::EBP => GprView { family: 6, width: 32, shift: 0 },
            GPRName::ESP => GprView { family: 7, width: 32, shift: 0 },
            GPRName::R8D => GprView { family: 8, width: 32, shift: 0 },
            GPRName::R9D => GprView { family: 9, width: 32, shift: 0 },
            GPRName::R10D => GprView { family: 10, width: 32, shift: 0 },
            GPRName::R11D => GprView { family: 11, width: 32, shift: 0 },
            GPRName::R12D => GprView { family: 12, width: 32, shift: 0 },
            GPRName::R13D => GprView { family: 13, width: 32, shift: 0 },
            GPRName::R14D => GprView { family: 14, width: 32, shift: 0 },
            GPRName::R15D => GprView { family: 15, width: 32, shift: 0 },
            GPRName::AX => GprView { family: 0, width: 16, shift: 0 },
            GPRName::BX => GprView { family: 1, width: 16, shift: 0 },
            GPRName::CX => GprView { family: 2, width: 16, shift: 0 },
            GPRName::DX => GprView { family: 3, width: 16, shift: 0 },
            GPRName::SI => GprView { family: 4, width: 16, shift: 0 },
            GPRName::DI => GprView { family: 5, width: 16, shift: 0 },
            GPRName::BP => GprView { family: 6, width: 16, shift: 0 },
            GPRName::SP => GprView { family: 7, width: 16, shift: 0 },
            GPRName::R8W => GprView { family: 8, width: 16, shift: 0 },
            GPRName::R9W => GprView { family: 9, width: 16, shift: 0 },
            GPRName::R10W => GprView { family: 10, width: 16, shift: 0 },
            GPRName::R11W => GprView { family: 11, width: 16, shift: 0 },
            GPRName::R12W => GprView { family: 12, width: 16, shift: 0 },
            GPRName::R13W => GprView { family: 13, width: 16, shift: 0 },
            GPRName::R14W => GprView { family: 14, width: 16, shift: 0 },
            GPRName::R15W => GprView { family: 15, width: 16, shift: 0 },
            GPRName::AH => GprView { family: 0, width: 8, shift: 8 },
            GPRName::BH => GprView { family: 1, width: 8, shift: 8 },
            GPRName::CH => GprView { family: 2, width: 8, shift: 8 },
            GPRName::DH => GprView { family: 3, width: 8, shift: 8 },
            GPRName::AL => GprView { family: 0, width: 8, shift: 0 },
            GPRName::BL => GprView { family: 1, width: 8, shift: 0 },
            GPRName::CL => GprView { family: 2, width: 8, shift: 0 },
            GPRName::DL => GprView { family: 3, width: 8, shift: 0 },
            GPRName::SIL => GprView { family: 4, width: 8, shift: 0 },
            GPRName::DIL => GprView { family: 5, width: 8, shift: 0 },
            GPRName::BPL => GprView { family: 6, width: 8, shift: 0 },
            GPRName::SPL => GprView { family: 7, width: 8, shift: 0 },
            GPRName::R8B => GprView { family: 8, width: 8, shift: 0 },
            GPRName::R9B => GprView { family: 9, width: 8, shift: 0 },
            GPRName::R10B => GprView { family: 10, width: 8, shift: 0 },
            GPRName::R11B => GprView { family: 11, width: 8, shift: 0 },
            GPRName::R12B => GprView { family: 12, width: 8, shift: 0 },
            GPRName::R13B => GprView { family: 13, width: 8, shift: 0 },
            GPRName::R14B => GprView { family: 14, width: 8, shift: 0 },
            GPRName::R15B => GprView { family: 15, width: 8, shift: 0 },
        }
    }

    /// The register's name as written in assembly.
    pub fn name(&self) -> (r: String)
        ensures
            r@ == self.spec_name(),
    {
        let s = match self {
            GPRName::RAX => "RAX",
            GPRName::RBX => "RBX",
            GPRName::RCX => "RCX",
            GPRName::RDX => "RDX",
            GPRName::RSI => "RSI",
            GPRName::RDI => "RDI",
            GPRName::RBP => "RBP",
            GPRName::RSP => "RSP",
            GPRName::R8 => "R8",
            GPRName::R9 => "R9",
            GPRName::R10 => "R10",
            GPRName::R11 => "R11",
            GPRName::R12 => "R12",
            GPRName::R13 => "R13",
            GPRName::R14 => "R14",
            GPRName::R15 => "R15",
            GPRName::EAX => "EAX",
            GPRName::EBX => "EBX",
            GPRName::ECX => "ECX",
            GPRName::EDX => "EDX",
            GPRName::ESI => "ESI",
            GPRName::EDI => "EDI",
            GPRName::EBP => "EBP",
            GPRName::ESP => "ESP",
            GPRName::R8D => "R8D",
            GPRName::R9D => "R9D",
            GPRName::R10D => "R10D",
            GPRName::R11D => "R11D",
            GPRName::R12D => "R12D",
            GPRName::R13D => "R13D",
            GPRName::R14D => "R14D",
            GPRName::R15D => "R15D",
            GPRName::AX => "AX",
            GPRName::BX => "BX",
            GPRName::CX => "CX",
            GPRName::DX => "DX",
            GPRName::SI => "SI",
            GPRName::DI => "DI",
            GPRName::BP => "BP",
            GPRName::SP => "SP",
            GPRName::R8W => "R8W",
            GPRName::R9W => "R9W",
            GPRName::R10W => "R10W",
            GPRName::R11W => "R11W",
            GPRName::R12W => "R12W",
            GPRName::R13W => "R13W",
            GPRName::R14W => "R14W",
            GPRName::R15W => "R15W",
            GPRName::AH => "AH",
            GPRName::BH => "BH",
            GPRName::CH => "CH",
            GPRName::DH => "DH",
            GPRName::AL => "AL",
            GPRName::BL => "BL",
            GPRName::CL => "CL",
            GPRName::DL => "DL",
            GPRName::SIL => "SIL",
            GPRName::DIL => "DIL",
            GPRName::BPL => "BPL",
            GPRName::SPL => "SPL",
            GPRName::R8B => "R8B",
            GPRName::R9B => "R9B",
            GPRName::R10B => "R10B",
            GPRName::R11B => "R11B",
            GPRName::R12B => "R12B",
            GPRName::R13B => "R13B",
            GPRName::R14B => "R14B",
            GPRName::R15B => "R15B",
        };
        s.to_owned()
    }
}

/// Names of the flags register at its three widths.
#[derive(PartialEq, Eq, Copy, Clone, Debug, Structural)]
pub enum FLAGSName {
    // 64-bit registers
    RFLAGS,
    // 32-bit registers
    EFLAGS,
    // 16-bit registers
    FLAGS,
}

impl FLAGSName {
    /// Number of low bits the name covers.
    pub open spec fn spec_width(self) -> nat {
        match self {
            FLAGSName::RFLAGS => 64,
            FLAGSName::EFLAGS => 32,
            FLAGSName::FLAGS => 16,
        }
    }
}

/// Names of the instruction pointer at its three widths.
#[derive(PartialEq, Eq, Copy, Clone, Debug, Structural)]
pub enum IPName {
    // 64-bit registers
    RIP,
    // 32-bit registers
    EIP,
    // 16-bit registers
    IP,
}

impl IPName {
    /// Number of low bits the name covers.
    pub open spec fn spec_width(self) -> nat {
        match self {
            IPName::RIP => 64,
            IPName::EIP => 32,
            IPName::IP => 16,
        }
    }
}

} // verus!
