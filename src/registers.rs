//! The register file: sixteen vector registers, sixteen general-purpose
//! register families, the flags register and the instruction pointer.

use crate::bits::{bit_of, bits_value, zero_bits};
use crate::encoding::{zero_value, MemoryIO};
use crate::selector::{extract_values, selector_range};
use vstd::string::StringSliceAdditionalSpecFns;
use crate::names::{FLAGSName, GPRName, GprView, IPName, VecRegName};
use crate::vector::{lane_bits, lane_value, lanes_bits, SIMDRegister, SectionCompatible, REGISTER_BITS};
use vstd::prelude::*;

verus! {

/// Number of vector registers, and of general-purpose register families.
pub const REGISTER_COUNT: usize = 16;

/// A family register after writing `value` through view `v`: a 64-bit write
/// replaces it, a 32-bit write zero-extends into it, and a 16- or 8-bit write
/// replaces its own bits alone (a high-byte write takes the low byte of
/// `value` into bits 8 to 15).
pub open spec fn gpr_written(full: u64, v: GprView, value: u64) -> u64 {
    if v.width == 64 {
        value
    } else if v.width == 32 {
        value & 0xFFFF_FFFF
    } else if v.width == 16 {
        (full & 0xFFFF_FFFF_FFFF_0000) | (value & 0xFFFF)
    } else if v.shift == 8 {
        (full & 0xFFFF_FFFF_FFFF_00FF) | ((value << 8u64) & 0xFF00)
    } else {
        (full & 0xFFFF_FFFF_FFFF_FF00) | (value & 0xFF)
    }
}

/// What view `v` shows of a family register.
pub open spec fn gpr_seen(full: u64, v: GprView) -> u64 {
    if v.width == 64 {
        full
    } else if v.width == 32 {
        full & 0xFFFF_FFFF
    } else if v.width == 16 {
        full & 0xFFFF
    } else if v.shift == 8 {
        (full & 0xFF00) >> 8u64
    } else {
        full & 0xFF
    }
}

/// A 64-bit register after writing `value` to its `width` low bits: the bits
/// above are kept.
pub open spec fn low_written(full: u64, width: nat, value: u64) -> u64 {
    if width == 64 {
        value
    } else if width == 32 {
        (full & 0xFFFF_FFFF_0000_0000) | (value & 0xFFFF_FFFF)
    } else {
        (full & 0xFFFF_FFFF_FFFF_0000) | (value & 0xFFFF)
    }
}

/// The `width` low bits of a 64-bit register.
pub open spec fn low_seen(full: u64, width: nat) -> u64 {
    if width == 64 {
        full
    } else if width == 32 {
        full & 0xFFFF_FFFF
    } else {
        full & 0xFFFF
    }
}

/// A 32-bit write leaves its family holding the value's low 32 bits and
/// nothing above them.
pub proof fn lemma_dword_write_zero_extends(full: u64, name: GPRName, value: u64)
    requires
        name.spec_view().width == 32,
    ensures
        gpr_written(full, name.spec_view(), value) == value & 0xFFFF_FFFF,
        gpr_written(full, name.spec_view(), value) >> 32u64 == 0,
{
    assert((value & 0xFFFF_FFFF) >> 32u64 == 0) by (bit_vector);
}

/// A 16- or 8-bit write changes the bits of its view alone.
pub proof fn lemma_narrow_write_keeps_rest(full: u64, name: GPRName, value: u64)
    requires
        name.spec_view().width <= 16,
    ensures
        ({
            let v = name.spec_view();
            let m: u64 = if v.width == 16 {
                0xFFFF
            } else if v.shift == 8 {
                0xFF00
            } else {
                0xFF
            };
            &&& gpr_written(full, v, value) & !m == full & !m
            &&& gpr_seen(gpr_written(full, v, value), v) == gpr_seen(value << v.shift as u64, v)
        }),
{
    let v = name.spec_view();
    assert(v.width == 16 || v.width == 8);
    assert(v.shift == 0 || v.shift == 8);
    if v.width == 16 {
        assert(((full & 0xFFFF_FFFF_FFFF_0000) | (value & 0xFFFF)) & !0xFFFFu64 == full & !0xFFFFu64) by (bit_vector);
        assert((((full & 0xFFFF_FFFF_FFFF_0000) | (value & 0xFFFF)) & 0xFFFF) == (value << 0u64) & 0xFFFF) by (bit_vector);
    } else if v.shift == 8 {
        assert(((full & 0xFFFF_FFFF_FFFF_00FF) | ((value << 8u64) & 0xFF00)) & !0xFF00u64 == full & !0xFF00u64) by (bit_vector);
        assert(((((full & 0xFFFF_FFFF_FFFF_00FF) | ((value << 8u64) & 0xFF00)) & 0xFF00) >> 8u64) == (((value << 8u64) & 0xFF00) >> 8u64)) by (bit_vector);
    } else {
        assert(((full & 0xFFFF_FFFF_FFFF_FF00) | (value & 0xFF)) & !0xFFu64 == full & !0xFFu64) by (bit_vector);
        assert((((full & 0xFFFF_FFFF_FFFF_FF00) | (value & 0xFF)) & 0xFF) == (value << 0u64) & 0xFF) by (bit_vector);
    }
}

/// Reading a view right after writing `value` through it gives `value` cut
/// to the view's width.
pub proof fn lemma_gpr_write_then_read(full: u64, name: GPRName, value: u64)
    ensures
        gpr_seen(gpr_written(full, name.spec_view(), value), name.spec_view()) == gpr_seen(
            value << name.spec_view().shift as u64,
            name.spec_view(),
        ),
{
    let v = name.spec_view();
    if v.width == 64 {
        assert(value << 0u64 == value) by (bit_vector);
    } else if v.width == 32 {
        assert((value & 0xFFFF_FFFF) & 0xFFFF_FFFF == (value << 0u64) & 0xFFFF_FFFF) by (bit_vector);
    } else {
        lemma_narrow_write_keeps_rest(full, name, value);
    }
}

/// A flags or instruction-pointer write through a narrower name keeps the
/// bits above it, and reading the same name gives the value cut to its width.
pub proof fn lemma_low_write_then_read(full: u64, width: nat, value: u64)
    requires
        width == 64 || width == 32 || width == 16,
    ensures
        low_seen(low_written(full, width, value), width) == low_seen(value, width),
        width == 32 ==> low_written(full, width, value) & 0xFFFF_FFFF_0000_0000 == full & 0xFFFF_FFFF_0000_0000,
        width == 16 ==> low_written(full, width, value) & 0xFFFF_FFFF_FFFF_0000 == full & 0xFFFF_FFFF_FFFF_0000,
{
    if width == 32 {
        assert(((full & 0xFFFF_FFFF_0000_0000) | (value & 0xFFFF_FFFF)) & 0xFFFF_FFFF == value & 0xFFFF_FFFF) by (bit_vector);
        assert(((full & 0xFFFF_FFFF_0000_0000) | (value & 0xFFFF_FFFF)) & 0xFFFF_FFFF_0000_0000 == full & 0xFFFF_FFFF_0000_0000) by (bit_vector);
    } else if width == 16 {
        assert(((full & 0xFFFF_FFFF_FFFF_0000) | (value & 0xFFFF)) & 0xFFFF == value & 0xFFFF) by (bit_vector);
        assert(((full & 0xFFFF_FFFF_FFFF_0000) | (value & 0xFFFF)) & 0xFFFF_FFFF_FFFF_0000 == full & 0xFFFF_FFFF_FFFF_0000) by (bit_vector);
    }
}

/// One general-purpose register family.
#[derive(Clone, Copy)]
struct GPR {
    value: u64,
}

impl GPR {
    fn new() -> (r: GPR)
        ensures
            r.value == 0,
    {
        GPR { value: 0 }
    }

    fn set_value(&mut self, val: u64)
        ensures
            final(self).value == val,
    {
        self.value = val;
    }

    fn get_value(&self) -> (r: u64)
        ensures
            r == self.value,
    {
        self.value
    }
}

/// The register file of one emulated CPU.
pub struct Registers {
    simd_registers: [SIMDRegister; 16],
    gpr: [GPR; 16],
    rflags: u64,
    rip: u64,
}

impl Registers {
    /// The bits of vector register `slot`, lowest first.
    pub closed spec fn simd(&self, slot: int) -> Seq<bool> {
        self.simd_registers@[slot].view()
    }

    /// The 64-bit value of general-purpose family `family`.
    pub closed spec fn gpr_value(&self, family: int) -> u64 {
        self.gpr@[family].value
    }

    pub closed spec fn flags(&self) -> u64 {
        self.rflags
    }

    pub closed spec fn ip(&self) -> u64 {
        self.rip
    }

    /// Every vector register holds its 512 bits.
    pub closed spec fn wf(&self) -> bool {
        forall|s: int| 0 <= s < REGISTER_COUNT ==> #[trigger] self.simd_registers@[s].wf()
    }

    /// In a consistent register file every vector register has 512 bits.
    pub proof fn lemma_vector_length(&self)
        requires
            self.wf(),
        ensures
            forall|s: int| 0 <= s < REGISTER_COUNT ==> (#[trigger] self.simd(s)).len() == REGISTER_BITS,
    {
        assert forall|s: int| 0 <= s < REGISTER_COUNT implies (#[trigger] self.simd(s)).len() == REGISTER_BITS by {
            assert(self.simd_registers@[s].wf());
        }
    }

    /// `self` and `other` agree on everything but vector register `slot`.
    pub open spec fn same_but_vector(&self, other: &Registers, slot: int) -> bool {
        &&& forall|s: int| 0 <= s < REGISTER_COUNT && s != slot ==> #[trigger] self.simd(s) == other.simd(s)
        &&& forall|f: int| 0 <= f < REGISTER_COUNT ==> #[trigger] self.gpr_value(f) == other.gpr_value(f)
        &&& self.flags() == other.flags()
        &&& self.ip() == other.ip()
    }

    /// `self` and `other` agree on every vector register.
    pub open spec fn same_vectors(&self, other: &Registers) -> bool {
        forall|s: int| 0 <= s < REGISTER_COUNT ==> #[trigger] self.simd(s) == other.simd(s)
    }

    /// A register file with every bit clear.
    pub fn new() -> (r: Registers)
        ensures
            r.wf(),
            forall|s: int| 0 <= s < REGISTER_COUNT ==> #[trigger] r.simd(s) == zero_bits(REGISTER_BITS as nat),
            forall|f: int| 0 <= f < REGISTER_COUNT ==> #[trigger] r.gpr_value(f) == 0,
            r.flags() == 0,
            r.ip() == 0,
    {
        Registers {
            simd_registers: [
                SIMDRegister::new(REGISTER_BITS),
                SIMDRegister::new(REGISTER_BITS),
                SIMDRegister::new(REGISTER_BITS),
                SIMDRegister::new(REGISTER_BITS),
                SIMDRegister::new(REGISTER_BITS),
                SIMDRegister::new(REGISTER_BITS),
                SIMDRegister::new(REGISTER_BITS),
                SIMDRegister::new(REGISTER_BITS),
                SIMDRegister::new(REGISTER_BITS),
                SIMDRegister::new(REGISTER_BITS),
                SIMDRegister::new(REGISTER_BITS),
                SIMDRegister::new(REGISTER_BITS),
                SIMDRegister::new(REGISTER_BITS),
                SIMDRegister::new(REGISTER_BITS),
                SIMDRegister::new(REGISTER_BITS),
                SIMDRegister::new(REGISTER_BITS),
            ],
            gpr: [
                GPR::new(),
                GPR::new(),
                GPR::new(),
                GPR::new(),
                GPR::new(),
                GPR::new(),
                GPR::new(),
                GPR::new(),
                GPR::new(),
                GPR::new(),
                GPR::new(),
                GPR::new(),
                GPR::new(),
                GPR::new(),
                GPR::new(),
                GPR::new(),
            ],
            rflags: 0,
            rip: 0,
        }
    }

    /// Sets bit `bit_position` of vector register `reg_index` seen at width
    /// `reg_type`; fails, changing nothing, when the bit lies outside the view.
    pub fn set_bit(&mut self, reg_type: VecRegName, reg_index: usize, bit_position: usize, value: bool) -> (r: bool)
        requires
            old(self).wf(),
            reg_index < REGISTER_COUNT,
        ensures
            final(self).wf(),
            r == (bit_position < reg_type.spec_width()),
            final(self).simd(reg_index as int).len() == REGISTER_BITS,
            final(self).same_but_vector(old(self), reg_index as int),
            final(self).simd(reg_index as int) == if r {
                old(self).simd(reg_index as int).update(bit_position as int, value)
            } else {
                old(self).simd(reg_index as int)
            },
    {
        proof {
            assert(self.simd_registers@[reg_index as int].wf());
        }
        if bit_position >= reg_type.width() {
            return false;
        }
        self.simd_registers[reg_index].set_bit(bit_position, value);
        true
    }

    /// Bit `bit_position` of vector register `reg_index` seen at width
    /// `reg_type`, or `None` when the bit lies outside the view.
    pub fn get_bit(&self, reg_type: VecRegName, reg_index: usize, bit_position: usize) -> (r: Option<bool>)
        requires
            self.wf(),
            reg_index < REGISTER_COUNT,
        ensures
            r == if bit_position < reg_type.spec_width() {
                Some(self.simd(reg_index as int)[bit_position as int])
            } else {
                None::<bool>
            },
    {
        if bit_position >= reg_type.width() {
            return None;
        }
        Some(self.simd_registers[reg_index].get_bit(bit_position))
    }

    /// Clears all 512 bits of vector register `reg_index`.
    pub fn clear(&mut self, reg_index: usize)
        requires
            old(self).wf(),
            reg_index < REGISTER_COUNT,
        ensures
            final(self).wf(),
            final(self).same_but_vector(old(self), reg_index as int),
            final(self).simd(reg_index as int) == zero_bits(REGISTER_BITS as nat),
    {
        self.simd_registers[reg_index].clear();
    }

    /// The lanes of type `T` that the `reg_type` view of vector register
    /// `reg_index` holds, lowest first.
    pub fn get_by_sections<T: SectionCompatible>(&self, reg_type: VecRegName, reg_index: usize) -> (r: Option<Vec<T>>)
        requires
            self.wf(),
            reg_index < REGISTER_COUNT,
        ensures
            r.is_some(),
            r.unwrap()@.len() == reg_type.spec_width() / lane_bits::<T>(),
            forall|k: int|
                0 <= k < r.unwrap()@.len() ==> #[trigger] r.unwrap()@[k].value() == lane_value(
                    self.simd(reg_index as int),
                    lane_bits::<T>(),
                    k,
                ),
    {
        let mut sections: Vec<T> = self.simd_registers[reg_index].get_sections();
        let n = reg_type.width() / (8 * T::size());
        proof {
            vstd::arithmetic::div_mod::lemma_div_is_ordered(
                reg_type.spec_width() as int,
                REGISTER_BITS as int,
                lane_bits::<T>() as int,
            );
        }
        sections.truncate(n);
        Some(sections)
    }

    /// Overwrites the `reg_type` view of vector register `reg_index` with
    /// `sections`, lowest lane first, and clears every bit above the view.
    /// Fails, changing nothing, unless the lanes fill the view exactly.
    pub fn set_by_sections<T: SectionCompatible>(
        &mut self,
        reg_type: VecRegName,
        reg_index: usize,
        sections: Vec<T>,
    ) -> (r: bool)
        requires
            old(self).wf(),
            reg_index < REGISTER_COUNT,
        ensures
            final(self).wf(),
            r == (sections@.len() * lane_bits::<T>() == reg_type.spec_width()),
            final(self).simd(reg_index as int).len() == REGISTER_BITS,
            final(self).same_but_vector(old(self), reg_index as int),
            final(self).simd(reg_index as int) == if r {
                lanes_bits(sections@) + zero_bits((REGISTER_BITS - reg_type.spec_width()) as nat)
            } else {
                old(self).simd(reg_index as int)
            },
    {
        proof {
            assert(self.simd_registers@[reg_index as int].wf());
        }
        let type_bits = 8 * T::size();
        let width = reg_type.width();
        if sections.len() > REGISTER_BITS {
            proof {
                assert(sections@.len() * type_bits >= sections@.len()) by (nonlinear_arith)
                    requires type_bits >= 1;
            }
            return false;
        }
        assert(sections@.len() * type_bits <= 512 * 512) by (nonlinear_arith)
            requires sections@.len() <= 512, type_bits <= 512;
        if sections.len() * type_bits != width {
            return false;
        }
        proof {
            T::lemma_lane_fits();
        }
        let count = REGISTER_BITS / type_bits;
        proof {
            vstd::arithmetic::div_mod::lemma_fundamental_div_mod(REGISTER_BITS as int, type_bits as int);
            assert(REGISTER_BITS as int % type_bits as int == 0);
            let (c, w) = (count as int, type_bits as int);
            assert(c * w == 512) by (nonlinear_arith)
                requires 512int == w * c + 512int % w, 512int % w == 0;
        }
        let ghost given = sections@;
        let mut fill = sections;
        proof {
            assert(given.len() * type_bits <= count * type_bits) by (nonlinear_arith)
                requires given.len() * type_bits == width, width <= REGISTER_BITS, count * type_bits == REGISTER_BITS;
            assert(given.len() <= count) by (nonlinear_arith)
                requires given.len() * type_bits <= count * type_bits, type_bits > 0;
            vstd::arithmetic::div_mod::lemma_fundamental_div_mod(REGISTER_BITS as int, type_bits as int);
        }
        while fill.len() < count
            invariant
                given.len() <= fill@.len() <= count,
                fill@.subrange(0, given.len() as int) == given,
                forall|k: int| given.len() <= k < fill@.len() ==> #[trigger] fill@[k].value() == 0,
            decreases count - fill@.len(),
        {
            let z: T = zero_value();
            fill.push(z);
            assert(fill@.subrange(0, given.len() as int) =~= given);
        }
        proof {
            assert(fill@.len() * type_bits == REGISTER_BITS) by (nonlinear_arith)
                requires fill@.len() == count, count * type_bits == REGISTER_BITS;
        }
        let ghost before = self.simd(reg_index as int);
        self.simd_registers[reg_index].set_by_sections(&fill);
        proof {
            let target = lanes_bits(given) + zero_bits((REGISTER_BITS - width) as nat);
            assert forall|i: int| 0 <= i < REGISTER_BITS implies #[trigger] lanes_bits(fill@)[i] == target[i] by {
                let w = type_bits as int;
                let q = i / w;
                vstd::arithmetic::div_mod::lemma_fundamental_div_mod(i, w);
                if i < width {
                    assert(q < given.len()) by (nonlinear_arith)
                        requires i == w * q + i % w, i % w >= 0, i < given.len() * w, w > 0;
                    assert(fill@[q] == given[q]);
                } else {
                    assert(q >= given.len()) by (nonlinear_arith)
                        requires i == w * q + i % w, i % w < w, i >= given.len() * w, w > 0;
                    assert(q < fill@.len()) by (nonlinear_arith)
                        requires i == w * q + i % w, i % w >= 0, i < fill@.len() * w, w > 0;
                    assert(fill@[q].value() == 0);
                    assert(!bit_of(0, (i % w) as nat)) by {
                        vstd::arithmetic::power2::lemma_pow2_pos((i % w) as nat);
                    }
                }
            }
            assert(self.simd(reg_index as int) =~= target);
        }
        true
    }

    /// The bits that `selector` picks from vector register `reg_index`, as a
    /// `T`; `None` when the selector is malformed. The range may not be wider
    /// than `T`.
    pub fn get_by_selector<T: SectionCompatible>(&self, _reg_type: VecRegName, reg_index: usize, selector: &str) -> (r:
        Option<T>)
        requires
            self.wf(),
            reg_index < REGISTER_COUNT,
            match selector_range(selector.spec_bytes()) {
                Some((hi, lo)) => hi - lo + 1 <= lane_bits::<T>(),
                None => true,
            },
        ensures
            match selector_range(selector.spec_bytes()) {
                Some((hi, lo)) => r.is_some() && r.unwrap().value() == bits_value(
                    self.simd(reg_index as int).subrange(lo as int, hi as int + 1),
                ),
                None => r.is_none(),
            },
    {
        if let Some((a, b)) = extract_values(selector) {
            Some(self.simd_registers[reg_index].get_by_index(b, a))
        } else {
            None
        }
    }

    /// Stores `value` in the bits that `selector` picks from vector register
    /// `reg_index`, clearing those of them beyond the width of `T`; fails,
    /// changing nothing, when the selector is malformed.
    pub fn set_by_selector<T: SectionCompatible>(
        &mut self,
        _reg_type: VecRegName,
        reg_index: usize,
        selector: &str,
        value: T,
    ) -> (r: bool)
        requires
            old(self).wf(),
            reg_index < REGISTER_COUNT,
        ensures
            final(self).wf(),
            r == selector_range(selector.spec_bytes()).is_some(),
            final(self).simd(reg_index as int).len() == REGISTER_BITS,
            final(self).same_but_vector(old(self), reg_index as int),
            match selector_range(selector.spec_bytes()) {
                Some((hi, lo)) => forall|i: int|
                    0 <= i < REGISTER_BITS ==> #[trigger] final(self).simd(reg_index as int)[i] == if lo <= i <= hi {
                        bit_of(value.value(), (i - lo) as nat)
                    } else {
                        old(self).simd(reg_index as int)[i]
                    },
                None => final(self).simd(reg_index as int) == old(self).simd(reg_index as int),
            },
    {
        proof {
            assert(self.simd_registers@[reg_index as int].wf());
        }
        if let Some((a, b)) = extract_values(selector) {
            self.simd_registers[reg_index].set_by_index(b, a, &value);
            true
        } else {
            false
        }
    }

    /// Writes `value` through general-purpose register name `reg_name`.
    pub fn set_gpr_value(&mut self, reg_name: GPRName, value: u64)
        requires
            old(self).wf(),
        ensures
            final(self).wf(),
            final(self).same_vectors(old(self)),
            final(self).flags() == old(self).flags(),
            final(self).ip() == old(self).ip(),
            forall|f: int|
                0 <= f < REGISTER_COUNT ==> #[trigger] final(self).gpr_value(f) == if f
                    == reg_name.spec_view().family {
                    gpr_written(old(self).gpr_value(f), reg_name.spec_view(), value)
                } else {
                    old(self).gpr_value(f)
                },
    {
        let v = reg_name.view();
        let full = self.gpr[v.family].get_value();
        let merged = if v.width == 64 {
            value
        } else if v.width == 32 {
            value & 0xFFFF_FFFF
        } else if v.width == 16 {
            (full & 0xFFFF_FFFF_FFFF_0000) | (value & 0xFFFF)
        } else if v.shift == 8 {
            (full & 0xFFFF_FFFF_FFFF_00FF) | ((value << 8u64) & 0xFF00)
        } else {
            (full & 0xFFFF_FFFF_FFFF_FF00) | (value & 0xFF)
        };
        self.gpr[v.family].set_value(merged);
    }

    /// The value that general-purpose register name `reg_name` shows.
    pub fn get_gpr_value(&self, reg_name: GPRName) -> (r: u64)
        ensures
            r == gpr_seen(self.gpr_value(reg_name.spec_view().family as int), reg_name.spec_view()),
    {
        let v = reg_name.view();
        let full = self.gpr[v.family].get_value();
        if v.width == 64 {
            full
        } else if v.width == 32 {
            full & 0xFFFF_FFFF
        } else if v.width == 16 {
            full & 0xFFFF
        } else if v.shift == 8 {
            (full & 0xFF00) >> 8u64
        } else {
            full & 0xFF
        }
    }

    /// Writes `value` through flags register name `reg_name`.
    pub fn set_flags_value(&mut self, reg_name: FLAGSName, value: u64)
        requires
            old(self).wf(),
        ensures
            final(self).wf(),
            final(self).same_vectors(old(self)),
            forall|f: int| 0 <= f < REGISTER_COUNT ==> #[trigger] final(self).gpr_value(f) == old(self).gpr_value(f),
            final(self).ip() == old(self).ip(),
            final(self).flags() == low_written(old(self).flags(), reg_name.spec_width(), value),
    {
        match reg_name {
            FLAGSName::RFLAGS => {
                self.rflags = value;
            },
            FLAGSName::EFLAGS => {
                self.rflags = (self.rflags & 0xFFFF_FFFF_0000_0000) | (value & 0xFFFF_FFFF);
            },
            FLAGSName::FLAGS => {
                self.rflags = (self.rflags & 0xFFFF_FFFF_FFFF_0000) | (value & 0xFFFF);
            },
        }
    }

    /// The value that flags register name `reg_name` shows.
    pub fn get_flags_value(&self, reg_name: FLAGSName) -> (r: u64)
        ensures
            r == low_seen(self.flags(), reg_name.spec_width()),
    {
        match reg_name {
            FLAGSName::RFLAGS => self.rflags,
            FLAGSName::EFLAGS => self.rflags & 0xFFFF_FFFF,
            FLAGSName::FLAGS => self.rflags & 0xFFFF,
        }
    }

    /// Writes `value` through instruction pointer name `reg_name`.
    pub fn set_ip_value(&mut self, reg_name: IPName, value: u64)
        requires
            old(self).wf(),
        ensures
            final(self).wf(),
            final(self).same_vectors(old(self)),
            forall|f: int| 0 <= f < REGISTER_COUNT ==> #[trigger] final(self).gpr_value(f) == old(self).gpr_value(f),
            final(self).flags() == old(self).flags(),
            final(self).ip() == low_written(old(self).ip(), reg_name.spec_width(), value),
    {
        match reg_name {
            IPName::RIP => {
                self.rip = value;
            },
            IPName::EIP => {
                self.rip = (self.rip & 0xFFFF_FFFF_0000_0000) | (value & 0xFFFF_FFFF);
            },
            IPName::IP => {
                self.rip = (self.rip & 0xFFFF_FFFF_FFFF_0000) | (value & 0xFFFF);
            },
        }
    }

    /// The value that instruction pointer name `reg_name` shows.
    pub fn get_ip_value(&self, reg_name: IPName) -> (r: u64)
        ensures
            r == low_seen(self.ip(), reg_name.spec_width()),
    {
        match reg_name {
            IPName::RIP => self.rip,
            IPName::EIP => self.rip & 0xFFFF_FFFF,
            IPName::IP => self.rip & 0xFFFF,
        }
    }
}

} // verus!
