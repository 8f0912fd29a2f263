//! Vector registers: 512 physical bits each, read and written bit by bit, in
//! lanes of a fixed-width integer type, or over an inclusive bit range.

use crate::bits::{
    bit_of, bits_value, lemma_bits_exact, lemma_bits_round_trip, nat_bits, byte_bit, lemma_bits_value_bound, lemma_bits_value_concat, lemma_high_bits_clear,
    lemma_le_byte_bit, lemma_pack_bytes, lemma_zero_bits_value, zero_bits,
};
use crate::encoding::{lemma_le_bytes_len, MemoryIO};
use crate::wide::{u256, u512};
use bit_vec::BitVec;
use vstd::arithmetic::power2::{lemma2_to64, lemma_pow2_strictly_increases, pow2};
use vstd::prelude::*;

verus! {

/// Number of physical bits in a vector register.
pub const REGISTER_BITS: usize = 512;

#[verifier::external_type_specification]
#[verifier::external_body]
#[verifier::reject_recursive_types(B)]
pub struct ExBitVec<B>(BitVec<B>);

/// The bits a `BitVec` holds, in index order.
pub uninterp spec fn bitvec_view(v: BitVec) -> Seq<bool>;

/// Relies on bit-vec's `BitVec::from_elem`: `nbits` bits, each equal to `bit`.
#[verifier::external_body]
fn bitvec_from_elem(nbits: usize, bit: bool) -> (r: BitVec)
    ensures
        bitvec_view(r) == Seq::new(nbits as nat, |i: int| bit),
{
    BitVec::from_elem(nbits, bit)
}

/// Relies on bit-vec's `BitVec::get`: the bit at `i`, or `None` past the end.
#[verifier::external_body]
fn bitvec_get(v: &BitVec, i: usize) -> (r: Option<bool>)
    ensures
        i < bitvec_view(*v).len() ==> r == Some(bitvec_view(*v)[i as int]),
        i >= bitvec_view(*v).len() ==> r.is_none(),
{
    v.get(i)
}

/// Relies on bit-vec's `BitVec::set`: replaces the bit at `i`; it panics past
/// the end.
#[verifier::external_body]
fn bitvec_set(v: &mut BitVec, i: usize, x: bool)
    requires
        i < bitvec_view(*old(v)).len(),
    ensures
        bitvec_view(*final(v)) == bitvec_view(*old(v)).update(i as int, x),
{
    v.set(i, x)
}

/// A fixed-width unsigned integer that can stand for one lane of a register:
/// its width divides the register's.
pub trait SectionCompatible: MemoryIO {
    proof fn lemma_lane_fits()
        ensures
            1 <= Self::byte_len() <= 64,
            REGISTER_BITS as nat % (8 * Self::byte_len()) == 0,
    ;
}

impl SectionCompatible for u8 {
    proof fn lemma_lane_fits() {
        assert(8 * Self::byte_len() == 8);
    }
}

impl SectionCompatible for u16 {
    proof fn lemma_lane_fits() {
        assert(8 * Self::byte_len() == 16);
    }
}

impl SectionCompatible for u32 {
    proof fn lemma_lane_fits() {
        assert(8 * Self::byte_len() == 32);
    }
}

impl SectionCompatible for u64 {
    proof fn lemma_lane_fits() {
        assert(8 * Self::byte_len() == 64);
    }
}

impl SectionCompatible for u128 {
    proof fn lemma_lane_fits() {
        assert(8 * Self::byte_len() == 128);
    }
}

impl SectionCompatible for u256 {
    proof fn lemma_lane_fits() {
        assert(8 * Self::byte_len() == 256);
    }
}

impl SectionCompatible for u512 {
    proof fn lemma_lane_fits() {
        assert(8 * Self::byte_len() == 512);
    }
}

/// Width in bits of a lane of `T`.
pub open spec fn lane_bits<T: MemoryIO>() -> nat {
    8 * T::byte_len()
}

/// The number in lane `k` of `bits`, lanes being `w` bits wide.
pub open spec fn lane_value(bits: Seq<bool>, w: nat, k: int) -> nat {
    bits_value(bits.subrange(k * w, k * w + w))
}

/// The bits of `values` laid side by side, lowest lane first.
pub open spec fn lanes_bits<T: MemoryIO>(values: Seq<T>) -> Seq<bool> {
    Seq::new(
        values.len() * lane_bits::<T>(),
        |i: int| bit_of(values[i / lane_bits::<T>() as int].value(), (i % lane_bits::<T>() as int) as nat),
    )
}

/// Lane `k` starts at bit `k * w` and ends within `n * w` bits when `k < n`.
proof fn lemma_lane_in_range(k: int, n: int, w: int)
    requires
        0 <= k < n,
        w > 0,
    ensures
        0 <= k * w,
        k * w + w <= n * w,
{
    assert(k * w + w <= n * w) by (nonlinear_arith)
        requires k < n, w > 0;
    assert(0 <= k * w) by (nonlinear_arith)
        requires 0 <= k, w > 0;
}

/// Bit `i` of the lanes, `k * w <= i < k * w + w`, is bit `i - k * w` of lane `k`.
proof fn lemma_lane_index(i: int, k: int, w: int)
    requires
        w > 0,
        0 <= k,
        k * w <= i < k * w + w,
    ensures
        i / w == k,
        i % w == i - k * w,
{
    vstd::arithmetic::div_mod::lemma_fundamental_div_mod_converse(i, w, k, i - k * w);
}

/// Writing lanes to the low `width` bits of a register and clearing the rest,
/// then reading the whole register as lanes of the same type, gives back the
/// written lanes first and zero lanes after them; each written lane comes back
/// as the very value written.
pub proof fn lemma_narrow_write_wide_read<T: SectionCompatible>(values: Seq<T>, width: nat)
    requires
        values.len() * lane_bits::<T>() == width,
        width <= REGISTER_BITS,
    ensures
        forall|k: int|
            0 <= k < REGISTER_BITS as nat / lane_bits::<T>() ==> #[trigger] lane_value(
                lanes_bits(values) + zero_bits((REGISTER_BITS - width) as nat),
                lane_bits::<T>(),
                k,
            ) == if k < values.len() {
                values[k].value()
            } else {
                0
            },
        forall|k: int, r: T|
            0 <= k < values.len() && #[trigger] r.value() == #[trigger] lane_value(
                lanes_bits(values) + zero_bits((REGISTER_BITS - width) as nat),
                lane_bits::<T>(),
                k,
            ) ==> r == values[k],
{
    let w = lane_bits::<T>();
    let bits = lanes_bits(values) + zero_bits((REGISTER_BITS - width) as nat);
    T::lemma_lane_fits();
    vstd::arithmetic::div_mod::lemma_fundamental_div_mod(REGISTER_BITS as int, w as int);
    assert forall|k: int| 0 <= k < REGISTER_BITS as nat / w implies #[trigger] lane_value(bits, w, k) == if k
        < values.len() {
        values[k].value()
    } else {
        0
    } by {
        let count = REGISTER_BITS as nat / w;
        lemma_lane_in_range(k, count as int, w as int);
        assert(count * w == REGISTER_BITS) by (nonlinear_arith)
            requires REGISTER_BITS == w * count + REGISTER_BITS as nat % w, REGISTER_BITS as nat % w == 0;
        let sub = bits.subrange(k * w, k * w + w);
        if k < values.len() {
            lemma_lane_in_range(k, values.len() as int, w as int);
            assert forall|j: int| 0 <= j < w implies #[trigger] sub[j] == nat_bits(values[k].value(), w)[j] by {
                lemma_lane_index(k * w + j, k, w as int);
            }
            assert(sub =~= nat_bits(values[k].value(), w));
            T::lemma_value(values[k]);
            lemma_bits_exact(values[k].value(), w);
        } else {
            assert(k * w >= values.len() * w) by (nonlinear_arith)
                requires k >= values.len(), w > 0;
            assert(sub =~= zero_bits(w));
            lemma_zero_bits_value(w);
        }
    }
    assert forall|k: int, r: T|
        0 <= k < values.len() && #[trigger] r.value() == #[trigger] lane_value(bits, w, k) implies r == values[k] by {
        assert(k * w + w <= values.len() * w) by (nonlinear_arith)
            requires 0 <= k < values.len(), w > 0;
        assert(k < REGISTER_BITS as nat / w) by (nonlinear_arith)
            requires k * w + w <= width, width <= REGISTER_BITS, REGISTER_BITS == w * (REGISTER_BITS as nat / w)
                + REGISTER_BITS as nat % w, REGISTER_BITS as nat % w == 0, w > 0;
        assert(lane_value(bits, w, k) == values[k].value());
        T::lemma_value_determines(r, values[k]);
    }
}

/// After storing `v` in bits `lo..=hi`, those bits read back as `v` modulo
/// `2^(hi - lo + 1)`.
pub proof fn lemma_range_write_then_read(before: Seq<bool>, after: Seq<bool>, lo: nat, hi: nat, v: nat)
    requires
        lo <= hi < REGISTER_BITS,
        after.len() == REGISTER_BITS,
        forall|i: int|
            0 <= i < REGISTER_BITS ==> #[trigger] after[i] == if lo <= i <= hi {
                bit_of(v, (i - lo) as nat)
            } else {
                before[i]
            },
    ensures
        bits_value(after.subrange(lo as int, hi as int + 1)) == v % pow2((hi - lo + 1) as nat),
{
    assert(after.subrange(lo as int, hi as int + 1) =~= nat_bits(v, (hi - lo + 1) as nat));
    lemma_bits_round_trip(v, (hi - lo + 1) as nat);
}

/// One physical vector register.
pub(crate) struct SIMDRegister {
    pub(crate) bits: BitVec,
}

impl SIMDRegister {
    pub(crate) open spec fn view(&self) -> Seq<bool> {
        bitvec_view(self.bits)
    }

    pub(crate) open spec fn wf(&self) -> bool {
        self.view().len() == REGISTER_BITS
    }

    /// A register of `size` clear bits.
    pub(crate) fn new(size: usize) -> (r: SIMDRegister)
        ensures
            r.view() == zero_bits(size as nat),
    {
        SIMDRegister { bits: bitvec_from_elem(size, false) }
    }

    pub(crate) fn set_bit(&mut self, position: usize, value: bool)
        requires
            old(self).wf(),
            position < REGISTER_BITS,
        ensures
            final(self).wf(),
            final(self).view() == old(self).view().update(position as int, value),
    {
        bitvec_set(&mut self.bits, position, value);
    }

    pub(crate) fn get_bit(&self, position: usize) -> (r: bool)
        requires
            self.wf(),
            position < REGISTER_BITS,
        ensures
            r == self.view()[position as int],
    {
        match bitvec_get(&self.bits, position) {
            Some(b) => b,
            None => false,
        }
    }

    /// Clears every bit.
    pub(crate) fn clear(&mut self)
        requires
            old(self).wf(),
        ensures
            final(self).wf(),
            final(self).view() == zero_bits(REGISTER_BITS as nat),
    {
        let mut i: usize = 0;
        while i < REGISTER_BITS
            invariant
                i <= REGISTER_BITS,
                self.wf(),
                forall|j: int| 0 <= j < i ==> !#[trigger] self.view()[j],
            decreases REGISTER_BITS - i,
        {
            self.set_bit(i, false);
            i += 1;
        }
        assert(self.view() =~= zero_bits(REGISTER_BITS as nat));
    }

    /// Every lane of the register, lowest first.
    pub(crate) fn get_sections<T: SectionCompatible>(&self) -> (r: Vec<T>)
        requires
            self.wf(),
        ensures
            r@.len() == REGISTER_BITS as nat / lane_bits::<T>(),
            forall|k: int|
                0 <= k < r@.len() ==> #[trigger] r@[k].value() == lane_value(self.view(), lane_bits::<T>(), k),
    {
        let type_bits = 8 * T::size();
        let count = REGISTER_BITS / type_bits;
        let mut sections: Vec<T> = Vec::new();
        let mut k: usize = 0;
        while k < count
            invariant
                k <= count,
                type_bits == lane_bits::<T>(),
                8 <= type_bits <= 512,
                count == REGISTER_BITS / type_bits,
                self.wf(),
                sections@.len() == k,
                forall|j: int|
                    0 <= j < k ==> #[trigger] sections@[j].value() == lane_value(self.view(), type_bits as nat, j),
            decreases count - k,
        {
            proof {
                lemma_lane_in_range(k as int, count as int, type_bits as int);
                assert(count * type_bits <= REGISTER_BITS) by (nonlinear_arith)
                    requires count == REGISTER_BITS / type_bits, type_bits > 0;
            }
            let v: T = self.read_lane(k * type_bits, type_bits);
            sections.push(v);
            k += 1;
        }
        sections
    }

    /// Overwrites the register with `sections`, lowest lane first, when they
    /// fill it exactly; otherwise leaves it as it was.
    pub(crate) fn set_by_sections<T: SectionCompatible>(&mut self, sections: &Vec<T>) -> (r: bool)
        requires
            old(self).wf(),
        ensures
            final(self).wf(),
            r == (sections@.len() * lane_bits::<T>() == REGISTER_BITS),
            r ==> final(self).view() == lanes_bits(sections@),
            !r ==> final(self).view() == old(self).view(),
    {
        let type_bits = 8 * T::size();
        if sections.len() != REGISTER_BITS / type_bits {
            proof {
                T::lemma_lane_fits();
                if sections@.len() * type_bits == REGISTER_BITS {
                    vstd::arithmetic::div_mod::lemma_div_multiples_vanish(sections@.len() as int, type_bits as int);
                    assert(sections@.len() * type_bits == type_bits * sections@.len()) by (nonlinear_arith);
                }
            }
            return false;
        }
        proof {
            T::lemma_lane_fits();
            vstd::arithmetic::div_mod::lemma_fundamental_div_mod(REGISTER_BITS as int, type_bits as int);
            assert(sections@.len() * type_bits == type_bits * sections@.len()) by (nonlinear_arith);
        }
        let ghost target = lanes_bits(sections@);
        let mut k: usize = 0;
        while k < sections.len()
            invariant
                k <= sections@.len(),
                type_bits == lane_bits::<T>(),
                8 <= type_bits <= 512,
                sections@.len() * type_bits == REGISTER_BITS,
                target == lanes_bits(sections@),
                self.wf(),
                forall|i: int| 0 <= i < k * type_bits ==> #[trigger] self.view()[i] == target[i],
            decreases sections@.len() - k,
        {
            proof {
                lemma_lane_in_range(k as int, sections@.len() as int, type_bits as int);
            }
            let ghost before = self.view();
            self.write_lane(k * type_bits, type_bits, &sections[k]);
            proof {
                assert forall|i: int| 0 <= i < (k + 1) * type_bits implies #[trigger] self.view()[i] == target[i] by {
                    assert((k + 1) * type_bits == k * type_bits + type_bits) by (nonlinear_arith);
                    if i >= k * type_bits {
                        lemma_lane_index(i, k as int, type_bits as int);
                    }
                }
            }
            k += 1;
        }
        assert(self.view() =~= target);
        true
    }

    /// The number held in bits `start..=end`, as a `T`.
    pub(crate) fn get_by_index<T: SectionCompatible>(&self, start_index: usize, end_index: usize) -> (r: T)
        requires
            self.wf(),
            start_index <= end_index < REGISTER_BITS,
            end_index - start_index + 1 <= lane_bits::<T>(),
        ensures
            r.value() == bits_value(self.view().subrange(start_index as int, end_index + 1)),
    {
        self.read_lane(start_index, end_index - start_index + 1)
    }

    /// Stores the low bits of `value` in bits `start..=end`; bits of the range
    /// beyond the width of `T` become clear.
    pub(crate) fn set_by_index<T: SectionCompatible>(&mut self, start_index: usize, end_index: usize, value: &T)
        requires
            old(self).wf(),
            start_index <= end_index < REGISTER_BITS,
        ensures
            final(self).wf(),
            forall|i: int|
                0 <= i < REGISTER_BITS ==> #[trigger] final(self).view()[i] == if start_index <= i <= end_index {
                    bit_of(value.value(), (i - start_index) as nat)
                } else {
                    old(self).view()[i]
                },
    {
        self.write_lane(start_index, end_index - start_index + 1, value);
    }

    /// The number held in the `len` bits from `start`, as a `T`.
    fn read_lane<T: SectionCompatible>(&self, start: usize, len: usize) -> (r: T)
        requires
            self.wf(),
            len <= lane_bits::<T>(),
            start + len <= REGISTER_BITS,
        ensures
            r.value() == bits_value(self.view().subrange(start as int, start + len)),
    {
        let n = T::size();
        proof {
            T::lemma_lane_fits();
        }
        let ghost src = self.view().subrange(start as int, start + len);
        let ghost ext = src + zero_bits((8 * n - len) as nat);
        let mut bytes: Vec<u8> = Vec::new();
        let mut m: usize = 0;
        while m < n
            invariant
                m <= n,
                n <= 64,
                n == T::byte_len(),
                len <= 8 * n,
                start + len <= REGISTER_BITS,
                self.wf(),
                ext == src + zero_bits((8 * n - len) as nat),
                src == self.view().subrange(start as int, start + len),
                bytes@.len() == m,
                forall|j: int| 0 <= j < m ==> #[trigger] bytes@[j] as nat == bits_value(ext.subrange(8 * j, 8 * j + 8)),
            decreases n - m,
        {
            let mut acc: u8 = 0;
            let mut t: usize = 8;
            while t > 0
                invariant
                    t <= 8,
                    m < n,
                    n <= 64,
                    n == T::byte_len(),
                    len <= 8 * n,
                    start + len <= REGISTER_BITS,
                    self.wf(),
                    ext == src + zero_bits((8 * n - len) as nat),
                    src == self.view().subrange(start as int, start + len),
                    acc as nat == bits_value(ext.subrange(8 * m + t, 8 * m + 8)),
                decreases t,
            {
                proof {
                    lemma_bits_value_bound(ext.subrange(8 * m + t, 8 * m + 8));
                    lemma2_to64();
                    if t > 1 {
                        lemma_pow2_strictly_increases((8 - t) as nat, 7);
                    }
                }
                t -= 1;
                let q = 8 * m + t;
                let bit = if q < len {
                    self.get_bit(start + q)
                } else {
                    false
                };
                acc = acc * 2 + if bit {
                    1
                } else {
                    0
                };
                proof {
                    let sub = ext.subrange(q as int, 8 * m + 8);
                    assert(sub.drop_first() =~= ext.subrange(q + 1, 8 * m + 8));
                    assert(sub[0] == bit);
                }
            }
            bytes.push(acc);
            m += 1;
        }
        proof {
            lemma_pack_bytes(ext, bytes@);
            lemma_bits_value_concat(src, zero_bits((8 * n - len) as nat));
            lemma_zero_bits_value((8 * n - len) as nat);
        }
        T::from_bytes(bytes.as_slice())
    }

    /// Stores the `len` low bits of `value` from bit `start` upwards.
    fn write_lane<T: SectionCompatible>(&mut self, start: usize, len: usize, value: &T)
        requires
            old(self).wf(),
            start + len <= REGISTER_BITS,
        ensures
            final(self).wf(),
            forall|i: int|
                0 <= i < REGISTER_BITS ==> #[trigger] final(self).view()[i] == if start <= i < start + len {
                    bit_of(value.value(), (i - start) as nat)
                } else {
                    old(self).view()[i]
                },
    {
        let bytes = value.to_bytes();
        let n = T::size();
        proof {
            T::lemma_value(*value);
            lemma_le_bytes_len(value.value(), T::byte_len());
        }
        let mut q: usize = 0;
        while q < len
            invariant
                q <= len,
                start + len <= REGISTER_BITS,
                n == T::byte_len(),
                n <= 64,
                old(self).wf(),
                bytes@ == crate::encoding::le_bytes(value.value(), T::byte_len()),
                bytes@.len() == n,
                value.value() < pow2(8 * T::byte_len()),
                self.wf(),
                forall|i: int|
                    0 <= i < REGISTER_BITS ==> #[trigger] self.view()[i] == if start <= i < start + q {
                        bit_of(value.value(), (i - start) as nat)
                    } else {
                        old(self).view()[i]
                    },
            decreases len - q,
        {
            let bit = if q < 8 * n {
                let b = byte_bit(bytes[q / 8], (q % 8) as u8);
                proof {
                    lemma_le_byte_bit(value.value(), T::byte_len(), (q / 8) as nat, (q % 8) as nat);
                    assert(8 * (q / 8) + q % 8 == q);
                }
                b
            } else {
                proof {
                    lemma_high_bits_clear(value.value(), 8 * T::byte_len(), q as nat);
                }
                false
            };
            self.set_bit(start + q, bit);
            q += 1;
        }
    }
}

} // verus!
