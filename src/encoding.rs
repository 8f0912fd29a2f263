//! Little-endian encoding of fixed-width unsigned integers.

use vstd::arithmetic::power2::{lemma2_to64, lemma_pow2_adds, pow2};
use byteorder::{ByteOrder, LittleEndian};
use vstd::prelude::*;

verus! {

/// The unsigned number whose little-endian bytes are `b`.
pub open spec fn le_value(b: Seq<u8>) -> nat
    decreases b.len(),
{
    if b.len() == 0 {
        0
    } else {
        b[0] as nat + 256 * le_value(b.drop_first())
    }
}

/// The `len` low little-endian bytes of `n`.
pub open spec fn le_bytes(n: nat, len: nat) -> Seq<u8>
    decreases len,
{
    if len == 0 {
        Seq::empty()
    } else {
        seq![(n % 256) as u8] + le_bytes(n / 256, (len - 1) as nat)
    }
}

pub proof fn lemma_le_bytes_len(n: nat, len: nat)
    ensures
        le_bytes(n, len).len() == len,
    decreases len,
{
    if len > 0 {
        lemma_le_bytes_len(n / 256, (len - 1) as nat);
    }
}

proof fn lemma_pow2_step8(len: nat)
    requires
        len > 0,
    ensures
        pow2(8 * len) == 256 * pow2(8 * (len - 1) as nat),
{
    lemma2_to64();
    lemma_pow2_adds(8, 8 * (len - 1) as nat);
    assert(8 * len == 8 + 8 * (len - 1) as nat) by (nonlinear_arith)
        requires len > 0;
}

/// Decoding the encoding of a number that fits gives the number back.
pub proof fn lemma_le_round_trip(n: nat, len: nat)
    requires
        n < pow2(8 * len),
    ensures
        le_value(le_bytes(n, len)) == n,
    decreases len,
{
    if len == 0 {
        lemma2_to64();
    } else {
        let l1 = (len - 1) as nat;
        lemma_pow2_step8(len);
        let p = pow2(8 * l1);
        assert(n / 256 < p) by (nonlinear_arith)
            requires n < 256 * p;
        lemma_le_round_trip(n / 256, l1);
        let s = le_bytes(n, len);
        assert(s.drop_first() =~= le_bytes(n / 256, l1));
        assert(n == n % 256 + 256 * (n / 256)) by (nonlinear_arith);
    }
}

pub proof fn lemma_le_value_zeros(b: Seq<u8>)
    requires
        forall|i: int| 0 <= i < b.len() ==> b[i] == 0,
    ensures
        le_value(b) == 0,
    decreases b.len(),
{
    if b.len() > 0 {
        let t = b.drop_first();
        assert forall|i: int| 0 <= i < t.len() implies t[i] == 0 by {
            assert(t[i] == b[i + 1]);
        }
        lemma_le_value_zeros(t);
        assert(b[0] == 0);
    }
}

/// The value zero of `T`.
pub fn zero_value<T: MemoryIO>() -> (r: T)
    ensures
        r.value() == 0,
{
    let n = T::size();
    let z: Vec<u8> = vec![0u8; n];
    proof {
        lemma_le_value_zeros(z@);
    }
    T::from_bytes(z.as_slice())
}

/// A fixed-width unsigned integer that memory can hold: it has a fixed number
/// of bytes and a little-endian byte form.
pub trait MemoryIO: Sized {
    /// Number of bytes of the encoding.
    spec fn byte_len() -> nat;

    /// The unsigned number this value stands for.
    spec fn value(&self) -> nat;

    proof fn lemma_value(x: Self)
        ensures
            1 <= Self::byte_len() <= 64,
            x.value() < pow2(8 * Self::byte_len()),
    ;

    /// Two values that stand for the same number are the same value.
    proof fn lemma_value_determines(x: Self, y: Self)
        requires
            x.value() == y.value(),
        ensures
            x == y,
    ;

    fn size() -> (r: usize)
        ensures
            r as nat == Self::byte_len(),
            1 <= r <= 64,
    ;

    fn from_bytes(bytes: &[u8]) -> (r: Self)
        requires
            bytes@.len() == Self::byte_len(),
        ensures
            r.value() == le_value(bytes@),
    ;

    fn to_bytes(&self) -> (r: Vec<u8>)
        ensures
            r@ == le_bytes(self.value(), Self::byte_len()),
    ;
}

impl MemoryIO for u8 {
    open spec fn byte_len() -> nat {
        1
    }

    open spec fn value(&self) -> nat {
        *self as nat
    }

    proof fn lemma_value(x: Self) {
        lemma2_to64();
    }

    proof fn lemma_value_determines(x: Self, y: Self) {
    }

    fn size() -> (r: usize) {
        1
    }

    fn from_bytes(bytes: &[u8]) -> (r: Self) {
        proof {
            assert(bytes@.len() == 1);
            assert(le_value(bytes@.drop_first()) == 0);
        }
        bytes[0]
    }

    fn to_bytes(&self) -> (r: Vec<u8>) {
        let r = vec![*self];
        proof {
            assert(le_bytes(0, 0) =~= Seq::<u8>::empty());
            assert(r@ =~= le_bytes(*self as nat, 1));
        }
        r
    }
}

proof fn lemma_pow2_fits()
    ensures
        pow2(8) == 0x100,
        pow2(16) == 0x1_0000,
        pow2(32) == 0x1_0000_0000,
        pow2(64) == 0x1_0000_0000_0000_0000,
        pow2(128) == 0x1_0000_0000_0000_0000_0000_0000_0000_0000,
{
    lemma2_to64();
    lemma_pow2_adds(64, 64);
}

/// Relies on byteorder's `LittleEndian::read_u16`: the number whose 2 bytes,
/// least significant first, are `buf`.
#[verifier::external_body]
fn read_le_u16(buf: &[u8]) -> (r: u16)
    requires
        buf@.len() == 2,
    ensures
        r as nat == le_value(buf@),
{
    LittleEndian::read_u16(buf)
}

/// Relies on byteorder's `LittleEndian::write_u16`: the 2 bytes of `n`, least
/// significant first.
#[verifier::external_body]
fn write_le_u16(n: u16) -> (r: Vec<u8>)
    ensures
        r@ == le_bytes(n as nat, 2),
{
    let mut buf = vec![0u8; 2];
    LittleEndian::write_u16(&mut buf, n);
    buf
}

impl MemoryIO for u16 {
    open spec fn byte_len() -> nat {
        2
    }

    open spec fn value(&self) -> nat {
        *self as nat
    }

    proof fn lemma_value(x: Self) {
        lemma_pow2_fits();
    }

    proof fn lemma_value_determines(x: Self, y: Self) {
    }

    fn size() -> (r: usize) {
        2
    }

    fn from_bytes(bytes: &[u8]) -> (r: Self) {
        read_le_u16(bytes)
    }

    fn to_bytes(&self) -> (r: Vec<u8>) {
        write_le_u16(*self)
    }
}

/// Relies on byteorder's `LittleEndian::read_u32`: the number whose 4 bytes,
/// least significant first, are `buf`.
#[verifier::external_body]
fn read_le_u32(buf: &[u8]) -> (r: u32)
    requires
        buf@.len() == 4,
    ensures
        r as nat == le_value(buf@),
{
    LittleEndian::read_u32(buf)
}

/// Relies on byteorder's `LittleEndian::write_u32`: the 4 bytes of `n`, least
/// significant first.
#[verifier::external_body]
fn write_le_u32(n: u32) -> (r: Vec<u8>)
    ensures
        r@ == le_bytes(n as nat, 4),
{
    let mut buf = vec![0u8; 4];
    LittleEndian::write_u32(&mut buf, n);
    buf
}

impl MemoryIO for u32 {
    open spec fn byte_len() -> nat {
        4
    }

    open spec fn value(&self) -> nat {
        *self as nat
    }

    proof fn lemma_value(x: Self) {
        lemma_pow2_fits();
    }

    proof fn lemma_value_determines(x: Self, y: Self) {
    }

    fn size() -> (r: usize) {
        4
    }

    fn from_bytes(bytes: &[u8]) -> (r: Self) {
        read_le_u32(bytes)
    }

    fn to_bytes(&self) -> (r: Vec<u8>) {
        write_le_u32(*self)
    }
}

/// Relies on byteorder's `LittleEndian::read_u64`: the number whose 8 bytes,
/// least significant first, are `buf`.
#[verifier::external_body]
fn read_le_u64(buf: &[u8]) -> (r: u64)
    requires
        buf@.len() == 8,
    ensures
        r as nat == le_value(buf@),
{
    LittleEndian::read_u64(buf)
}

/// Relies on byteorder's `LittleEndian::write_u64`: the 8 bytes of `n`, least
/// significant first.
#[verifier::external_body]
fn write_le_u64(n: u64) -> (r: Vec<u8>)
    ensures
        r@ == le_bytes(n as nat, 8),
{
    let mut buf = vec![0u8; 8];
    LittleEndian::write_u64(&mut buf, n);
    buf
}

impl MemoryIO for u64 {
    open spec fn byte_len() -> nat {
        8
    }

    open spec fn value(&self) -> nat {
        *self as nat
    }

    proof fn lemma_value(x: Self) {
        lemma_pow2_fits();
    }

    proof fn lemma_value_determines(x: Self, y: Self) {
    }

    fn size() -> (r: usize) {
        8
    }

    fn from_bytes(bytes: &[u8]) -> (r: Self) {
        read_le_u64(bytes)
    }

    fn to_bytes(&self) -> (r: Vec<u8>) {
        write_le_u64(*self)
    }
}

/// Relies on byteorder's `LittleEndian::read_u128`: the number whose 16 bytes,
/// least significant first, are `buf`.
#[verifier::external_body]
fn read_le_u128(buf: &[u8]) -> (r: u128)
    requires
        buf@.len() == 16,
    ensures
        r as nat == le_value(buf@),
{
    LittleEndian::read_u128(buf)
}

/// Relies on byteorder's `LittleEndian::write_u128`: the 16 bytes of `n`, least
/// significant first.
#[verifier::external_body]
fn write_le_u128(n: u128) -> (r: Vec<u8>)
    ensures
        r@ == le_bytes(n as nat, 16),
{
    let mut buf = vec![0u8; 16];
    LittleEndian::write_u128(&mut buf, n);
    buf
}

impl MemoryIO for u128 {
    open spec fn byte_len() -> nat {
        16
    }

    open spec fn value(&self) -> nat {
        *self as nat
    }

    proof fn lemma_value(x: Self) {
        lemma_pow2_fits();
    }

    proof fn lemma_value_determines(x: Self, y: Self) {
    }

    fn size() -> (r: usize) {
        16
    }

    fn from_bytes(bytes: &[u8]) -> (r: Self) {
        read_le_u128(bytes)
    }

    fn to_bytes(&self) -> (r: Vec<u8>) {
        write_le_u128(*self)
    }
}

} // verus!
