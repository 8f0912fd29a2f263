//! 256- and 512-bit unsigned integers, held as little-endian 64-bit words.

use crate::encoding::{le_bytes, le_value, MemoryIO};
use primitive_types::{U256, U512};
use vstd::arithmetic::power2::{lemma2_to64, lemma_pow2_adds, pow2};
use vstd::prelude::*;

verus! {

/// The number whose 64-bit words, least significant first, are `w`.
pub open spec fn words_value(w: Seq<u64>) -> nat
    decreases w.len(),
{
    if w.len() == 0 {
        0
    } else {
        w[0] as nat + pow2(64) * words_value(w.drop_first())
    }
}

pub proof fn lemma_words_value_bound(w: Seq<u64>)
    ensures
        words_value(w) < pow2(64 * w.len()),
    decreases w.len(),
{
    lemma2_to64();
    if w.len() > 0 {
        let t = w.drop_first();
        lemma_words_value_bound(t);
        lemma_pow2_adds(64, 64 * t.len());
        assert(64 * w.len() == 64 + 64 * t.len());
        let p = pow2(64 * t.len());
        let v = words_value(t);
        let q = pow2(64);
        assert(w[0] as nat + q * v < q * p) by (nonlinear_arith)
            requires v < p, w[0] < q;
    }
}

/// Words of equal count that stand for the same number are equal.
pub proof fn lemma_words_value_injective(a: Seq<u64>, b: Seq<u64>)
    requires
        a.len() == b.len(),
        words_value(a) == words_value(b),
    ensures
        a == b,
    decreases a.len(),
{
    lemma2_to64();
    if a.len() > 0 {
        let q = pow2(64);
        let (x0, y0) = (a[0] as nat, b[0] as nat);
        let (xv, yv) = (words_value(a.drop_first()), words_value(b.drop_first()));
        assert(x0 == y0 && xv == yv) by (nonlinear_arith)
            requires x0 + q * xv == y0 + q * yv, x0 < q, y0 < q, q > 0;
        lemma_words_value_injective(a.drop_first(), b.drop_first());
        assert(a =~= b) by {
            assert forall|i: int| 0 <= i < a.len() implies a[i] == b[i] by {
                if i > 0 {
                    assert(a[i] == a.drop_first()[i - 1]);
                    assert(b[i] == b.drop_first()[i - 1]);
                }
            }
        }
    }
}

pub proof fn lemma_words_value_zero(w: Seq<u64>)
    requires
        forall|i: int| 0 <= i < w.len() ==> w[i] == 0,
    ensures
        words_value(w) == 0,
    decreases w.len(),
{
    if w.len() > 0 {
        let t = w.drop_first();
        assert forall|i: int| 0 <= i < t.len() implies t[i] == 0 by {
            assert(t[i] == w[i + 1]);
        }
        lemma_words_value_zero(t);
        assert(w[0] == 0);
        assert(pow2(64) * 0 == 0) by (nonlinear_arith);
    }
}

/// Two low words `lo`, `hi` followed by zeros stand for `lo + 2^64 * hi`.
proof fn lemma_words_value_two(w: Seq<u64>)
    requires
        w.len() >= 2,
        forall|i: int| 2 <= i < w.len() ==> w[i] == 0,
    ensures
        words_value(w) == w[0] as nat + pow2(64) * w[1] as nat,
{
    let t2 = w.drop_first().drop_first();
    assert forall|i: int| 0 <= i < t2.len() implies t2[i] == 0 by {
        assert(t2[i] == w[i + 2]);
    }
    lemma_words_value_zero(t2);
    let t1 = w.drop_first();
    assert(t1.drop_first() == t2);
    assert(pow2(64) * 0 == 0) by (nonlinear_arith);
    assert(words_value(t1) == w[1] as nat);
}

/// The words of a `u128`, padded with zeros to `n` words.
proof fn lemma_u128_words(v: u128, w0: u64, w1: u64, w: Seq<u64>)
    requires
        w.len() >= 2,
        w[0] == w0,
        w[1] == w1,
        forall|i: int| 2 <= i < w.len() ==> w[i] == 0,
        w0 as nat == v as nat % 0x1_0000_0000_0000_0000,
        w1 as nat == v as nat / 0x1_0000_0000_0000_0000,
    ensures
        words_value(w) == v as nat,
{
    lemma2_to64();
    lemma_words_value_two(w);
}

proof fn lemma_pow2_wide()
    ensures
        pow2(64) == 0x1_0000_0000_0000_0000,
        pow2(128) == pow2(64) * pow2(64),
        pow2(256) == pow2(128) * pow2(128),
        pow2(512) == pow2(256) * pow2(256),
{
    lemma2_to64();
    lemma_pow2_adds(64, 64);
    lemma_pow2_adds(128, 128);
    lemma_pow2_adds(256, 256);
}

/// Relies on primitive-types' `U256::to_little_endian`: the 32 bytes, least
/// significant first, of the number whose words (least significant first) are
/// `words`.
#[verifier::external_body]
fn u256_le_bytes(words: [u64; 4]) -> (r: Vec<u8>)
    ensures
        r@ == le_bytes(words_value(words@), 32),
{
    let mut buf = vec![0u8; 32];
    U256(words).to_little_endian(&mut buf);
    buf
}

/// Relies on primitive-types' `U256::from_little_endian`: the words of the
/// number whose 32 bytes, least significant first, are `bytes`.
#[verifier::external_body]
fn u256_from_le_bytes(bytes: &[u8]) -> (r: [u64; 4])
    requires
        bytes@.len() == 32,
    ensures
        words_value(r@) == le_value(bytes@),
{
    U256::from_little_endian(bytes).0
}

/// Relies on primitive-types' `U512::to_little_endian`: the 64 bytes, least
/// significant first, of the number whose words (least significant first) are
/// `words`.
#[verifier::external_body]
fn u512_le_bytes(words: [u64; 8]) -> (r: Vec<u8>)
    ensures
        r@ == le_bytes(words_value(words@), 64),
{
    let mut buf = vec![0u8; 64];
    U512(words).to_little_endian(&mut buf);
    buf
}

/// Relies on primitive-types' `U512::from_little_endian`: the words of the
/// number whose 64 bytes, least significant first, are `bytes`.
#[verifier::external_body]
fn u512_from_le_bytes(bytes: &[u8]) -> (r: [u64; 8])
    requires
        bytes@.len() == 64,
    ensures
        words_value(r@) == le_value(bytes@),
{
    U512::from_little_endian(bytes).0
}

/// A 256-bit unsigned integer.
#[allow(non_camel_case_types)]
#[derive(Clone, Copy, Debug, Eq)]
pub struct u256 {
    words: [u64; 4],
}

/// A 512-bit unsigned integer.
#[allow(non_camel_case_types)]
#[derive(Clone, Copy, Debug, Eq)]
pub struct u512 {
    words: [u64; 8],
}

impl u256 {
    pub closed spec fn spec_value(&self) -> nat {
        words_value(self.words@)
    }

    pub fn from_u128(v: u128) -> (r: u256)
        ensures
            r.spec_value() == v as nat,
    {
        let w0 = (v % 0x1_0000_0000_0000_0000) as u64;
        let w1 = (v / 0x1_0000_0000_0000_0000) as u64;
        let r = u256 { words: [w0, w1, 0, 0] };
        proof {
            lemma_u128_words(v, w0, w1, r.words@);
        }
        r
    }
}

impl u512 {
    pub closed spec fn spec_value(&self) -> nat {
        words_value(self.words@)
    }

    pub fn from_u128(v: u128) -> (r: u512)
        ensures
            r.spec_value() == v as nat,
    {
        let w0 = (v % 0x1_0000_0000_0000_0000) as u64;
        let w1 = (v / 0x1_0000_0000_0000_0000) as u64;
        let r = u512 { words: [w0, w1, 0, 0, 0, 0, 0, 0] };
        proof {
            lemma_u128_words(v, w0, w1, r.words@);
        }
        r
    }
}

impl PartialEq for u256 {
    fn eq(&self, o: &u256) -> (r: bool) {
        let r = self.words[0] == o.words[0] &&
            self.words[1] == o.words[1] &&
            self.words[2] == o.words[2] &&
            self.words[3] == o.words[3];
        proof {
            if r {
                assert(self.words@ =~= o.words@);
            } else if self.spec_value() == o.spec_value() {
                lemma_words_value_injective(self.words@, o.words@);
            }
        }
        r
    }
}

impl vstd::std_specs::cmp::PartialEqSpecImpl for u256 {
    open spec fn obeys_eq_spec() -> bool {
        true
    }

    open spec fn eq_spec(&self, o: &u256) -> bool {
        self.spec_value() == o.spec_value()
    }
}

impl PartialEq for u512 {
    fn eq(&self, o: &u512) -> (r: bool) {
        let r = self.words[0] == o.words[0] &&
            self.words[1] == o.words[1] &&
            self.words[2] == o.words[2] &&
            self.words[3] == o.words[3] &&
            self.words[4] == o.words[4] &&
            self.words[5] == o.words[5] &&
            self.words[6] == o.words[6] &&
            self.words[7] == o.words[7];
        proof {
            if r {
                assert(self.words@ =~= o.words@);
            } else if self.spec_value() == o.spec_value() {
                lemma_words_value_injective(self.words@, o.words@);
            }
        }
        r
    }
}

impl vstd::std_specs::cmp::PartialEqSpecImpl for u512 {
    open spec fn obeys_eq_spec() -> bool {
        true
    }

    open spec fn eq_spec(&self, o: &u512) -> bool {
        self.spec_value() == o.spec_value()
    }
}

impl MemoryIO for u256 {
    open spec fn byte_len() -> nat {
        32
    }

    open spec fn value(&self) -> nat {
        self.spec_value()
    }

    proof fn lemma_value(x: Self) {
        lemma_pow2_wide();
        lemma_words_value_bound(x.words@);
    }

    proof fn lemma_value_determines(x: Self, y: Self) {
        lemma_words_value_injective(x.words@, y.words@);
        assert(x.words =~= y.words);
    }

    fn size() -> (r: usize) {
        32
    }

    fn from_bytes(bytes: &[u8]) -> (r: Self) {
        u256 { words: u256_from_le_bytes(bytes) }
    }

    fn to_bytes(&self) -> (r: Vec<u8>) {
        u256_le_bytes(self.words)
    }
}

impl From<u128> for u256 {
    fn from(v: u128) -> (r: u256) {
        let r = u256::from_u128(v);
        proof {
            let x = choose|x: u256| x.spec_value() == v as nat;
            lemma_words_value_injective(x.words@, r.words@);
            assert(x.words =~= r.words);
        }
        r
    }
}

impl vstd::std_specs::convert::FromSpecImpl<u128> for u256 {
    open spec fn obeys_from_spec() -> bool {
        true
    }

    open spec fn from_spec(v: u128) -> u256 {
        choose|x: u256| x.spec_value() == v as nat
    }
}

impl MemoryIO for u512 {
    open spec fn byte_len() -> nat {
        64
    }

    open spec fn value(&self) -> nat {
        self.spec_value()
    }

    proof fn lemma_value(x: Self) {
        lemma_pow2_wide();
        lemma_words_value_bound(x.words@);
    }

    proof fn lemma_value_determines(x: Self, y: Self) {
        lemma_words_value_injective(x.words@, y.words@);
        assert(x.words =~= y.words);
    }

    fn size() -> (r: usize) {
        64
    }

    fn from_bytes(bytes: &[u8]) -> (r: Self) {
        u512 { words: u512_from_le_bytes(bytes) }
    }

    fn to_bytes(&self) -> (r: Vec<u8>) {
        u512_le_bytes(self.words)
    }
}

impl From<u128> for u512 {
    fn from(v: u128) -> (r: u512) {
        let r = u512::from_u128(v);
        proof {
            let x = choose|x: u512| x.spec_value() == v as nat;
            lemma_words_value_injective(x.words@, r.words@);
            assert(x.words =~= r.words);
        }
        r
    }
}

impl vstd::std_specs::convert::FromSpecImpl<u128> for u512 {
    open spec fn obeys_from_spec() -> bool {
        true
    }

    open spec fn from_spec(v: u128) -> u512 {
        choose|x: u512| x.spec_value() == v as nat
    }
}

} // verus!
