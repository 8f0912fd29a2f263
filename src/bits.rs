//! Bit sequences, least significant bit first, and the numbers they stand for.

use crate::encoding::{le_bytes, le_value, lemma_le_bytes_len};
use vstd::arithmetic::div_mod::{lemma_div_denominator, lemma_fundamental_div_mod, lemma_mod_breakdown};
use vstd::arithmetic::power2::{lemma2_to64, lemma_pow2_adds, lemma_pow2_pos, pow2};
use vstd::bits::lemma_u8_shr_is_div;
use vstd::prelude::*;

verus! {

/// Bit `i` of `n`.
pub open spec fn bit_of(n: nat, i: nat) -> bool {
    (n / pow2(i)) % 2 == 1
}

/// The `len` low bits of `n`, least significant first.
pub open spec fn nat_bits(n: nat, len: nat) -> Seq<bool> {
    Seq::new(len, |i: int| bit_of(n, i as nat))
}

/// The number whose bits, least significant first, are `s`.
pub open spec fn bits_value(s: Seq<bool>) -> nat
    decreases s.len(),
{
    if s.len() == 0 {
        0
    } else {
        (if s[0] {
            1nat
        } else {
            0nat
        }) + 2 * bits_value(s.drop_first())
    }
}

/// `len` clear bits.
pub open spec fn zero_bits(len: nat) -> Seq<bool> {
    Seq::new(len, |i: int| false)
}

pub proof fn lemma_bits_value_concat(a: Seq<bool>, b: Seq<bool>)
    ensures
        bits_value(a + b) == bits_value(a) + pow2(a.len()) * bits_value(b),
    decreases a.len(),
{
    if a.len() == 0 {
        lemma2_to64();
        assert(a + b =~= b);
    } else {
        let t = a.drop_first();
        lemma_bits_value_concat(t, b);
        assert((a + b).drop_first() =~= t + b);
        lemma_pow2_adds(1, t.len());
        lemma2_to64();
        let p = pow2(t.len());
        let x = bits_value(t);
        let y = bits_value(b);
        assert(2 * (x + p * y) == 2 * x + (2 * p) * y) by (nonlinear_arith);
    }
}

pub proof fn lemma_bits_value_bound(s: Seq<bool>)
    ensures
        bits_value(s) < pow2(s.len()),
    decreases s.len(),
{
    lemma2_to64();
    if s.len() > 0 {
        lemma_bits_value_bound(s.drop_first());
        lemma_pow2_adds(1, (s.len() - 1) as nat);
    }
}

pub proof fn lemma_zero_bits_value(len: nat)
    ensures
        bits_value(zero_bits(len)) == 0,
    decreases len,
{
    if len > 0 {
        assert(zero_bits(len).drop_first() =~= zero_bits((len - 1) as nat));
        lemma_zero_bits_value((len - 1) as nat);
    }
}

proof fn lemma_bit_of_half(n: nat, i: nat)
    ensures
        bit_of(n, i + 1) == bit_of(n / 2, i),
{
    lemma_pow2_adds(1, i);
    lemma2_to64();
    lemma_pow2_pos(i);
    lemma_div_denominator(n as int, 2, pow2(i) as int);
}

/// The low `len` bits of `n` stand for `n` modulo `2^len`.
pub proof fn lemma_bits_round_trip(n: nat, len: nat)
    ensures
        bits_value(nat_bits(n, len)) == n % pow2(len),
    decreases len,
{
    lemma2_to64();
    if len > 0 {
        let l1 = (len - 1) as nat;
        lemma_bits_round_trip(n / 2, l1);
        assert forall|i: int| 0 <= i < l1 implies #[trigger] nat_bits(n, len).drop_first()[i] == nat_bits(
            n / 2,
            l1,
        )[i] by {
            lemma_bit_of_half(n, i as nat);
        }
        assert(nat_bits(n, len).drop_first() =~= nat_bits(n / 2, l1));
        lemma_pow2_adds(1, l1);
        lemma_pow2_pos(l1);
        lemma_mod_breakdown(n as int, 2, pow2(l1) as int);
        assert(bit_of(n, 0) == (n % 2 == 1));
    }
}

/// A number below `2^len` is given back by its `len` low bits.
pub proof fn lemma_bits_exact(n: nat, len: nat)
    requires
        n < pow2(len),
    ensures
        bits_value(nat_bits(n, len)) == n,
{
    lemma_bits_round_trip(n, len);
    vstd::arithmetic::div_mod::lemma_small_mod(n, pow2(len));
}

/// Bits at or above the width of a number are clear.
pub proof fn lemma_high_bits_clear(n: nat, w: nat, i: nat)
    requires
        n < pow2(w),
        w <= i,
    ensures
        !bit_of(n, i),
{
    lemma_pow2_pos(i);
    if w < i {
        vstd::arithmetic::power2::lemma_pow2_strictly_increases(w, i);
    }
    vstd::arithmetic::div_mod::lemma_basic_div(n as int, pow2(i) as int);
}

/// Bit `t` of a byte.
pub fn byte_bit(b: u8, t: u8) -> (r: bool)
    requires
        t < 8,
    ensures
        r == bit_of(b as nat, t as nat),
{
    proof {
        lemma_u8_shr_is_div(b, t);
    }
    (b >> t) % 2 == 1
}

/// Byte `m` of the little-endian encoding of `n`.
proof fn lemma_le_byte(n: nat, len: nat, m: nat)
    requires
        m < len,
    ensures
        le_bytes(n, len).len() == len,
        le_bytes(n, len)[m as int] as nat == (n / pow2(8 * m)) % 256,
    decreases m,
{
    lemma_le_bytes_len(n, len);
    lemma2_to64();
    assert(le_bytes(n, len) == seq![(n % 256) as u8] + le_bytes(n / 256, (len - 1) as nat));
    if m == 0 {
        assert(n / pow2(0) == n);
    } else {
        lemma_le_bytes_len(n / 256, (len - 1) as nat);
        lemma_le_byte(n / 256, (len - 1) as nat, (m - 1) as nat);
        assert(le_bytes(n, len)[m as int] == le_bytes(n / 256, (len - 1) as nat)[m - 1]);
        lemma_pow2_adds(8, 8 * (m - 1) as nat);
        assert(8 + 8 * (m - 1) as nat == 8 * m);
        lemma_pow2_pos(8 * (m - 1) as nat);
        lemma_div_denominator(n as int, 256, pow2(8 * (m - 1) as nat) as int);
        assert(n / pow2(8 * m) == (n / 256) / pow2(8 * (m - 1) as nat));
    }
}

/// Bit `t` of byte `m` of the little-endian encoding of `n` is bit `8m + t` of `n`.
pub proof fn lemma_le_byte_bit(n: nat, len: nat, m: nat, t: nat)
    requires
        m < len,
        t < 8,
    ensures
        le_bytes(n, len).len() == len,
        bit_of(le_bytes(n, len)[m as int] as nat, t) == bit_of(n, 8 * m + t),
{
    lemma_le_byte(n, len, m);
    lemma2_to64();
    let x = n / pow2(8 * m);
    lemma_pow2_pos(t);
    lemma_pow2_pos(8 * m);
    // (x % 256) / 2^t and x / 2^t agree in their low bit
    lemma_pow2_adds(t, (8 - t) as nat);
    lemma_pow2_pos((8 - t) as nat);
    lemma_mod_breakdown(x as int, pow2(t) as int, pow2((8 - t) as nat) as int);
    lemma_fundamental_div_mod(x as int, pow2(t) as int);
    let q = x / pow2(t);
    let r = x % pow2(t);
    let k = pow2((8 - t) as nat);
    assert(k % 2 == 0) by {
        lemma_pow2_adds(1, (7 - t) as nat);
    }
    assert((x % 256) / pow2(t) == q % k) by {
        assert(x % 256 == pow2(t) * (q % k) + r);
        vstd::arithmetic::div_mod::lemma_fundamental_div_mod_converse(
            (x % 256) as int,
            pow2(t) as int,
            (q % k) as int,
            r as int,
        );
    }
    assert((q % k) % 2 == q % 2) by {
        lemma_mod_breakdown(q as int, 2, (k / 2) as int);
        assert(2 * (k / 2) == k);
    }
    lemma_pow2_adds(8 * m, t);
    lemma_div_denominator(n as int, pow2(8 * m) as int, pow2(t) as int);
}

/// Packing each run of eight bits into a byte gives the bytes of the same number.
pub proof fn lemma_pack_bytes(s: Seq<bool>, bytes: Seq<u8>)
    requires
        s.len() == 8 * bytes.len(),
        forall|m: int| 0 <= m < bytes.len() ==> #[trigger] bytes[m] as nat == bits_value(s.subrange(8 * m, 8 * m + 8)),
    ensures
        le_value(bytes) == bits_value(s),
    decreases bytes.len(),
{
    if bytes.len() > 0 {
        let head = s.subrange(0, 8);
        let rest = s.subrange(8, s.len() as int);
        let tb = bytes.drop_first();
        assert forall|m: int| 0 <= m < tb.len() implies #[trigger] tb[m] as nat == bits_value(
            rest.subrange(8 * m, 8 * m + 8),
        ) by {
            assert(rest.subrange(8 * m, 8 * m + 8) =~= s.subrange(8 * (m + 1), 8 * (m + 1) + 8));
            assert(tb[m] == bytes[m + 1]);
        }
        lemma_pack_bytes(rest, tb);
        assert(s =~= head + rest);
        lemma_bits_value_concat(head, rest);
        lemma2_to64();
        assert(bytes[0] as nat == bits_value(s.subrange(0, 8)));
    }
}

} // verus!
