//! Sparse, byte-addressable memory: every address reads as zero until written,
//! and storage is allocated in aligned blocks that merge when they touch.

use crate::encoding::{le_bytes, le_value, lemma_le_bytes_len, lemma_le_round_trip, lemma_le_value_zeros, MemoryIO};
use vstd::prelude::*;

verus! {

/// Allocation granularity, in bytes.
pub const DEFAULT_SIZE: usize = 512;

/// The size of the address space.
pub open spec fn space() -> int {
    usize::MAX as int + 1
}

/// `a + n`, wrapping around the address space.
pub open spec fn addr_add(a: usize, n: nat) -> usize {
    if a + n <= usize::MAX {
        (a + n) as usize
    } else {
        (a + n - space()) as usize
    }
}

/// How far `to` lies above `from`, going up and wrapping around.
pub open spec fn span(from: usize, to: usize) -> nat {
    if from <= to {
        (to - from) as nat
    } else {
        (to - from + space()) as nat
    }
}

/// The allocation block that offset `off` falls in.
pub open spec fn block_of(off: int) -> int {
    off / DEFAULT_SIZE as int
}

/// `after` is `before` with `bytes` stored from `address` upwards.
pub open spec fn written(before: Memory, after: Memory, address: usize, bytes: Seq<u8>) -> bool {
    &&& after.base() == before.base()
    &&& forall|a: usize| #[trigger]
        after.byte(a) == if span(address, a) < bytes.len() {
            bytes[span(address, a) as int]
        } else {
            before.byte(a)
        }
}

/// Whether offset `off` falls in a block of one of the `n` addresses from
/// `address` upwards, for a memory based at `base`.
pub open spec fn touched(base: usize, address: usize, n: nat, off: int) -> bool {
    exists|k: int| 0 <= k < n && #[trigger] block_of(span(base, addr_add(address, k as nat)) as int) == block_of(off)
}

/// `after` has storage wherever `before` had it and in the blocks of the `n`
/// addresses from `address` upwards, and nowhere else.
pub open spec fn allocated(before: Memory, after: Memory, address: usize, n: nat) -> bool {
    forall|off: int| #[trigger]
        after.mapped(off) == (before.mapped(off) || (0 <= off && touched(before.base(), address, n, off)))
}

/// The little-endian bytes of `values`, one after another.
pub open spec fn encode_all<T: MemoryIO>(values: Seq<T>) -> Seq<u8>
    decreases values.len(),
{
    if values.len() == 0 {
        Seq::empty()
    } else {
        encode_all(values.drop_last()) + le_bytes(values.last().value(), T::byte_len())
    }
}

pub proof fn lemma_encode_all_len<T: MemoryIO>(values: Seq<T>)
    ensures
        encode_all(values).len() == values.len() * T::byte_len(),
    decreases values.len(),
{
    if values.len() > 0 {
        lemma_encode_all_len(values.drop_last());
        lemma_le_bytes_len(values.last().value(), T::byte_len());
        assert((values.len() - 1) * T::byte_len() + T::byte_len() == values.len() * T::byte_len())
            by (nonlinear_arith);
    }
}

proof fn lemma_span_add(a: usize, i: nat)
    requires
        i <= usize::MAX,
    ensures
        span(a, addr_add(a, i)) == i,
{
}

/// Two writes side by side amount to one write of both byte strings.
proof fn lemma_written_compose(m0: Memory, m1: Memory, m2: Memory, address: usize, b: Seq<u8>, c: Seq<u8>)
    requires
        written(m0, m1, address, b),
        written(m1, m2, addr_add(address, b.len()), c),
        b.len() + c.len() <= usize::MAX,
    ensures
        written(m0, m2, address, b + c),
{
    assert forall|a: usize| #[trigger]
        m2.byte(a) == if span(address, a) < (b + c).len() {
            (b + c)[span(address, a) as int]
        } else {
            m0.byte(a)
        } by {
        let s = span(address, a);
        let s2 = span(addr_add(address, b.len()), a);
        assert(s2 == if s >= b.len() { s - b.len() } else { s + space() - b.len() });
        assert(m1.byte(a) == if s < b.len() { b[s as int] } else { m0.byte(a) });
    }
}

/// Reading back what a write stored gives the written value unchanged.
pub proof fn lemma_write_then_read<T: MemoryIO>(before: Memory, after: Memory, address: usize, value: T)
    requires
        written(before, after, address, le_bytes(value.value(), T::byte_len())),
    ensures
        le_value(after.bytes_at(address, T::byte_len())) == value.value(),
        forall|r: T| #[trigger] r.value() == le_value(after.bytes_at(address, T::byte_len())) ==> r == value,
{
    let n = T::byte_len();
    T::lemma_value(value);
    lemma_le_bytes_len(value.value(), n);
    assert forall|i: int| 0 <= i < n implies #[trigger] span(address, addr_add(address, i as nat)) == i by {
        lemma_span_add(address, i as nat);
    }
    assert(after.bytes_at(address, n) =~= le_bytes(value.value(), n));
    lemma_le_round_trip(value.value(), n);
    assert forall|r: T| #[trigger] r.value() == le_value(after.bytes_at(address, n)) implies r == value by {
        T::lemma_value_determines(r, value);
    }
}

/// Bytes that all read as zero, as every byte of a new memory does, give the
/// value zero.
pub proof fn lemma_unwritten_reads_zero<T: MemoryIO>(m: Memory, address: usize)
    requires
        forall|i: nat| i < T::byte_len() ==> #[trigger] m.byte(addr_add(address, i)) == 0,
    ensures
        le_value(m.bytes_at(address, T::byte_len())) == 0,
{
    let b = m.bytes_at(address, T::byte_len());
    assert forall|i: int| 0 <= i < b.len() implies b[i] == 0 by {
        assert(m.byte(addr_add(address, i as nat)) == 0);
    }
    lemma_le_value_zeros(b);
}

/// A write that stores no byte of the `n` bytes from `read_at` leaves what
/// they read unchanged, even within the same allocation block.
pub proof fn lemma_write_elsewhere_keeps_read(
    before: Memory,
    after: Memory,
    write_at: usize,
    bytes: Seq<u8>,
    read_at: usize,
    n: nat,
)
    requires
        written(before, after, write_at, bytes),
        forall|i: nat| i < n ==> #[trigger] span(write_at, addr_add(read_at, i)) >= bytes.len(),
    ensures
        after.bytes_at(read_at, n) == before.bytes_at(read_at, n),
{
    assert forall|i: int| 0 <= i < n implies #[trigger] after.bytes_at(read_at, n)[i] == before.bytes_at(
        read_at,
        n,
    )[i] by {
        assert(span(write_at, addr_add(read_at, i as nat)) >= bytes.len());
    }
    assert(after.bytes_at(read_at, n) =~= before.bytes_at(read_at, n));
}

/// When storage covers offsets `s..g` and `g + 512..e` and nothing else, a
/// write into the block between them leaves a single segment covering `s..e`.
pub proof fn lemma_fill_gap_one_segment(before: Memory, after: Memory, address: usize, s: int, g: int, e: int)
    requires
        after.wf(),
        allocated(before, after, address, 1),
        0 <= s < g,
        g % 512 == 0,
        g + 512 < e,
        forall|off: int| #[trigger] before.mapped(off) == ((s <= off < g) || (g + 512 <= off < e)),
        g <= span(before.base(), address) < g + 512,
    ensures
        after.spec_segment_count() == 1,
        forall|off: int| #[trigger] after.mapped(off) == (s <= off < e),
{
    let base = before.base();
    let r = span(base, address) as int;
    assert(addr_add(address, 0) == address);
    assert forall|off: int| #[trigger] after.mapped(off) == (s <= off < e) by {
        if 0 <= off && touched(base, address, 1, off) {
            let j = choose|j: int| 0 <= j < 1 && #[trigger] block_of(span(base, addr_add(address, j as nat)) as int) == block_of(off);
            assert(j == 0);
            assert(off / 512 == r / 512);
            assert(r / 512 == g / 512);
        }
        if g <= off < g + 512 {
            assert(off / 512 == g / 512);
            assert(r / 512 == g / 512);
            let k: int = 0;
            assert(addr_add(address, k as nat) == address);
            assert(block_of(span(base, addr_add(address, k as nat)) as int) == block_of(off));
            assert(touched(base, address, 1, off));
        }
    }
    lemma_one_run_one_segment(after, s, e);
}

/// When the offsets that hold storage form one unbroken run, a single segment
/// holds them all.
pub proof fn lemma_one_run_one_segment(m: Memory, lo: int, hi: int)
    requires
        m.wf(),
        lo < hi,
        forall|off: int| lo <= off < hi ==> #[trigger] m.mapped(off),
        forall|off: int| #[trigger] m.mapped(off) ==> lo <= off < hi,
    ensures
        m.spec_segment_count() == 1,
{
    let segs = m.segments@;
    assert(m.mapped(lo));
    if segs.len() >= 2 {
        let e = seg_end(segs[0]);
        assert(gap_at(segs, 0));
        assert(holds(segs[0], seg_start(segs[0])));
        assert(m.mapped(seg_start(segs[0])));
        assert(holds(segs[1], seg_start(segs[1])));
        assert(m.mapped(seg_start(segs[1])));
        assert(m.mapped(e));
        let j = choose|j: int| 0 <= j < segs.len() && holds(#[trigger] segs[j], e);
        if j > 1 {
            assert(seg_end(segs[1]) <= seg_start(segs[j]));
        }
    }
}

proof fn lemma_addr_add_twice(a: usize, k: nat, j: nat)
    requires
        k + j <= usize::MAX,
    ensures
        addr_add(addr_add(a, k), j) == addr_add(a, k + j),
{
}

/// Storage allocated by two writes side by side is that of one write of both.
proof fn lemma_allocated_compose(m0: Memory, m1: Memory, m2: Memory, address: usize, k: nat, n: nat)
    requires
        allocated(m0, m1, address, k),
        allocated(m1, m2, addr_add(address, k), n),
        m1.base() == m0.base(),
        k + n <= usize::MAX,
    ensures
        allocated(m0, m2, address, k + n),
{
    let base = m0.base();
    assert forall|off: int| #[trigger]
        m2.mapped(off) == (m0.mapped(off) || (0 <= off && touched(base, address, k + n, off))) by {
        if 0 <= off && touched(base, address, k + n, off) {
            let j = choose|j: int| 0 <= j < k + n && #[trigger] block_of(span(base, addr_add(address, j as nat)) as int) == block_of(off);
            if j < k {
                assert(touched(base, address, k, off));
            } else {
                lemma_addr_add_twice(address, k, (j - k) as nat);
                assert(block_of(span(base, addr_add(addr_add(address, k), (j - k) as nat)) as int) == block_of(off));
                assert(touched(base, addr_add(address, k), n, off));
            }
        }
        if 0 <= off && touched(base, address, k, off) {
            let j = choose|j: int| 0 <= j < k && #[trigger] block_of(span(base, addr_add(address, j as nat)) as int) == block_of(off);
            assert(block_of(span(base, addr_add(address, j as nat)) as int) == block_of(off));
            assert(touched(base, address, k + n, off));
        }
        if 0 <= off && touched(base, addr_add(address, k), n, off) {
            let j = choose|j: int| 0 <= j < n && #[trigger] block_of(span(base, addr_add(addr_add(address, k), j as nat)) as int) == block_of(off);
            lemma_addr_add_twice(address, k, j as nat);
            assert(block_of(span(base, addr_add(address, (k + j) as nat)) as int) == block_of(off));
            assert(touched(base, address, k + n, off));
        }
    }
}

/// A contiguous block of stored bytes, starting at an offset from the base.
struct MemorySegment {
    start_address: usize,
    data: Vec<u8>,
}

spec fn seg_start(s: MemorySegment) -> int {
    s.start_address as int
}

spec fn seg_end(s: MemorySegment) -> int {
    s.start_address + s.data@.len()
}

spec fn holds(s: MemorySegment, off: int) -> bool {
    seg_start(s) <= off < seg_end(s)
}

/// Each segment is a nonempty run of whole blocks inside the address space.
spec fn aligned(segs: Seq<MemorySegment>) -> bool {
    forall|i: int|
        0 <= i < segs.len() ==> {
            &&& #[trigger] segs[i].start_address as int % DEFAULT_SIZE as int == 0
            &&& seg_end(segs[i]) % DEFAULT_SIZE as int == 0
            &&& segs[i].data@.len() > 0
            &&& seg_end(segs[i]) <= space()
        }
}

/// Segments are in ascending order and do not overlap.
spec fn disjoint(segs: Seq<MemorySegment>) -> bool {
    forall|i: int, j: int| 0 <= i < j < segs.len() ==> seg_end(#[trigger] segs[i]) <= seg_start(#[trigger] segs[j])
}

/// No segment ends where the next one starts.
spec fn gapped(segs: Seq<MemorySegment>) -> bool {
    forall|i: int| 0 <= i < segs.len() - 1 ==> #[trigger] gap_at(segs, i)
}

spec fn segs_mapped(segs: Seq<MemorySegment>, off: int) -> bool {
    exists|i: int| 0 <= i < segs.len() && holds(#[trigger] segs[i], off)
}

spec fn segs_cell(segs: Seq<MemorySegment>, off: int) -> u8 {
    if segs_mapped(segs, off) {
        let i = choose|i: int| 0 <= i < segs.len() && holds(#[trigger] segs[i], off);
        segs[i].data@[off - seg_start(segs[i])]
    } else {
        0
    }
}

/// The segment that holds an offset decides the byte stored there.
proof fn lemma_cell_at(segs: Seq<MemorySegment>, i: int, off: int)
    requires
        disjoint(segs),
        0 <= i < segs.len(),
        holds(segs[i], off),
    ensures
        segs_mapped(segs, off),
        segs_cell(segs, off) == segs[i].data@[off - seg_start(segs[i])],
{
    let j = choose|j: int| 0 <= j < segs.len() && holds(#[trigger] segs[j], off);
    if j < i {
        assert(seg_end(segs[j]) <= seg_start(segs[i]));
    } else if i < j {
        assert(seg_end(segs[i]) <= seg_start(segs[j]));
    }
}

spec fn gap_at(segs: Seq<MemorySegment>, j: int) -> bool {
    seg_end(segs[j]) < seg_start(segs[j + 1])
}

/// Every neighbouring pair has a gap, except possibly pairs `lo..=hi`.
spec fn gapped_except(segs: Seq<MemorySegment>, lo: int, hi: int) -> bool {
    forall|j: int| 0 <= j < segs.len() - 1 && (j < lo || j > hi) ==> #[trigger] gap_at(segs, j)
}

proof fn lemma_block_apart(x: int, y: int)
    requires
        x % 512 == 0,
        y % 512 == 0,
        x > y,
    ensures
        x >= y + 512,
{
    assert(x == 512 * (x / 512) && y == 512 * (y / 512)) by (nonlinear_arith)
        requires x % 512 == 0, y % 512 == 0;
    assert(x / 512 > y / 512) by (nonlinear_arith)
        requires x == 512 * (x / 512), y == 512 * (y / 512), x > y;
    assert(512 * (x / 512) >= 512 * (y / 512) + 512) by (nonlinear_arith)
        requires x / 512 > y / 512;
}

/// Overwriting one stored byte changes that cell alone.
proof fn lemma_set_in_place(segs: Seq<MemorySegment>, new: Seq<MemorySegment>, i: int, k: int, v: u8)
    requires
        aligned(segs),
        disjoint(segs),
        gapped(segs),
        0 <= i < segs.len(),
        0 <= k < segs[i].data@.len(),
        new.len() == segs.len(),
        forall|j: int| 0 <= j < segs.len() && j != i ==> new[j] == segs[j],
        new[i].start_address == segs[i].start_address,
        new[i].data@ == segs[i].data@.update(k, v),
    ensures
        aligned(new),
        disjoint(new),
        gapped(new),
        forall|off: int| segs_mapped(new, off) == segs_mapped(segs, off),
        forall|off: int|
            segs_cell(new, off) == if off == seg_start(segs[i]) + k {
                v
            } else {
                segs_cell(segs, off)
            },
{
    assert forall|j: int| 0 <= j < segs.len() implies seg_start(new[j]) == seg_start(segs[j]) && seg_end(
        new[j],
    ) == seg_end(segs[j]) by {}
    assert(aligned(new)) by {
        assert forall|j: int| 0 <= j < new.len() implies #[trigger] new[j].start_address as int % DEFAULT_SIZE as int == 0 && seg_end(new[j]) % DEFAULT_SIZE as int == 0 && new[j].data@.len() > 0 && seg_end(new[j]) <= space() by {
            assert(segs[j].start_address as int % DEFAULT_SIZE as int == 0);
        }
    }
    assert(disjoint(new)) by {
        assert forall|a: int, b: int| 0 <= a < b < new.len() implies seg_end(#[trigger] new[a]) <= seg_start(#[trigger] new[b]) by {
            assert(seg_end(segs[a]) <= seg_start(segs[b]));
        }
    }
    assert(gapped(new)) by {
        assert forall|a: int| 0 <= a < new.len() - 1 implies #[trigger] gap_at(new, a) by {
            assert(gap_at(segs, a));
        }
    }
    assert forall|off: int| segs_mapped(new, off) == segs_mapped(segs, off) by {
        if segs_mapped(segs, off) {
            let j = choose|j: int| 0 <= j < segs.len() && holds(#[trigger] segs[j], off);
            assert(holds(new[j], off));
        }
        if segs_mapped(new, off) {
            let j = choose|j: int| 0 <= j < new.len() && holds(#[trigger] new[j], off);
            assert(holds(segs[j], off));
        }
    }
    assert forall|off: int|
        segs_cell(new, off) == if off == seg_start(segs[i]) + k {
            v
        } else {
            segs_cell(segs, off)
        } by {
        if segs_mapped(segs, off) {
            let j = choose|j: int| 0 <= j < segs.len() && holds(#[trigger] segs[j], off);
            lemma_cell_at(segs, j, off);
            assert(holds(new[j], off));
            lemma_cell_at(new, j, off);
        } else {
            assert(!holds(segs[i], off));
        }
    }
}

/// Inserting a fresh block where nothing was stored adds its cells and keeps
/// the others; only the two pairs around it may lose their gap.
proof fn lemma_insert_block(segs: Seq<MemorySegment>, pos: int, s: MemorySegment)
    requires
        aligned(segs),
        disjoint(segs),
        gapped(segs),
        0 <= pos <= segs.len(),
        s.start_address as int % 512 == 0,
        s.data@.len() == 512,
        seg_end(s) <= space(),
        forall|j: int| 0 <= j < pos ==> seg_start(#[trigger] segs[j]) < seg_start(s),
        forall|j: int| pos <= j < segs.len() ==> seg_start(#[trigger] segs[j]) > seg_start(s),
        !segs_mapped(segs, seg_start(s)),
    ensures
        aligned(segs.insert(pos, s)),
        disjoint(segs.insert(pos, s)),
        forall|j: int| 0 <= j < pos - 1 ==> #[trigger] gap_at(segs.insert(pos, s), j),
        forall|j: int| pos < j < segs.len() ==> #[trigger] gap_at(segs.insert(pos, s), j),
        forall|off: int|
            #[trigger] segs_mapped(segs.insert(pos, s), off) == (segs_mapped(segs, off) || holds(s, off)),
        forall|off: int|
            #[trigger] segs_cell(segs.insert(pos, s), off) == if holds(s, off) {
                s.data@[off - seg_start(s)]
            } else {
                segs_cell(segs, off)
            },
{
    let new = segs.insert(pos, s);
    assert(seg_end(s) % 512 == 0) by {
        assert((s.start_address + 512) % 512 == 0) by (nonlinear_arith)
            requires s.start_address as int % 512 == 0;
    }
    // every old segment lies wholly below or wholly above the new block
    assert forall|j: int| 0 <= j < pos implies seg_end(#[trigger] segs[j]) <= seg_start(s) by {
        assert(segs[j].start_address as int % DEFAULT_SIZE as int == 0);
        if seg_end(segs[j]) > seg_start(s) {
            lemma_block_apart(seg_end(segs[j]), seg_start(s));
            assert(holds(segs[j], seg_start(s)));
        }
    }
    assert forall|j: int| pos <= j < segs.len() implies seg_end(s) <= seg_start(#[trigger] segs[j]) by {
        assert(segs[j].start_address as int % DEFAULT_SIZE as int == 0);
        lemma_block_apart(seg_start(segs[j]), seg_start(s));
    }
    assert(aligned(new)) by {
        assert forall|j: int| 0 <= j < new.len() implies #[trigger] new[j].start_address as int % DEFAULT_SIZE as int == 0 && seg_end(new[j]) % DEFAULT_SIZE as int == 0 && new[j].data@.len() > 0 && seg_end(new[j]) <= space() by {
            if j < pos {
                assert(segs[j].start_address as int % DEFAULT_SIZE as int == 0);
            } else if j > pos {
                assert(new[j] == segs[j - 1]);
                assert(segs[j - 1].start_address as int % DEFAULT_SIZE as int == 0);
            }
        }
    }
    assert(disjoint(new)) by {
        assert forall|a: int, b: int| 0 <= a < b < new.len() implies seg_end(#[trigger] new[a]) <= seg_start(#[trigger] new[b]) by {
            if b < pos {
            } else if b == pos {
                assert(seg_end(segs[a]) <= seg_start(s));
            } else if a < pos {
                assert(new[b] == segs[b - 1]);
                assert(seg_end(segs[a]) <= seg_start(s));
                assert(seg_end(s) <= seg_start(segs[b - 1]));
            } else if a == pos {
                assert(new[b] == segs[b - 1]);
                assert(seg_end(s) <= seg_start(segs[b - 1]));
            } else {
                assert(new[a] == segs[a - 1]);
                assert(new[b] == segs[b - 1]);
                assert(seg_end(segs[a - 1]) <= seg_start(segs[b - 1]));
            }
        }
    }
    assert forall|j: int| 0 <= j < pos - 1 implies #[trigger] gap_at(new, j) by {
        assert(gap_at(segs, j));
    }
    assert forall|j: int| pos < j < segs.len() implies #[trigger] gap_at(new, j) by {
        assert(new[j] == segs[j - 1]);
        assert(new[j + 1] == segs[j]);
        assert(gap_at(segs, j - 1));
    }
    assert forall|off: int| #[trigger] segs_mapped(new, off) == (segs_mapped(segs, off) || holds(s, off)) by {
        if segs_mapped(segs, off) {
            let j = choose|j: int| 0 <= j < segs.len() && holds(#[trigger] segs[j], off);
            if j < pos {
                assert(holds(new[j], off));
            } else {
                assert(new[j + 1] == segs[j]);
                assert(holds(new[j + 1], off));
            }
        }
        if holds(s, off) {
            assert(holds(new[pos], off));
        }
        if segs_mapped(new, off) {
            let j = choose|j: int| 0 <= j < new.len() && holds(#[trigger] new[j], off);
            if j < pos {
                assert(holds(segs[j], off));
            } else if j > pos {
                assert(new[j] == segs[j - 1]);
                assert(holds(segs[j - 1], off));
            }
        }
    }
    assert forall|off: int|
        #[trigger] segs_cell(new, off) == if holds(s, off) {
            s.data@[off - seg_start(s)]
        } else {
            segs_cell(segs, off)
        } by {
        if holds(s, off) {
            lemma_cell_at(new, pos, off);
        } else if segs_mapped(segs, off) {
            let j = choose|j: int| 0 <= j < segs.len() && holds(#[trigger] segs[j], off);
            lemma_cell_at(segs, j, off);
            if j < pos {
                lemma_cell_at(new, j, off);
            } else {
                assert(new[j + 1] == segs[j]);
                lemma_cell_at(new, j + 1, off);
            }
        } else {
            if segs_mapped(new, off) {
                let j = choose|j: int| 0 <= j < new.len() && holds(#[trigger] new[j], off);
                if j < pos {
                    assert(holds(segs[j], off));
                } else if j > pos {
                    assert(new[j] == segs[j - 1]);
                    assert(holds(segs[j - 1], off));
                }
            }
        }
    }
}

/// Joining segment `i` with the next one when they touch keeps every cell.
proof fn lemma_merge(segs: Seq<MemorySegment>, i: int, merged: MemorySegment)
    requires
        aligned(segs),
        disjoint(segs),
        0 <= i < segs.len() - 1,
        seg_end(segs[i]) == seg_start(segs[i + 1]),
        merged.start_address == segs[i].start_address,
        merged.data@ == segs[i].data@ + segs[i + 1].data@,
    ensures
        aligned(segs.remove(i + 1).update(i, merged)),
        disjoint(segs.remove(i + 1).update(i, merged)),
        forall|j: int| 0 <= j < i ==> #[trigger] gap_at(segs.remove(i + 1).update(i, merged), j) == gap_at(segs, j),
        forall|j: int|
            i <= j < segs.len() - 2 ==> #[trigger] gap_at(segs.remove(i + 1).update(i, merged), j) == gap_at(
                segs,
                j + 1,
            ),
        forall|off: int| #[trigger] segs_mapped(segs.remove(i + 1).update(i, merged), off) == segs_mapped(segs, off),
        forall|off: int| #[trigger] segs_cell(segs.remove(i + 1).update(i, merged), off) == segs_cell(segs, off),
{
    let new = segs.remove(i + 1).update(i, merged);
    assert(new.len() == segs.len() - 1);
    assert(seg_end(merged) == seg_end(segs[i + 1]));
    assert forall|j: int| 0 <= j < new.len() && j != i implies #[trigger] new[j] == if j < i {
        segs[j]
    } else {
        segs[j + 1]
    } by {}
    assert(aligned(new)) by {
        assert forall|j: int| 0 <= j < new.len() implies #[trigger] new[j].start_address as int % DEFAULT_SIZE as int == 0 && seg_end(new[j]) % DEFAULT_SIZE as int == 0 && new[j].data@.len() > 0 && seg_end(new[j]) <= space() by {
            if j < i {
                assert(segs[j].start_address as int % DEFAULT_SIZE as int == 0);
            } else if j == i {
                assert(segs[i].start_address as int % DEFAULT_SIZE as int == 0);
                assert(segs[i + 1].start_address as int % DEFAULT_SIZE as int == 0);
            } else {
                assert(segs[j + 1].start_address as int % DEFAULT_SIZE as int == 0);
            }
        }
    }
    assert(disjoint(new)) by {
        assert forall|a: int, b: int| 0 <= a < b < new.len() implies seg_end(#[trigger] new[a]) <= seg_start(#[trigger] new[b]) by {
            if b < i {
                assert(seg_end(segs[a]) <= seg_start(segs[b]));
            } else if b == i {
                assert(seg_end(segs[a]) <= seg_start(segs[i]));
            } else if a < i {
                assert(seg_end(segs[a]) <= seg_start(segs[b + 1]));
            } else if a == i {
                assert(seg_end(segs[i + 1]) <= seg_start(segs[b + 1]));
            } else {
                assert(seg_end(segs[a + 1]) <= seg_start(segs[b + 1]));
            }
        }
    }
    assert forall|j: int| 0 <= j < i implies #[trigger] gap_at(new, j) == gap_at(segs, j) by {
        if j + 1 == i {
            assert(seg_start(new[j + 1]) == seg_start(segs[i]));
        }
    }
    assert forall|j: int| i <= j < segs.len() - 2 implies #[trigger] gap_at(new, j) == gap_at(segs, j + 1) by {
        if j == i {
            assert(seg_end(new[i]) == seg_end(segs[i + 1]));
        }
    }
    assert forall|off: int| #[trigger] segs_mapped(new, off) == segs_mapped(segs, off) by {
        if segs_mapped(segs, off) {
            let j = choose|j: int| 0 <= j < segs.len() && holds(#[trigger] segs[j], off);
            if j < i {
                assert(holds(new[j], off));
            } else if j <= i + 1 {
                assert(holds(new[i], off));
            } else {
                assert(holds(new[j - 1], off));
            }
        }
        if segs_mapped(new, off) {
            let j = choose|j: int| 0 <= j < new.len() && holds(#[trigger] new[j], off);
            if j < i {
                assert(holds(segs[j], off));
            } else if j == i {
                if off < seg_end(segs[i]) {
                    assert(holds(segs[i], off));
                } else {
                    assert(holds(segs[i + 1], off));
                }
            } else {
                assert(holds(segs[j + 1], off));
            }
        }
    }
    assert forall|off: int| #[trigger] segs_cell(new, off) == segs_cell(segs, off) by {
        if segs_mapped(segs, off) {
            let j = choose|j: int| 0 <= j < segs.len() && holds(#[trigger] segs[j], off);
            lemma_cell_at(segs, j, off);
            if j < i {
                lemma_cell_at(new, j, off);
            } else if j == i {
                lemma_cell_at(new, i, off);
            } else if j == i + 1 {
                lemma_cell_at(new, i, off);
                assert(merged.data@[off - seg_start(merged)] == segs[i + 1].data@[off - seg_start(segs[i + 1])]);
            } else {
                lemma_cell_at(new, j - 1, off);
            }
        } else if segs_mapped(new, off) {
            let j = choose|j: int| 0 <= j < new.len() && holds(#[trigger] new[j], off);
            if j < i {
                assert(holds(segs[j], off));
            } else if j == i {
                if off < seg_end(segs[i]) {
                    assert(holds(segs[i], off));
                } else {
                    assert(holds(segs[i + 1], off));
                }
            } else {
                assert(holds(segs[j + 1], off));
            }
        }
    }
}

/// Memory of the emulated machine: a flat address space, zero wherever it has
/// not been written, stored as sorted, disjoint, non-adjacent segments.
///
/// Every address is valid. Offsets count from `base_address`; an address below
/// the base wraps around to the top of the offset space, and so do multi-byte
/// accesses that run past the last address.
pub struct Memory {
    segments: Vec<MemorySegment>,
    pub base_address: usize,
}

impl Memory {
    /// The representation is consistent.
    pub closed spec fn wf(&self) -> bool {
        &&& aligned(self.segments@)
        &&& disjoint(self.segments@)
        &&& gapped(self.segments@)
    }

    /// Whether storage has been allocated at `off` bytes above the base.
    pub closed spec fn mapped(&self, off: int) -> bool {
        segs_mapped(self.segments@, off)
    }

    /// The byte stored `off` bytes above the base.
    pub closed spec fn cell(&self, off: int) -> u8 {
        segs_cell(self.segments@, off)
    }

    pub closed spec fn spec_segment_count(&self) -> nat {
        self.segments@.len()
    }

    /// The address that offset zero stands for.
    pub closed spec fn base(&self) -> usize {
        self.base_address
    }

    /// The byte at `address`; addresses below the base wrap around.
    pub closed spec fn byte(&self, address: usize) -> u8 {
        self.cell(span(self.base_address, address) as int)
    }

    /// The `n` bytes from `address` upwards.
    pub open spec fn bytes_at(&self, address: usize, n: nat) -> Seq<u8> {
        Seq::new(n, |i: int| self.byte(addr_add(address, i as nat)))
    }

    /// Creates an empty memory whose offsets count from `base`.
    pub fn new(base: usize) -> (r: Memory)
        ensures
            r.wf(),
            r.base() == base,
            r.spec_segment_count() == 0,
            forall|a: usize| #[trigger] r.byte(a) == 0,
            forall|off: int| !#[trigger] r.mapped(off),
    {
        Memory { segments: Vec::new(), base_address: base }
    }

    /// The number of segments that hold the stored bytes.
    pub fn segment_count(&self) -> (r: usize)
        ensures
            r == self.spec_segment_count(),
    {
        self.segments.len()
    }

    /// The index of the segment that holds offset `real_address`, if any.
    fn find_segment(&self, real_address: usize) -> (r: Option<usize>)
        requires
            self.wf(),
        ensures
            match r {
                Some(i) => i < self.segments@.len() && holds(self.segments@[i as int], real_address as int),
                None => !self.mapped(real_address as int),
            },
    {
        let mut index: usize = 0;
        while index < self.segments.len()
            invariant
                index <= self.segments@.len(),
                aligned(self.segments@),
                forall|j: int| 0 <= j < index ==> !holds(#[trigger] self.segments@[j], real_address as int),
            decreases self.segments@.len() - index,
        {
            let segment = &self.segments[index];
            if real_address >= segment.start_address && real_address - segment.start_address < segment.data.len() {
                return Some(index);
            }
            index += 1;
        }
        None
    }

    /// The number of segments that start below offset `start`.
    fn insertion_point(&self, start: usize) -> (pos: usize)
        requires
            disjoint(self.segments@),
            aligned(self.segments@),
        ensures
            pos <= self.segments@.len(),
            forall|j: int| 0 <= j < pos ==> seg_start(#[trigger] self.segments@[j]) < start,
            forall|j: int| pos <= j < self.segments@.len() ==> seg_start(#[trigger] self.segments@[j]) >= start,
    {
        let ghost segs = self.segments@;
        let mut pos: usize = 0;
        while pos < self.segments.len() && self.segments[pos].start_address < start
            invariant
                pos <= segs.len(),
                segs == self.segments@,
                forall|j: int| 0 <= j < pos ==> seg_start(#[trigger] segs[j]) < start,
            decreases segs.len() - pos,
        {
            pos += 1;
        }
        assert forall|j: int| pos <= j < segs.len() implies seg_start(#[trigger] segs[j]) >= start by {
            if j > pos {
                assert(seg_end(segs[pos as int]) <= seg_start(segs[j]));
            }
        }
        pos
    }

    /// Stores a fresh zero block holding `value` at offset `real_address`,
    /// in sorted position; returns where it went.
    #[verifier::rlimit(40)]
    fn allocate_block(&mut self, real_address: usize, value: u8) -> (pos: usize)
        requires
            old(self).wf(),
            !old(self).mapped(real_address as int),
        ensures
            aligned(final(self).segments@),
            disjoint(final(self).segments@),
            gapped_except(final(self).segments@, pos - 1, pos as int),
            pos < final(self).segments@.len(),
            final(self).base_address == old(self).base_address,
            forall|off: int| #[trigger]
                final(self).mapped(off) == (old(self).mapped(off) || (0 <= off && block_of(off) == block_of(
                    real_address as int,
                ))),
            forall|off: int| #[trigger]
                final(self).cell(off) == if off == real_address {
                    value
                } else {
                    old(self).cell(off)
                },
    {
        let ghost roff = real_address as int;
        let ghost segs0 = self.segments@;
        let adjusted = (real_address / DEFAULT_SIZE) * DEFAULT_SIZE;
        assert(adjusted <= real_address < adjusted + 512 && adjusted as int % 512 == 0);
        proof {
            assert((usize::MAX as int + 1) % 512 == 0);
            lemma_block_apart(space(), adjusted as int);
        }
        let mut new_data: Vec<u8> = vec![0u8; DEFAULT_SIZE];
        new_data[real_address - adjusted] = value;
        let pos = self.insertion_point(adjusted);
        let block = MemorySegment { start_address: adjusted, data: new_data };
        proof {
            assert forall|j: int| pos <= j < segs0.len() implies seg_start(#[trigger] segs0[j]) > adjusted by {
                if seg_start(segs0[j]) == adjusted {
                    assert(holds(segs0[j], roff));
                }
            }
            if segs_mapped(segs0, adjusted as int) {
                let j = choose|j: int| 0 <= j < segs0.len() && holds(#[trigger] segs0[j], adjusted as int);
                if j < pos {
                    assert(segs0[j].start_address as int % DEFAULT_SIZE as int == 0);
                    lemma_block_apart(seg_end(segs0[j]), adjusted as int);
                    assert(holds(segs0[j], roff));
                }
            }
            lemma_insert_block(segs0, pos as int, block);
            assert forall|off: int| holds(block, off) == (0 <= off && block_of(off) == block_of(roff)) by {}
        }
        self.segments.insert(pos, block);
        proof {
            let segs1 = self.segments@;
            assert forall|j: int| 0 <= j < segs1.len() - 1 && (j < pos - 1 || j > pos) implies #[trigger] gap_at(
                segs1,
                j,
            ) by {}
        }
        pos
    }

    /// Joins segment `i` with the next one if they touch.
    fn join_next(&mut self, i: usize)
        requires
            aligned(old(self).segments@),
            disjoint(old(self).segments@),
            gapped_except(old(self).segments@, i - 1, i as int),
            i < old(self).segments@.len(),
        ensures
            aligned(final(self).segments@),
            disjoint(final(self).segments@),
            gapped_except(final(self).segments@, i - 1, i - 1),
            i < final(self).segments@.len(),
            final(self).base_address == old(self).base_address,
            forall|off: int| #[trigger] final(self).mapped(off) == old(self).mapped(off),
            forall|off: int| #[trigger] final(self).cell(off) == old(self).cell(off),
    {
        let ghost segs1 = self.segments@;
        if i == self.segments.len() - 1 {
            return;
        }
        assert(seg_end(segs1[i as int]) <= seg_start(segs1[i + 1]));
        if self.segments[i].start_address + self.segments[i].data.len() == self.segments[i + 1].start_address {
            let mut next = self.segments.remove(i + 1);
            self.segments[i].data.append(&mut next.data);
            proof {
                lemma_merge(segs1, i as int, self.segments@[i as int]);
                assert(self.segments@ == segs1.remove(i + 1).update(i as int, self.segments@[i as int]));
                let segs2 = self.segments@;
                assert forall|j: int| 0 <= j < segs2.len() - 1 && (j < i - 1 || j > i - 1) implies #[trigger] gap_at(
                    segs2,
                    j,
                ) by {
                    if j < i {
                        assert(gap_at(segs1, j));
                    } else {
                        assert(gap_at(segs1, j + 1));
                    }
                }
            }
        } else {
            assert(gap_at(segs1, i as int));
        }
    }

    /// Joins segment `i` with the previous one if they touch.
    fn join_prev(&mut self, i: usize)
        requires
            aligned(old(self).segments@),
            disjoint(old(self).segments@),
            gapped_except(old(self).segments@, i - 1, i - 1),
            i < old(self).segments@.len(),
        ensures
            final(self).wf(),
            final(self).base_address == old(self).base_address,
            forall|off: int| #[trigger] final(self).mapped(off) == old(self).mapped(off),
            forall|off: int| #[trigger] final(self).cell(off) == old(self).cell(off),
    {
        let ghost segs2 = self.segments@;
        if i == 0 {
            assert forall|j: int| 0 <= j < segs2.len() - 1 implies #[trigger] gap_at(segs2, j) by {}
            return;
        }
        assert(seg_end(segs2[i - 1]) <= seg_start(segs2[i as int]));
        if self.segments[i - 1].start_address + self.segments[i - 1].data.len() == self.segments[i].start_address {
            let mut cur = self.segments.remove(i);
            self.segments[i - 1].data.append(&mut cur.data);
            proof {
                lemma_merge(segs2, i - 1, self.segments@[i - 1]);
                assert(self.segments@ == segs2.remove(i as int).update(i - 1, self.segments@[i - 1]));
                let segs3 = self.segments@;
                assert forall|j: int| 0 <= j < segs3.len() - 1 implies #[trigger] gap_at(segs3, j) by {
                    if j < i - 1 {
                        assert(gap_at(segs2, j));
                    } else {
                        assert(gap_at(segs2, j + 1));
                    }
                }
            }
        } else {
            assert(gap_at(segs2, i - 1));
            assert forall|j: int| 0 <= j < segs2.len() - 1 implies #[trigger] gap_at(segs2, j) by {}
        }
    }

    /// Writes the byte at `address`, allocating its block if it is new and
    /// merging the block with the segments it touches.
    fn write_byte(&mut self, address: usize, value: u8)
        requires
            old(self).wf(),
        ensures
            final(self).wf(),
            final(self).base() == old(self).base(),
            forall|a: usize| #[trigger]
                final(self).byte(a) == if a == address {
                    value
                } else {
                    old(self).byte(a)
                },
            forall|off: int| #[trigger]
                final(self).mapped(off) == (old(self).mapped(off) || (0 <= off && block_of(off) == block_of(
                    span(old(self).base(), address) as int,
                ))),
    {
        let real_address = address.wrapping_sub(self.base_address);
        let ghost roff = real_address as int;
        let ghost segs0 = self.segments@;
        assert(roff == span(self.base_address, address));
        match self.find_segment(real_address) {
            Some(index) => {
                let start = self.segments[index].start_address;
                self.segments[index].data[real_address - start] = value;
                proof {
                    lemma_set_in_place(segs0, self.segments@, index as int, roff - start, value);
                    assert forall|off: int| #[trigger] self.mapped(off) == (old(self).mapped(off) || (0 <= off
                        && block_of(off) == block_of(roff))) by {
                        if 0 <= off && block_of(off) == block_of(roff) {
                            assert(holds(segs0[index as int], roff));
                            assert(segs0[index as int].start_address as int % DEFAULT_SIZE as int == 0);
                            let b = block_of(roff) * 512;
                            assert(b <= roff < b + 512 && b <= off < b + 512);
                            if seg_start(segs0[index as int]) > b {
                                lemma_block_apart(seg_start(segs0[index as int]), b);
                            }
                            if seg_end(segs0[index as int]) < b + 512 {
                                lemma_block_apart(b + 512, seg_end(segs0[index as int]));
                            }
                            assert(holds(segs0[index as int], off));
                        }
                    }
                }
            },
            None => {
                let pos = self.allocate_block(real_address, value);
                self.join_next(pos);
                self.join_prev(pos);
            },
        }
        proof {
            assert forall|a: usize| #[trigger]
                self.byte(a) == if a == address {
                    value
                } else {
                    old(self).byte(a)
                } by {
                if a != address {
                    assert(span(self.base_address, a) != span(self.base_address, address));
                }
            }
        }
    }

    /// Reads a `T` from its little-endian bytes at `address` upwards.
    pub fn read<T: MemoryIO>(&self, address: usize) -> (r: T)
        requires
            self.wf(),
        ensures
            r.value() == le_value(self.bytes_at(address, T::byte_len())),
    {
        let size = T::size();
        let mut bytes: Vec<u8> = Vec::new();
        let mut i: usize = 0;
        while i < size
            invariant
                i <= size,
                size == T::byte_len(),
                self.wf(),
                bytes@ == self.bytes_at(address, i as nat),
            decreases size - i,
        {
            let b = self.read_byte(address.wrapping_add(i));
            bytes.push(b);
            i += 1;
            assert(bytes@ =~= self.bytes_at(address, i as nat));
        }
        T::from_bytes(bytes.as_slice())
    }

    /// Writes `value` as its little-endian bytes at `address` upwards.
    fn write_ref<T: MemoryIO>(&mut self, address: usize, value: &T)
        requires
            old(self).wf(),
        ensures
            final(self).wf(),
            written(*old(self), *final(self), address, le_bytes(value.value(), T::byte_len())),
            allocated(*old(self), *final(self), address, T::byte_len()),
    {
        let bytes = value.to_bytes();
        proof {
            T::lemma_value(*value);
            lemma_le_bytes_len(value.value(), T::byte_len());
        }
        let ghost before = *self;
        let ghost base = self.base();
        let mut i: usize = 0;
        while i < bytes.len()
            invariant
                i <= bytes@.len() <= 64,
                self.wf(),
                written(before, *self, address, bytes@.take(i as int)),
                allocated(before, *self, address, i as nat),
                base == before.base(),
            decreases bytes@.len() - i,
        {
            let ghost mid = *self;
            let at = address.wrapping_add(i);
            self.write_byte(at, bytes[i]);
            i += 1;
            proof {
                lemma_span_add(address, (i - 1) as nat);
                let t = bytes@.take(i as int);
                assert forall|a: usize| #[trigger]
                    self.byte(a) == if span(address, a) < t.len() {
                        t[span(address, a) as int]
                    } else {
                        before.byte(a)
                    } by {
                    if a != at {
                        assert(span(address, a) != i - 1);
                    }
                }
                assert forall|off: int| #[trigger]
                    self.mapped(off) == (before.mapped(off) || (0 <= off && touched(base, address, i as nat, off))) by {
                    if 0 <= off && touched(base, address, i as nat, off) && !touched(base, address, (i - 1) as nat, off) {
                        let k = choose|k: int| 0 <= k < i && #[trigger] block_of(span(base, addr_add(address, k as nat)) as int) == block_of(off);
                        assert(k == i - 1);
                    }
                    if 0 <= off && block_of(off) == block_of(span(base, at) as int) {
                        assert(block_of(span(base, addr_add(address, (i - 1) as nat)) as int) == block_of(off));
                    }
                }
            }
        }
        assert(bytes@.take(i as int) =~= bytes@);
    }

    /// Writes `value` as its little-endian bytes at `address` upwards.
    pub fn write<T: MemoryIO>(&mut self, address: usize, value: T)
        requires
            old(self).wf(),
        ensures
            final(self).wf(),
            written(*old(self), *final(self), address, le_bytes(value.value(), T::byte_len())),
            allocated(*old(self), *final(self), address, T::byte_len()),
    {
        self.write_ref(address, &value);
    }

    /// Reads `count` values of `T` laid end to end from `address` upwards.
    pub fn read_vec<T: MemoryIO>(&self, address: usize, count: usize) -> (r: Vec<T>)
        requires
            self.wf(),
            count * T::byte_len() <= usize::MAX,
        ensures
            r@.len() == count,
            forall|k: int|
                0 <= k < count ==> #[trigger] r@[k].value() == le_value(
                    self.bytes_at(addr_add(address, (k * T::byte_len()) as nat), T::byte_len()),
                ),
    {
        let size = T::size();
        let mut result: Vec<T> = Vec::new();
        let mut i: usize = 0;
        while i < count
            invariant
                i <= count,
                size == T::byte_len(),
                count * size <= usize::MAX,
                self.wf(),
                result@.len() == i,
                forall|k: int|
                    0 <= k < i ==> #[trigger] result@[k].value() == le_value(
                        self.bytes_at(addr_add(address, (k * T::byte_len()) as nat), T::byte_len()),
                    ),
            decreases count - i,
        {
            assert(i * size <= count * size) by (nonlinear_arith)
                requires i < count;
            let v: T = self.read(address.wrapping_add(i * size));
            result.push(v);
            i += 1;
        }
        result
    }

    /// Writes `values` end to end from `address` upwards.
    pub fn write_vec<T: MemoryIO>(&mut self, address: usize, values: Vec<T>)
        requires
            old(self).wf(),
            values@.len() * T::byte_len() <= usize::MAX,
        ensures
            final(self).wf(),
            written(*old(self), *final(self), address, encode_all(values@)),
            allocated(*old(self), *final(self), address, values@.len() * T::byte_len()),
    {
        let size = T::size();
        let ghost before = *self;
        let mut i: usize = 0;
        assert(encode_all(values@.take(0)) =~= Seq::<u8>::empty());
        while i < values.len()
            invariant
                i <= values@.len(),
                size == T::byte_len(),
                values@.len() * size <= usize::MAX,
                self.wf(),
                written(before, *self, address, encode_all(values@.take(i as int))),
                allocated(before, *self, address, (i * size) as nat),
            decreases values@.len() - i,
        {
            let ghost mid = *self;
            proof {
                T::lemma_value(values@[i as int]);
                assert(i * size < values@.len() * size) by (nonlinear_arith)
                    requires i < values@.len(), size > 0;
                lemma_encode_all_len(values@.take(i as int));
                lemma_encode_all_len(values@.take(i + 1));
                assert((i + 1) * size <= values@.len() * size) by (nonlinear_arith)
                    requires i < values@.len();
            }
            self.write_ref(address.wrapping_add(i * size), &values[i]);
            proof {
                let t = values@.take(i + 1);
                assert(t.drop_last() =~= values@.take(i as int));
                lemma_le_bytes_len(values@[i as int].value(), T::byte_len());
                lemma_written_compose(
                    before,
                    mid,
                    *self,
                    address,
                    encode_all(values@.take(i as int)),
                    le_bytes(values@[i as int].value(), T::byte_len()),
                );
                lemma_allocated_compose(before, mid, *self, address, (i * size) as nat, size as nat);
                assert((i + 1) * size == i * size + size) by (nonlinear_arith);
            }
            i += 1;
        }
        assert(values@.take(i as int) =~= values@);
    }

    /// Reads the byte at `address`, zero where nothing was written.
    fn read_byte(&self, address: usize) -> (r: u8)
        requires
            self.wf(),
        ensures
            r == self.byte(address),
    {
        let real_address = address.wrapping_sub(self.base_address);
        match self.find_segment(real_address) {
            Some(index) => {
                let segment = &self.segments[index];
                proof {
                    lemma_cell_at(self.segments@, index as int, real_address as int);
                }
                segment.data[real_address - segment.start_address]
            },
            None => 0,
        }
    }
}

} // verus!
