use cpulib::{u256, u512, Memory};

#[test]
fn unwritten_memory_reads_zero() {
    let m = Memory::new(0x1000);
    assert_eq!(m.read::<u8>(0x1000), 0);
    assert_eq!(m.read::<u64>(0xdead_beef), 0);
    assert_eq!(m.read::<u512>(0), u512::from(0u128));
    assert_eq!(m.segment_count(), 0);
}

#[test]
fn write_then_read_every_width() {
    let mut m = Memory::new(0x1000);
    let addrs = [0x1000usize, 0x11ff, 0x1201, 0x7fff_fff0];
    for &a in addrs.iter() {
        m.write::<u8>(a, 0xab);
        assert_eq!(m.read::<u8>(a), 0xab);
        m.write::<u16>(a, 0xbeef);
        assert_eq!(m.read::<u16>(a), 0xbeef);
        m.write::<u32>(a, 0xdead_beef);
        assert_eq!(m.read::<u32>(a), 0xdead_beef);
        m.write::<u64>(a, u64::MAX - 5);
        assert_eq!(m.read::<u64>(a), u64::MAX - 5);
        m.write::<u128>(a, u128::MAX - 7);
        assert_eq!(m.read::<u128>(a), u128::MAX - 7);
        m.write::<u256>(a, u256::from(u128::MAX));
        assert_eq!(m.read::<u256>(a), u256::from(u128::MAX));
        m.write::<u512>(a, u512::from(0x0102_0304_0506_0708_090a_0b0c_0d0e_0f10u128));
        assert_eq!(m.read::<u512>(a), u512::from(0x0102_0304_0506_0708_090a_0b0c_0d0e_0f10u128));
    }
}

#[test]
fn integers_are_stored_little_endian() {
    let mut m = Memory::new(0);
    m.write::<u32>(0x40, 0x1234_5678);
    assert_eq!(m.read_vec::<u8>(0x40, 4), vec![0x78, 0x56, 0x34, 0x12]);
    m.write::<u16>(0x80, 0xa1b2);
    assert_eq!(m.read_vec::<u8>(0x80, 2), vec![0xb2, 0xa1]);
    m.write::<u64>(0x100, 0x0102_0304_0506_0708);
    assert_eq!(m.read_vec::<u8>(0x100, 8), vec![8, 7, 6, 5, 4, 3, 2, 1]);
    m.write::<u128>(0x200, 0x0102_0304_0506_0708_090a_0b0c_0d0e_0f10);
    assert_eq!(m.read_vec::<u8>(0x200, 16), (1u8..=16).rev().collect::<Vec<u8>>());
    m.write_vec::<u8>(0x300, vec![0x10, 0x20, 0x30, 0x40]);
    assert_eq!(m.read::<u32>(0x300), 0x4030_2010);
    assert_eq!(m.read::<u16>(0x302), 0x4030);
}

#[test]
fn wide_values_are_stored_little_endian() {
    let mut m = Memory::new(0);
    m.write::<u256>(0x40, u256::from(0x0102_0304_0506_0708_090a_0b0c_0d0e_0f10u128));
    let bytes = m.read_vec::<u8>(0x40, 32);
    let mut expected: Vec<u8> = (1u8..=16).rev().collect();
    expected.extend(vec![0u8; 16]);
    assert_eq!(bytes, expected);
    m.write_vec::<u8>(0x400, (1u8..=64).collect());
    let v = m.read::<u512>(0x400);
    assert_ne!(v, u512::from(0u128));
    m.write::<u512>(0x800, v);
    assert_eq!(m.read_vec::<u8>(0x800, 64), (1u8..=64).collect::<Vec<u8>>());
    m.write_vec::<u8>(0xc00, vec![0x21, 0x43]);
    assert_eq!(m.read::<u256>(0xc00), u256::from(0x4321u128));
}

#[test]
fn write_vec_then_read_vec_of_narrower_type() {
    let mut m = Memory::new(0x0040_0000);
    m.write_vec::<u64>(0x0040_0000, vec![0, 1, 2, 3, 4, 5, 6, 7]);
    let result = m.read_vec::<u32>(0x0040_0000, 16);
    assert_eq!(result, vec![0, 0, 1, 0, 2, 0, 3, 0, 4, 0, 5, 0, 6, 0, 7, 0]);
    assert_eq!(m.read_vec::<u64>(0x0040_0000, 8), vec![0, 1, 2, 3, 4, 5, 6, 7]);
}

#[test]
fn vectors_need_no_alignment() {
    let mut m = Memory::new(0);
    m.write_vec::<u16>(0x1ff, vec![0xaaaa, 0xbbbb, 0xcccc]);
    assert_eq!(m.read_vec::<u16>(0x1ff, 3), vec![0xaaaa, 0xbbbb, 0xcccc]);
    assert_eq!(m.read::<u8>(0x1fe), 0);
    assert_eq!(m.read::<u8>(0x205), 0);
    assert_eq!(m.read_vec::<u32>(0, 0), Vec::<u32>::new());
}

#[test]
fn writes_leave_other_bytes_alone() {
    let mut m = Memory::new(0);
    m.write::<u64>(0x10, u64::MAX);
    m.write::<u16>(0x12, 0);
    assert_eq!(m.read::<u64>(0x10), 0xffff_ffff_0000_ffff);
    assert_eq!(m.read::<u8>(0x0f), 0);
    assert_eq!(m.read::<u8>(0x18), 0);
}

#[test]
fn addresses_below_base_wrap_around() {
    let mut m = Memory::new(0x1000);
    m.write::<u32>(0x0ffe, 0xa1b2_c3d4);
    assert_eq!(m.read::<u32>(0x0ffe), 0xa1b2_c3d4);
    assert_eq!(m.read::<u16>(0x1000), 0xa1b2);
    m.write::<u16>(usize::MAX, 0x1122);
    assert_eq!(m.read::<u8>(usize::MAX), 0x22);
    assert_eq!(m.read::<u8>(0), 0x11);
}

#[test]
fn one_write_allocates_one_segment() {
    let mut m = Memory::new(0);
    m.write::<u8>(5, 1);
    assert_eq!(m.segment_count(), 1);
    m.write::<u8>(511, 2);
    assert_eq!(m.segment_count(), 1);
}

#[test]
fn bytes_on_both_sides_of_a_block_boundary_coalesce() {
    let mut m = Memory::new(0);
    m.write::<u8>(511, 1);
    m.write::<u8>(512, 2);
    assert_eq!(m.segment_count(), 1);
    assert_eq!(m.read::<u16>(511), 0x0201);
}

#[test]
fn filling_the_gap_between_segments_coalesces() {
    let mut m = Memory::new(0x0040_0000);
    m.write::<u8>(0x0040_0000, 1);
    m.write::<u8>(0x0040_0000 + 1024, 3);
    assert_eq!(m.segment_count(), 2);
    m.write::<u8>(0x0040_0000 + 600, 2);
    assert_eq!(m.segment_count(), 1);
    assert_eq!(m.read::<u8>(0x0040_0000), 1);
    assert_eq!(m.read::<u8>(0x0040_0000 + 600), 2);
    assert_eq!(m.read::<u8>(0x0040_0000 + 1024), 3);
    assert_eq!(m.read::<u8>(0x0040_0000 + 1500), 0);
}

#[test]
fn distant_writes_keep_separate_segments() {
    let mut m = Memory::new(0);
    m.write::<u8>(0x10_0000, 1);
    m.write::<u8>(0x100, 2);
    m.write::<u8>(0x8000, 3);
    assert_eq!(m.segment_count(), 3);
    m.write::<u64>(0x8000 + 508, u64::MAX);
    assert_eq!(m.segment_count(), 3);
    assert_eq!(m.read::<u64>(0x8000 + 508), u64::MAX);
    assert_eq!(m.read::<u8>(0x100), 2);
    assert_eq!(m.read::<u8>(0x10_0000), 1);
}

#[test]
fn writes_spanning_a_boundary_merge_blocks() {
    let mut m = Memory::new(0);
    m.write::<u32>(510, 0xdead_beef);
    assert_eq!(m.segment_count(), 1);
    assert_eq!(m.read::<u32>(510), 0xdead_beef);
}

#[test]
fn unwritten_bytes_in_a_written_block_read_zero() {
    let mut m = Memory::new(0x2000);
    m.write::<u32>(0x2010, 0xffff_ffff);
    assert_eq!(m.read::<u32>(0x2014), 0);
    assert_eq!(m.read::<u64>(0x2100), 0);
    m.write_vec::<u16>(0x2200, vec![1, 2, 3]);
    assert_eq!(m.read::<u16>(0x2206), 0);
    assert_eq!(m.segment_count(), 1);
}
