use cpulib::selector::extract_values;
use cpulib::{u256, u512, FLAGSName, GPRName, IPName, Registers, Utilities, VecRegName};

#[test]
fn bits_outside_the_view_are_refused() {
    let mut r = Registers::new();
    assert!(!r.set_bit(VecRegName::XMM, 0, 128, true));
    assert_eq!(r.get_bit(VecRegName::XMM, 0, 128), None);
    assert_eq!(r.get_bit(VecRegName::ZMM, 0, 128), Some(false));
    assert!(!r.set_bit(VecRegName::YMM, 0, 256, true));
    assert!(!r.set_bit(VecRegName::ZMM, 0, 512, true));
    assert_eq!(r.get_bit(VecRegName::ZMM, 0, 512), None);
    assert!(r.set_bit(VecRegName::YMM, 3, 200, true));
    assert_eq!(r.get_bit(VecRegName::ZMM, 3, 200), Some(true));
    assert_eq!(r.get_bit(VecRegName::ZMM, 2, 200), Some(false));
    assert!(r.set_bit(VecRegName::YMM, 3, 200, false));
    assert_eq!(r.get_bit(VecRegName::YMM, 3, 200), Some(false));
}

#[test]
fn clear_zeroes_all_bits() {
    let mut r = Registers::new();
    r.set_bit(VecRegName::ZMM, 4, 0, true);
    r.set_bit(VecRegName::ZMM, 4, 511, true);
    r.set_bit(VecRegName::ZMM, 5, 7, true);
    r.clear(4);
    assert_eq!(r.get_by_sections::<u512>(VecRegName::ZMM, 4), Some(vec![u512::from(0u128)]));
    assert_eq!(r.get_bit(VecRegName::ZMM, 5, 7), Some(true));
}

#[test]
fn sections_count_follows_view_width() {
    let r = Registers::new();
    assert_eq!(r.get_by_sections::<u8>(VecRegName::XMM, 0).unwrap().len(), 16);
    assert_eq!(r.get_by_sections::<u16>(VecRegName::YMM, 0).unwrap().len(), 16);
    assert_eq!(r.get_by_sections::<u32>(VecRegName::ZMM, 0).unwrap().len(), 16);
    assert_eq!(r.get_by_sections::<u128>(VecRegName::XMM, 0).unwrap().len(), 1);
    assert_eq!(r.get_by_sections::<u256>(VecRegName::XMM, 0).unwrap().len(), 0);
    assert_eq!(r.get_by_sections::<u512>(VecRegName::YMM, 0).unwrap().len(), 0);
}

#[test]
fn lanes_are_least_significant_first() {
    let mut r = Registers::new();
    r.set_bit(VecRegName::ZMM, 1, 8, true);
    r.set_bit(VecRegName::ZMM, 1, 17, true);
    r.set_bit(VecRegName::ZMM, 1, 511, true);
    let bytes = r.get_by_sections::<u8>(VecRegName::ZMM, 1).unwrap();
    assert_eq!(bytes.len(), 64);
    assert_eq!(bytes[0], 0);
    assert_eq!(bytes[1], 1);
    assert_eq!(bytes[2], 2);
    assert_eq!(bytes[63], 0x80);
    let words = r.get_by_sections::<u16>(VecRegName::XMM, 1).unwrap();
    assert_eq!(words[0], 0x0100);
    assert_eq!(words[1], 0x0002);
}

#[test]
fn xmm_write_reads_back_in_low_zmm_lanes() {
    let mut r = Registers::new();
    assert!(r.set_by_sections(VecRegName::ZMM, 9, vec![u64::MAX; 8]));
    assert!(r.set_by_sections(VecRegName::XMM, 9, vec![0xdead_beefu32, 1, 2, 0x8000_0000]));
    let lanes = r.get_by_sections::<u32>(VecRegName::ZMM, 9).unwrap();
    assert_eq!(lanes.len(), 16);
    assert_eq!(&lanes[..4], &[0xdead_beef, 1, 2, 0x8000_0000]);
    assert!(lanes[4..].iter().all(|&x| x == 0));
}

#[test]
fn ymm_write_clears_upper_half() {
    let mut r = Registers::new();
    assert!(r.set_by_sections(VecRegName::ZMM, 2, vec![u128::MAX; 4]));
    assert!(r.set_by_sections(VecRegName::YMM, 2, vec![7u64, 6, 5, 4]));
    let lanes = r.get_by_sections::<u128>(VecRegName::ZMM, 2).unwrap();
    assert_eq!(lanes, vec![(6u128 << 64) | 7, (4u128 << 64) | 5, 0, 0]);
}

#[test]
fn sections_round_trip() {
    let mut r = Registers::new();
    let v = vec![0x8000_0000u32; 4];
    assert!(r.set_by_sections(VecRegName::XMM, 11, v.clone()));
    assert_eq!(r.get_by_sections::<u32>(VecRegName::XMM, 11), Some(v));
    let bytes: Vec<u8> = (0u8..64).collect();
    assert!(r.set_by_sections(VecRegName::ZMM, 12, bytes.clone()));
    assert_eq!(r.get_by_sections::<u8>(VecRegName::ZMM, 12), Some(bytes));
}

#[test]
fn section_count_mismatch_fails_and_changes_nothing() {
    let mut r = Registers::new();
    assert!(r.set_by_sections(VecRegName::XMM, 2, vec![1u32, 2, 3, 4]));
    assert!(!r.set_by_sections(VecRegName::XMM, 2, vec![9u32, 9, 9]));
    assert_eq!(r.get_by_sections::<u32>(VecRegName::XMM, 2), Some(vec![1, 2, 3, 4]));
    assert!(!r.set_by_sections(VecRegName::YMM, 2, vec![9u32; 4]));
    assert!(!r.set_by_sections(VecRegName::XMM, 2, vec![u256::from(9u128)]));
    assert!(!r.set_by_sections::<u64>(VecRegName::ZMM, 2, vec![]));
    assert_eq!(r.get_by_sections::<u32>(VecRegName::XMM, 2), Some(vec![1, 2, 3, 4]));
}

#[test]
fn selector_low_dword_round_trip() {
    let mut r = Registers::new();
    assert!(r.set_by_selector::<u64>(VecRegName::XMM, 0, "[31:0]", 0x1234_5678_9abc_def0));
    assert_eq!(r.get_by_selector::<u64>(VecRegName::XMM, 0, "[31:0]"), Some(0x9abc_def0));
    assert_eq!(r.get_by_selector::<u32>(VecRegName::XMM, 0, "[31:0]"), Some(0x9abc_def0));
    assert_eq!(r.get_by_selector::<u64>(VecRegName::XMM, 0, "[63:32]"), Some(0));
}

#[test]
fn selector_range_inside_a_register() {
    let mut r = Registers::new();
    assert!(r.set_by_sections(VecRegName::XMM, 1, vec![0x1234_5678u32; 4]));
    assert_eq!(r.get_by_selector::<u16>(VecRegName::XMM, 1, "[15:0]"), Some(0x5678));
    assert_eq!(r.get_by_selector::<u8>(VecRegName::XMM, 1, "[43:36]"), Some(0x67));
    assert_eq!(r.get_by_selector::<u8>(VecRegName::XMM, 1, "[0:0]"), Some(0));
    assert_eq!(r.get_by_selector::<u8>(VecRegName::XMM, 1, "[3:3]"), Some(1));
    assert!(r.set_by_selector::<u8>(VecRegName::XMM, 1, "[11:4]", 0xff));
    assert_eq!(r.get_by_selector::<u32>(VecRegName::XMM, 1, "[31:0]"), Some(0x1234_5ff8));
}

#[test]
fn max_selector_covers_bits_64_to_511() {
    let mut r = Registers::new();
    assert!(r.set_by_sections(VecRegName::ZMM, 3, vec![u64::MAX; 8]));
    assert!(r.set_by_selector::<u32>(VecRegName::ZMM, 3, "[MAX:64]", 0xffff_ffff));
    let lanes = r.get_by_sections::<u32>(VecRegName::ZMM, 3).unwrap();
    assert_eq!(&lanes[..3], &[u32::MAX, u32::MAX, u32::MAX]);
    assert!(lanes[3..].iter().all(|&x| x == 0));
    assert_eq!(r.get_by_selector::<u512>(VecRegName::ZMM, 3, "[MAX:0]"), Some(u512::from(u128::MAX >> 32)));
    assert_eq!(r.get_by_selector::<u8>(VecRegName::ZMM, 3, "[MAX:MAX]"), Some(0));
    assert_eq!(extract_values("[MAX:64]"), Some((511, 64)));
}

#[test]
fn malformed_selectors_fail_without_change() {
    let mut r = Registers::new();
    assert!(r.set_by_sections(VecRegName::XMM, 4, vec![0xabcd_ef01u32; 4]));
    for s in ["", "[]", "31:0", "[31:0", "31:0]", "[31;0]", "[a:0]", "[31:x]", "[:0]", "[31:]", "[0:31]", "[512:0]", "[MAX:512]", "[3 1:0]", "[-1:0]", "[31:0:1]", "[max:0]"] {
        assert!(!r.set_by_selector::<u32>(VecRegName::XMM, 4, s, 0), "{}", s);
        assert_eq!(r.get_by_selector::<u32>(VecRegName::XMM, 4, s), None, "{}", s);
        assert_eq!(extract_values(s), None, "{}", s);
    }
    assert_eq!(r.get_by_sections::<u32>(VecRegName::XMM, 4), Some(vec![0xabcd_ef01u32; 4]));
    assert_eq!(extract_values("[511:0]"), Some((511, 0)));
    assert_eq!(extract_values("[007:3]"), Some((7, 3)));
}

#[test]
fn selector_is_found_anywhere_in_the_text() {
    assert_eq!(extract_values("a[3:0]"), Some((3, 0)));
    assert_eq!(extract_values(" [31:0]"), Some((31, 0)));
    assert_eq!(extract_values("[31:0] "), Some((31, 0)));
    assert_eq!(extract_values("xmm0[7:4]tail[9:8]"), Some((7, 4)));
    assert_eq!(extract_values("x]3:0[5:4]"), Some((5, 4)));
    assert_eq!(extract_values("[31:0]]"), Some((31, 0)));
    assert_eq!(extract_values("[3\n:0][2:1]"), Some((2, 1)));
    assert_eq!(extract_values("[3\n:0]"), None);
    assert_eq!(extract_values("[3:\n0]"), None);
    assert_eq!(extract_values("[[3:0]"), None);
    let mut r = Registers::new();
    assert!(r.set_by_sections(VecRegName::XMM, 6, vec![0x0000_00f5u32; 4]));
    assert_eq!(r.get_by_selector::<u8>(VecRegName::XMM, 6, "a[3:0]"), Some(5));
    assert!(r.set_by_selector::<u8>(VecRegName::XMM, 6, "bits [7:4] here", 0x3));
    assert_eq!(r.get_by_selector::<u8>(VecRegName::XMM, 6, "[7:0]"), Some(0x35));
}

#[test]
fn dword_write_zero_extends() {
    let mut r = Registers::new();
    r.set_gpr_value(GPRName::RAX, u64::MAX);
    r.set_gpr_value(GPRName::EAX, 0xFFFF_FFFF);
    assert_eq!(r.get_gpr_value(GPRName::RAX), 0x0000_0000_FFFF_FFFF);
    r.set_gpr_value(GPRName::AL, 0xFF);
    assert_eq!(r.get_gpr_value(GPRName::RAX), 0x0000_0000_FFFF_FFFF);
    r.set_gpr_value(GPRName::AL, 0x12);
    assert_eq!(r.get_gpr_value(GPRName::RAX), 0x0000_0000_FFFF_FF12);
    r.set_gpr_value(GPRName::R9D, 0x1_2345_6789);
    assert_eq!(r.get_gpr_value(GPRName::R9), 0x2345_6789);
}

#[test]
fn narrow_writes_merge() {
    let mut r = Registers::new();
    r.set_gpr_value(GPRName::RBX, 0x1122_3344_5566_7788);
    r.set_gpr_value(GPRName::BX, 0xABCD_EF01);
    assert_eq!(r.get_gpr_value(GPRName::RBX), 0x1122_3344_5566_EF01);
    r.set_gpr_value(GPRName::BH, 0x99AA);
    assert_eq!(r.get_gpr_value(GPRName::RBX), 0x1122_3344_5566_AA01);
    assert_eq!(r.get_gpr_value(GPRName::BH), 0xAA);
    assert_eq!(r.get_gpr_value(GPRName::BL), 0x01);
    assert_eq!(r.get_gpr_value(GPRName::BX), 0xAA01);
    assert_eq!(r.get_gpr_value(GPRName::EBX), 0x5566_AA01);
    r.set_gpr_value(GPRName::SPL, 0x7F);
    assert_eq!(r.get_gpr_value(GPRName::RSP), 0x7F);
    r.set_gpr_value(GPRName::R15B, 0x1FF);
    r.set_gpr_value(GPRName::R15W, 0x1234);
    assert_eq!(r.get_gpr_value(GPRName::R15), 0x1234);
}

#[test]
fn families_are_independent() {
    let mut r = Registers::new();
    r.set_gpr_value(GPRName::RSI, 1);
    r.set_gpr_value(GPRName::RDI, 2);
    r.set_gpr_value(GPRName::RBP, 3);
    r.set_gpr_value(GPRName::R8, 4);
    r.set_gpr_value(GPRName::DH, 5);
    assert_eq!(r.get_gpr_value(GPRName::RSI), 1);
    assert_eq!(r.get_gpr_value(GPRName::DIL), 2);
    assert_eq!(r.get_gpr_value(GPRName::BP), 3);
    assert_eq!(r.get_gpr_value(GPRName::R8W), 4);
    assert_eq!(r.get_gpr_value(GPRName::RDX), 0x500);
    assert_eq!(r.get_gpr_value(GPRName::RAX), 0);
}

#[test]
fn flags_views_merge_into_low_bits() {
    let mut r = Registers::new();
    r.set_flags_value(FLAGSName::RFLAGS, 0x1122_3344_5566_7788);
    r.set_flags_value(FLAGSName::EFLAGS, 0xAAAA_BBBB_CCCC_DDDD);
    assert_eq!(r.get_flags_value(FLAGSName::RFLAGS), 0x1122_3344_CCCC_DDDD);
    r.set_flags_value(FLAGSName::FLAGS, 0x1234_5678);
    assert_eq!(r.get_flags_value(FLAGSName::RFLAGS), 0x1122_3344_CCCC_5678);
    assert_eq!(r.get_flags_value(FLAGSName::EFLAGS), 0xCCCC_5678);
    assert_eq!(r.get_flags_value(FLAGSName::FLAGS), 0x5678);
}

#[test]
fn ip_views_merge_into_low_bits() {
    let mut r = Registers::new();
    r.set_ip_value(IPName::RIP, 0xFFFF_FFFF_FFFF_FFFF);
    r.set_ip_value(IPName::EIP, 0x0040_1000);
    assert_eq!(r.get_ip_value(IPName::RIP), 0xFFFF_FFFF_0040_1000);
    r.set_ip_value(IPName::IP, 0x2_0002);
    assert_eq!(r.get_ip_value(IPName::RIP), 0xFFFF_FFFF_0040_0002);
    assert_eq!(r.get_ip_value(IPName::EIP), 0x0040_0002);
    assert_eq!(r.get_ip_value(IPName::IP), 0x0002);
    assert_eq!(r.get_flags_value(FLAGSName::RFLAGS), 0);
}

#[test]
fn gpr_sizes() {
    assert_eq!(Utilities::get_gpr_size(&GPRName::RAX), 64);
    assert_eq!(Utilities::get_gpr_size(&GPRName::R12D), 32);
    assert_eq!(Utilities::get_gpr_size(&GPRName::SP), 16);
    assert_eq!(Utilities::get_gpr_size(&GPRName::AH), 8);
    assert_eq!(Utilities::get_gpr_size(&GPRName::R15B), 8);
}

#[test]
fn register_names() {
    assert_eq!(GPRName::RAX.name(), "RAX");
    assert_eq!(GPRName::R10D.name(), "R10D");
    assert_eq!(GPRName::SIL.name(), "SIL");
    assert_eq!(GPRName::AH.name(), "AH");
    assert_eq!(VecRegName::XMM.name(), "XMM");
    assert_eq!(VecRegName::ZMM.name(), "ZMM");
    assert_eq!(VecRegName::YMM.width(), 256);
    let v = GPRName::CH.view();
    assert_eq!((v.family, v.width, v.shift), (2, 8, 8));
}
