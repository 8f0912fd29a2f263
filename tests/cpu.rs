use cpulib::{u256, u512, VecRegName, GPRName, CPU};

#[test]
fn test() {
    let mut cpu = CPU::default();
    // test set/get bit
    cpu.registers.set_bit(VecRegName::XMM, 0, 127, true);
    if let Some(result) = cpu.registers.get_bit(VecRegName::XMM, 0, 127) {
        assert_eq!(result, true);
    }
    if let Some(result) = cpu.registers.get_bit(VecRegName::YMM, 0, 127) {
        assert_eq!(result, true);
    }
    if let Some(result) = cpu.registers.get_bit(VecRegName::ZMM, 0, 127) {
        assert_eq!(result, true);
    }
    cpu.registers.set_bit(VecRegName::YMM, 0, 255, true);
    if let Some(result) = cpu.registers.get_bit(VecRegName::YMM, 0, 255) {
        assert_eq!(result, true);
    }
    cpu.registers.set_bit(VecRegName::ZMM, 0, 511, true);
    if let Some(result) = cpu.registers.get_bit(VecRegName::ZMM, 0, 511) {
        assert_eq!(result, true);
    }
    // test get sections
    cpu.registers.set_bit(VecRegName::ZMM, 1, 0, true);
    cpu.registers.set_bit(VecRegName::ZMM, 1, 511, true);
    if let Some(result) = cpu.registers.get_by_sections::<u64>(VecRegName::ZMM, 1) {
        assert_eq!(result.len(), 8);
        assert_eq!(result[0], 1);
        assert_eq!(result[7], 9223372036854775808);
    }
    // test set sections
    assert_eq!(cpu.registers.set_by_sections(VecRegName::XMM, 2, vec![2147483648u32, 2147483648u32, 2147483648u32, 2147483648u32]), true);
    if let Some(result) = cpu.registers.get_by_sections::<u32>(VecRegName::XMM, 2) {
        assert_eq!(result.len(), 4);
        assert_eq!(result[0], 2147483648u32);
        assert_eq!(result[1], 2147483648u32);
        assert_eq!(result[2], 2147483648u32);
        assert_eq!(result[3], 2147483648u32);
    }
    // test GPR
    cpu.registers.set_gpr_value(GPRName::RAX, 18446744073709486080u64);
    assert_eq!(cpu.registers.get_gpr_value(GPRName::RAX), 18446744073709486080u64);
    cpu.registers.set_gpr_value(GPRName::AL, 255u64);
    assert_eq!(cpu.registers.get_gpr_value(GPRName::RAX), 18446744073709486335u64);
    cpu.registers.set_gpr_value(GPRName::EAX, 65535u64);
    assert_eq!(cpu.registers.get_gpr_value(GPRName::RAX), 65535u64);
    // test type u256 & u512
    assert_eq!(cpu.registers.set_by_sections(VecRegName::ZMM, 3, vec![u256::from(1u128), u256::from(2u128)]), true);
    if let Some(result) = cpu.registers.get_by_sections::<u256>(VecRegName::ZMM, 3) {
        assert_eq!(result.len(), 2);
        assert_eq!(result[0], u256::from(1u128));
        assert_eq!(result[1], u256::from(2u128));
    }
    assert_eq!(cpu.registers.set_by_sections(VecRegName::ZMM, 5, vec![u512::from(1u128)]), true);
    if let Some(result) = cpu.registers.get_by_sections::<u512>(VecRegName::ZMM, 5) {
        assert_eq!(result.len(), 1);
        assert_eq!(result[0], u512::from(1u128));
    }
    // test float values, carried as their bit patterns
    let floats: Vec<u32> = vec![1.0f32, 2.0f32, 3.0f32, 4.0f32].into_iter().map(|x| x.to_bits()).collect();
    assert_eq!(cpu.registers.set_by_sections(VecRegName::XMM, 6, floats), true);
    if let Some(u32vec) = cpu.registers.get_by_sections::<u32>(VecRegName::XMM, 6) {
        let result: Vec<f32> = u32vec.into_iter().map(f32::from_bits).collect();
        assert_eq!(result.len(), 4);
        assert_eq!(result[0], 1.0f32);
        assert_eq!(result[1], 2.0f32);
        assert_eq!(result[2], 3.0f32);
        assert_eq!(result[3], 4.0f32);
    }
    let doubles: Vec<u64> = vec![1.0f64, 2.0f64].into_iter().map(|x| x.to_bits()).collect();
    assert_eq!(cpu.registers.set_by_sections(VecRegName::XMM, 7, doubles), true);
    if let Some(u64vec) = cpu.registers.get_by_sections::<u64>(VecRegName::XMM, 7) {
        let result: Vec<f64> = u64vec.into_iter().map(f64::from_bits).collect();
        assert_eq!(result.len(), 2);
        assert_eq!(result[0], 1.0f64);
        assert_eq!(result[1], 2.0f64);
    }
    // test selector
    cpu.registers.set_by_sections::<u32>(VecRegName::XMM, 15, vec![
        0x12345678u32, 0x12345678u32, 0x12345678u32, 0x12345678u32,
    ]);
    cpu.registers.set_by_selector::<u32>(VecRegName::XMM, 15, "[31:0]", 0x00000000u32);
    if let Some(result) = cpu.registers.get_by_sections::<u32>(VecRegName::XMM, 15) {
        assert_eq!(result[0], 0u32);
        assert_eq!(result[1], 0x12345678u32);
        assert_eq!(result[2], 0x12345678u32);
        assert_eq!(result[3], 0x12345678u32);
    }
    cpu.registers.set_by_selector::<u32>(VecRegName::XMM, 15, "[MAX:64]", 0x00000000u32);
    if let Some(result) = cpu.registers.get_by_sections::<u32>(VecRegName::XMM, 15) {
        assert_eq!(result[0], 0u32);
        assert_eq!(result[1], 0x12345678u32);
        assert_eq!(result[2], 0u32);
        assert_eq!(result[3], 0u32);
    }
    // test memory
    assert_eq!(cpu.memory.read::<u8>(0x00400000), 0);
    cpu.memory.write::<u8>(0x00400000, 0x12);
    assert_eq!(cpu.memory.read::<u8>(0x00400000), 0x12);
    cpu.memory.write::<u16>(0x00400000, 0x1234);
    assert_eq!(cpu.memory.read::<u16>(0x00400000), 0x1234);
    cpu.memory.write::<u32>(0x00400000, 0x12345678);
    assert_eq!(cpu.memory.read::<u32>(0x00400000), 0x12345678);
    cpu.memory.write::<u64>(0x00400000, 0x1234567887654321);
    assert_eq!(cpu.memory.read::<u64>(0x00400000), 0x1234567887654321);
    cpu.memory.write::<u128>(0x00400000, 0x12345678876543211234567887654321);
    assert_eq!(cpu.memory.read::<u128>(0x00400000), 0x12345678876543211234567887654321);
    cpu.memory.write::<u256>(0x00400000, u256::from(0x12345678876543211234567887654321u128));
    assert_eq!(cpu.memory.read::<u256>(0x00400000), u256::from(0x12345678876543211234567887654321u128));
    cpu.memory.write::<u512>(0x00400000, u512::from(0x12345678876543211234567887654321u128));
    assert_eq!(cpu.memory.read::<u512>(0x00400000), u512::from(0x12345678876543211234567887654321u128));
    cpu.memory.write_vec::<u64>(0x00400000, vec![
        0, 1, 2, 3, 4, 5, 6, 7,
    ]);
    let result = cpu.memory.read_vec::<u32>(0x00400000, 16);
    assert_eq!(result[0], 0);
    assert_eq!(result[1], 0);
    assert_eq!(result[2], 1);
    assert_eq!(result[3], 0);
    assert_eq!(result[4], 2);
    assert_eq!(result[5], 0);
    assert_eq!(result[6], 3);
    assert_eq!(result[7], 0);
    assert_eq!(result[8], 4);
    assert_eq!(result[9], 0);
    assert_eq!(result[10], 5);
    assert_eq!(result[11], 0);
    assert_eq!(result[12], 6);
    assert_eq!(result[13], 0);
    assert_eq!(result[14], 7);
    assert_eq!(result[15], 0);
}
