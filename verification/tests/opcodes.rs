use chip8::cpu::CPU;

fn fresh() -> CPU {
    let mut cpu = CPU::new();
    cpu.load_fontset();
    cpu
}

#[test]
fn load_then_add_wraps_modulo_256() {
    let mut cpu = fresh();
    cpu.step_with_random(0x61C8, 0); // V1 = 200
    cpu.step_with_random(0x7164, 0); // V1 += 100
    assert_eq!(cpu.v[1], 44); // (200 + 100) % 256
    assert_eq!(cpu.program_counter, 0x204);
}

#[test]
fn add_registers_sets_carry_on_overflow() {
    let mut cpu = fresh();
    cpu.v[2] = 200;
    cpu.v[3] = 100;
    cpu.step_with_random(0x8234, 0);
    assert_eq!(cpu.v[2], 44);
    assert_eq!(cpu.v[0xF], 1);
}

#[test]
fn add_registers_clears_carry_without_overflow() {
    let mut cpu = fresh();
    cpu.v[2] = 20;
    cpu.v[3] = 30;
    cpu.v[0xF] = 7; // a flag instruction always overwrites VF
    cpu.step_with_random(0x8234, 0);
    assert_eq!(cpu.v[2], 50);
    assert_eq!(cpu.v[0xF], 0);
}

#[test]
fn sub_registers_clears_flag_on_borrow() {
    let mut cpu = fresh();
    cpu.v[4] = 10;
    cpu.v[5] = 20;
    cpu.step_with_random(0x8455, 0);
    assert_eq!(cpu.v[4], 246); // (10 - 20) mod 256
    assert_eq!(cpu.v[0xF], 0);
}

#[test]
fn sub_registers_sets_flag_without_borrow() {
    let mut cpu = fresh();
    cpu.v[4] = 20;
    cpu.v[5] = 10;
    cpu.step_with_random(0x8455, 0);
    assert_eq!(cpu.v[4], 10);
    assert_eq!(cpu.v[0xF], 1);
}

#[test]
fn reverse_sub_flags_mirror_operand_order() {
    let mut cpu = fresh();
    cpu.v[4] = 10;
    cpu.v[5] = 20;
    cpu.step_with_random(0x8457, 0); // V4 = V5 - V4
    assert_eq!(cpu.v[4], 10);
    assert_eq!(cpu.v[0xF], 1);
}

#[test]
fn shift_right_captures_low_bit_first() {
    let mut cpu = fresh();
    cpu.v[6] = 0x0B; // odd
    cpu.step_with_random(0x8606, 0);
    assert_eq!(cpu.v[6], 0x05);
    assert_eq!(cpu.v[0xF], 1);
}

#[test]
fn shift_left_captures_high_bit_first() {
    let mut cpu = fresh();
    cpu.v[6] = 0x81;
    cpu.step_with_random(0x860E, 0);
    assert_eq!(cpu.v[6], 0x02); // doubled modulo 256
    assert_eq!(cpu.v[0xF], 128); // bit 7, masked not normalized
}

#[test]
fn bitwise_or_and_xor() {
    let mut cpu = fresh();
    cpu.v[0] = 0b1100;
    cpu.v[1] = 0b1010;
    cpu.step_with_random(0x8011, 0);
    assert_eq!(cpu.v[0], 0b1110);
    cpu.v[0] = 0b1100;
    cpu.step_with_random(0x8012, 0);
    assert_eq!(cpu.v[0], 0b1000);
    cpu.v[0] = 0b1100;
    cpu.step_with_random(0x8013, 0);
    assert_eq!(cpu.v[0], 0b0110);
}

#[test]
fn register_copy() {
    let mut cpu = fresh();
    cpu.v[7] = 0xAB;
    cpu.step_with_random(0x8070, 0);
    assert_eq!(cpu.v[0], 0xAB);
}

#[test]
fn skip_if_equal_immediate() {
    let mut cpu = fresh();
    cpu.v[1] = 0x42;
    cpu.step_with_random(0x3142, 0);
    assert_eq!(cpu.program_counter, 0x204); // condition true: +4
    let mut cpu = fresh();
    cpu.v[1] = 0x41;
    cpu.step_with_random(0x3142, 0);
    assert_eq!(cpu.program_counter, 0x202); // condition false: +2
}

#[test]
fn skip_if_not_equal_immediate() {
    let mut cpu = fresh();
    cpu.v[1] = 0x42;
    cpu.step_with_random(0x4142, 0);
    assert_eq!(cpu.program_counter, 0x202);
    let mut cpu = fresh();
    cpu.v[1] = 0x00;
    cpu.step_with_random(0x4142, 0);
    assert_eq!(cpu.program_counter, 0x204);
}

#[test]
fn skip_on_register_comparison() {
    let mut cpu = fresh();
    cpu.v[1] = 9;
    cpu.v[2] = 9;
    cpu.step_with_random(0x5120, 0);
    assert_eq!(cpu.program_counter, 0x204);
    let mut cpu = fresh();
    cpu.v[1] = 9;
    cpu.v[2] = 8;
    cpu.step_with_random(0x9120, 0);
    assert_eq!(cpu.program_counter, 0x204);
}

#[test]
fn skips_leave_registers_untouched() {
    let mut cpu = fresh();
    cpu.v[1] = 0x42;
    let before = cpu.v.clone();
    cpu.step_with_random(0x3142, 0);
    assert_eq!(cpu.v, before);
}

#[test]
fn jump_sets_pc_absolutely() {
    let mut cpu = fresh();
    cpu.step_with_random(0x1ABC, 0);
    assert_eq!(cpu.program_counter, 0xABC);
}

#[test]
fn jump_with_offset_adds_v0() {
    let mut cpu = fresh();
    cpu.v[0] = 0x10;
    cpu.step_with_random(0xB300, 0);
    assert_eq!(cpu.program_counter, 0x310);
}

#[test]
fn call_then_return_round_trip() {
    let mut cpu = fresh();
    cpu.step_with_random(0x2400, 0); // call 0x400
    assert_eq!(cpu.program_counter, 0x400);
    assert_eq!(cpu.stack_pointer, 1);
    assert_eq!(cpu.stack[0], 0x200);
    cpu.step_with_random(0x00EE, 0); // return
    assert_eq!(cpu.program_counter, 0x202);
    assert_eq!(cpu.stack_pointer, 0);
}

#[test]
fn return_with_empty_stack_is_a_no_op() {
    let mut cpu = fresh();
    cpu.step_with_random(0x00EE, 0);
    assert_eq!(cpu.program_counter, 0x200);
    assert_eq!(cpu.stack_pointer, 0);
}

#[test]
fn call_with_full_stack_is_a_no_op() {
    let mut cpu = fresh();
    cpu.stack_pointer = 16;
    cpu.step_with_random(0x2400, 0);
    assert_eq!(cpu.program_counter, 0x200);
    assert_eq!(cpu.stack_pointer, 16);
}

#[test]
fn set_index_register() {
    let mut cpu = fresh();
    cpu.step_with_random(0xA123, 0);
    assert_eq!(cpu.index, 0x123);
}

#[test]
fn random_byte_is_masked_by_immediate() {
    let mut cpu = fresh();
    cpu.step_with_random(0xC10F, 0xAB);
    assert_eq!(cpu.v[1], 0xAB & 0x0F);
}

#[test]
fn timer_register_transfers() {
    let mut cpu = fresh();
    cpu.v[3] = 77;
    cpu.step_with_random(0xF315, 0); // delay = V3
    assert_eq!(cpu.delay_timer, 77);
    cpu.step_with_random(0xF318, 0); // sound = V3
    assert_eq!(cpu.sound_timer, 77);
    cpu.step_with_random(0xF407, 0); // V4 = delay
    assert_eq!(cpu.v[4], 77);
}

#[test]
fn add_to_index_flags_range_overflow() {
    let mut cpu = fresh();
    cpu.index = 0xFFE;
    cpu.v[1] = 4;
    cpu.step_with_random(0xF11E, 0);
    assert_eq!(cpu.index, 0x1002);
    assert_eq!(cpu.v[0xF], 1);
    let mut cpu = fresh();
    cpu.index = 0x100;
    cpu.v[1] = 4;
    cpu.step_with_random(0xF11E, 0);
    assert_eq!(cpu.index, 0x104);
    assert_eq!(cpu.v[0xF], 0);
}

#[test]
fn font_address_is_five_times_digit() {
    let mut cpu = fresh();
    cpu.v[2] = 0xA;
    cpu.step_with_random(0xF229, 0);
    assert_eq!(cpu.index, 50);
}

#[test]
fn bcd_decomposition_of_157() {
    let mut cpu = fresh();
    cpu.v[1] = 157;
    cpu.index = 0x300;
    cpu.step_with_random(0xF133, 0);
    assert_eq!(cpu.memory[0x300], 1);
    assert_eq!(cpu.memory[0x301], 5);
    assert_eq!(cpu.memory[0x302], 7);
}

#[test]
fn store_and_load_register_block() {
    let mut cpu = fresh();
    for k in 0..4 {
        cpu.v[k] = (10 + k) as u8;
    }
    cpu.index = 0x400;
    cpu.step_with_random(0xF355, 0); // store V0..V3
    assert_eq!(&cpu.memory[0x400..0x404], &[10, 11, 12, 13]);
    assert_eq!(cpu.memory[0x404], 0);
    let mut cpu2 = fresh();
    cpu2.memory[0x400..0x404].copy_from_slice(&[10, 11, 12, 13]);
    cpu2.index = 0x400;
    cpu2.step_with_random(0xF365, 0); // load V0..V3
    assert_eq!(&cpu2.v[0..4], &[10, 11, 12, 13]);
    assert_eq!(cpu2.v[4], 0);
}

#[test]
fn key_skips_follow_keypad_state() {
    let mut cpu = fresh();
    let mut keys = vec![false; 16];
    keys[7] = true;
    cpu.set_keys(keys);
    cpu.v[1] = 7;
    cpu.step_with_random(0xE19E, 0); // skip if key V1 held
    assert_eq!(cpu.program_counter, 0x204);
    cpu.step_with_random(0xE1A1, 0); // skip if key V1 released
    assert_eq!(cpu.program_counter, 0x206);
}

#[test]
fn wait_for_key_stalls_until_one_is_held() {
    let mut cpu = fresh();
    cpu.step_with_random(0xF50A, 0);
    assert_eq!(cpu.program_counter, 0x200); // no key: retry next cycle
    let mut keys = vec![false; 16];
    keys[3] = true;
    keys[9] = true;
    cpu.set_keys(keys);
    cpu.step_with_random(0xF50A, 0);
    assert_eq!(cpu.v[5], 3); // lowest held key
    assert_eq!(cpu.program_counter, 0x202);
}

#[test]
fn unknown_opcode_leaves_state_unchanged() {
    let mut cpu = fresh();
    cpu.v[1] = 5;
    cpu.step_with_random(0x5121, 0); // 5XY1 matches no pattern
    assert_eq!(cpu.program_counter, 0x200);
    assert_eq!(cpu.v[1], 5);
}
