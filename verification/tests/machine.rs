use chip8::cpu::{CPU, MEM_SIZE, PROGRAM_START};

fn boot(program: &[u8]) -> CPU {
    let mut cpu = CPU::new();
    cpu.load_fontset();
    cpu.load_program(&program.to_vec());
    cpu
}

#[test]
fn power_on_state() {
    let cpu = CPU::new();
    assert_eq!(cpu.program_counter, 0x200);
    assert_eq!(cpu.memory.len(), 4096);
    assert!(cpu.memory.iter().all(|&b| b == 0));
    assert_eq!(cpu.v, vec![0u8; 16]);
    assert_eq!(cpu.stack_pointer, 0);
    assert!(!cpu.draw_flag);
}

#[test]
fn fontset_occupies_the_first_80_bytes() {
    let mut cpu = CPU::new();
    cpu.load_fontset();
    assert_eq!(&cpu.memory[0..5], &[0xF0, 0x90, 0x90, 0x90, 0xF0]); // glyph 0
    assert_eq!(&cpu.memory[75..80], &[0xF0, 0x80, 0xF0, 0x80, 0x80]); // glyph F
    assert_eq!(cpu.memory[80], 0);
}

#[test]
fn load_program_copies_bytes_to_0x200() {
    let cpu = boot(&[0xAA, 0xBB, 0xCC]);
    assert_eq!(cpu.memory[0x200], 0xAA);
    assert_eq!(cpu.memory[0x201], 0xBB);
    assert_eq!(cpu.memory[0x202], 0xCC);
    assert_eq!(cpu.memory[0x203], 0);
}

#[test]
fn cycle_fetches_big_endian_and_advances() {
    let mut cpu = boot(&[0x61, 0x2A]); // V1 = 0x2A
    let events = cpu.execute_cycle();
    assert_eq!(cpu.v[1], 0x2A);
    assert_eq!(cpu.program_counter, 0x202);
    assert!(!events.beep);
    assert_eq!(events.unrecognized, None);
}

#[test]
fn cycle_reports_unrecognized_opcode_and_keeps_pc() {
    let mut cpu = boot(&[0xFF, 0xFF]);
    let events = cpu.execute_cycle();
    assert_eq!(events.unrecognized, Some(0xFFFF));
    assert_eq!(cpu.program_counter, 0x200);
}

#[test]
fn timers_count_down_once_per_cycle() {
    let mut cpu = boot(&[0x00, 0x00]); // idle opcode, pc stays put
    cpu.delay_timer = 3;
    cpu.sound_timer = 2;
    cpu.execute_cycle();
    assert_eq!(cpu.delay_timer, 2);
    assert_eq!(cpu.sound_timer, 1);
}

#[test]
fn beep_fires_exactly_when_sound_timer_reaches_zero() {
    let mut cpu = boot(&[0x00, 0x00]);
    cpu.sound_timer = 3;
    let mut beeps = Vec::new();
    for _ in 0..5 {
        let events = cpu.execute_cycle();
        beeps.push(events.beep);
    }
    assert_eq!(cpu.sound_timer, 0);
    assert_eq!(beeps, vec![false, false, true, false, false]);
}

#[test]
fn delay_timer_reaches_zero_after_exactly_its_start_value() {
    let mut cpu = boot(&[0x00, 0x00]);
    cpu.delay_timer = 7;
    for n in 1..=7u8 {
        cpu.execute_cycle();
        assert_eq!(cpu.delay_timer, 7 - n);
    }
    cpu.execute_cycle();
    assert_eq!(cpu.delay_timer, 0);
}

#[test]
fn draw_cycle_sets_draw_flag_and_collision_register() {
    // V0 = 0, V1 = 0, index at the 0 glyph, draw it twice.
    let mut cpu = boot(&[
        0x60, 0x00, // V0 = 0
        0x61, 0x00, // V1 = 0
        0xA0, 0x00, // index = 0
        0xD0, 0x15, // draw 5 rows at (V0, V1)
        0xD0, 0x15, // draw again: XOR clears, collision
    ]);
    for _ in 0..4 {
        cpu.execute_cycle();
    }
    assert!(cpu.draw_flag);
    assert_eq!(cpu.v[0xF], 0);
    assert_eq!(cpu.display.memory[0], 1); // 0xF0: top row of glyph 0
    cpu.execute_cycle();
    assert_eq!(cpu.v[0xF], 1);
    assert!(cpu.display.memory.iter().all(|&c| c == 0));
}

#[test]
fn random_opcode_masks_with_immediate() {
    let mut cpu = boot(&[0xC1, 0x0F]);
    cpu.execute_cycle();
    assert_eq!(cpu.v[1] & 0xF0, 0); // whatever was drawn, the mask held
    assert_eq!(cpu.program_counter, 0x202);
}

#[test]
fn font_glyph_reaches_registers_through_memory() {
    // V0 = 5, index = glyph 5's base, load V0 from memory[index].
    let mut cpu = boot(&[
        0x60, 0x05, // V0 = 5
        0xF0, 0x29, // index = V0 * 5
        0xF0, 0x65, // V0 = memory[index]
    ]);
    cpu.execute_cycle();
    cpu.execute_cycle();
    assert_eq!(cpu.index, 25);
    cpu.execute_cycle();
    assert_eq!(cpu.v[0], 0xF0); // first byte of glyph 5
    assert_eq!(cpu.program_counter, 0x206);
}

#[test]
fn set_keys_replaces_keypad_state() {
    let mut cpu = CPU::new();
    let mut keys = vec![false; 16];
    keys[0xC] = true;
    cpu.set_keys(keys);
    assert!(cpu.keypad.keys[0xC]);
    assert!(!cpu.keypad.keys[0]);
}

#[test]
fn empty_program_loads_without_touching_memory() {
    let mut cpu = CPU::new();
    cpu.load_fontset();
    let before = cpu.memory.clone();
    cpu.load_program(&Vec::new());
    assert_eq!(cpu.memory, before);
}

#[test]
fn largest_program_fills_memory_to_the_end() {
    let image = vec![0x7Eu8; MEM_SIZE - PROGRAM_START];
    let cpu = boot(&image);
    assert_eq!(cpu.memory[PROGRAM_START], 0x7E);
    assert_eq!(cpu.memory[MEM_SIZE - 1], 0x7E);
    assert_eq!(cpu.memory[PROGRAM_START - 1], 0);
}

#[test]
fn zero_row_sprite_draws_nothing_but_still_signals_redraw() {
    let mut cpu = boot(&[0xD0, 0x10]); // draw 0 rows at (V0, V1)
    cpu.execute_cycle();
    assert!(cpu.draw_flag);
    assert_eq!(cpu.v[0xF], 0);
    assert!(cpu.display.memory.iter().all(|&c| c == 0));
}

#[test]
fn sprite_read_past_end_of_memory_is_a_no_op() {
    let mut cpu = boot(&[0xD0, 0x15]); // 5 rows from index 4094
    cpu.index = 4094;
    cpu.execute_cycle();
    assert!(!cpu.draw_flag);
    assert_eq!(cpu.program_counter, 0x200);
}

#[test]
fn bcd_write_past_end_of_memory_is_a_no_op() {
    let mut cpu = boot(&[0xF1, 0x33]);
    cpu.index = 4094;
    cpu.v[1] = 157;
    let before = cpu.memory.clone();
    cpu.execute_cycle();
    assert_eq!(cpu.memory, before);
    assert_eq!(cpu.program_counter, 0x200);
}

#[test]
fn subroutine_round_trip_through_cycles() {
    let mut cpu = boot(&[0x22, 0x04, 0x00, 0x00, 0x00, 0xEE]); // call 0x204; return
    cpu.execute_cycle();
    assert_eq!(cpu.program_counter, 0x204);
    assert_eq!(cpu.stack_pointer, 1);
    cpu.execute_cycle();
    assert_eq!(cpu.program_counter, 0x202);
    assert_eq!(cpu.stack_pointer, 0);
}
