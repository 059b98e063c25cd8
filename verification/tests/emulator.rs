use chip8::chip8::{Chip8, Fault, CYCLES_PER_FRAME, HEIGHT, WIDTH};

/// A machine with `program` (big-endian words) loaded at 0x200.
fn machine(program: &[u16]) -> Chip8 {
    let mut rom = Vec::new();
    for w in program {
        rom.push((w >> 8) as u8);
        rom.push((w & 0xFF) as u8);
    }
    let mut chip = Chip8::new();
    chip.load_rom(&rom);
    chip
}

fn run(chip: &mut Chip8, cycles: usize) {
    for _ in 0..cycles {
        assert_eq!(chip.fault(), None);
        chip.cycle();
    }
}

fn lit_pixels(chip: &Chip8) -> Vec<usize> {
    (0..WIDTH * HEIGHT).filter(|&i| chip.gfx()[i]).collect()
}

#[test]
fn new_machine_is_blank() {
    let chip = Chip8::new();
    assert_eq!(chip.sound_timer(), 0);
    assert!(lit_pixels(&chip).is_empty());
    assert_eq!(WIDTH * HEIGHT, 2048);
    assert_eq!(CYCLES_PER_FRAME, 10);
    // memory is all zero, so the first word is an unknown opcode
    assert_eq!(chip.fault(), Some(Fault::UnknownOpcode { opcode: 0x0000, pc: 0x202 }));
}

#[test]
fn draws_font_glyph_zero() {
    // V0 = 0; I = font glyph of V0; draw 8x5 at (V0, V0)
    let mut chip = machine(&[0x6000, 0xF029, 0xD005]);
    run(&mut chip, 3);
    // "0" is F0 90 90 90 F0
    let mut expected = vec![];
    for (row, bits) in [0xF0u8, 0x90, 0x90, 0x90, 0xF0].iter().enumerate() {
        for col in 0..8 {
            if bits & (0x80 >> col) != 0 {
                expected.push(row * 64 + col);
            }
        }
    }
    assert_eq!(lit_pixels(&chip), expected);
}

#[test]
fn drawing_twice_erases_and_reports_collision() {
    // I = glyph "8"; draw at (3, 4) twice; sound timer = VF
    let mut chip = machine(&[0x6008, 0xF029, 0x6103, 0x6204, 0xD125, 0xD125, 0xFF18]);
    run(&mut chip, 5);
    assert!(!lit_pixels(&chip).is_empty());
    assert!(lit_pixels(&chip).contains(&(4 * 64 + 3)));
    run(&mut chip, 2);
    assert!(lit_pixels(&chip).is_empty());
    assert_eq!(chip.sound_timer(), 1);
}

#[test]
fn first_draw_on_clear_screen_has_no_collision() {
    let mut chip = machine(&[0x6008, 0xF029, 0xD005, 0xFF18]);
    run(&mut chip, 4);
    assert_eq!(chip.sound_timer(), 0);
}

#[test]
fn sprites_clip_at_the_edges() {
    // glyph "0" at (62, 30): only columns 62, 63 and rows 30, 31 show
    let mut chip = machine(&[0x6000, 0xF029, 0x613E, 0x621E, 0xD125]);
    run(&mut chip, 5);
    assert_eq!(lit_pixels(&chip), vec![30 * 64 + 62, 30 * 64 + 63, 31 * 64 + 62]);
}

#[test]
fn coordinates_wrap_modulo_the_screen() {
    // x = 64 + 1, y = 32 + 2
    let mut chip = machine(&[0x6000, 0xF029, 0x6141, 0x6222, 0xD121]);
    run(&mut chip, 5);
    assert_eq!(lit_pixels(&chip), vec![2 * 64 + 1, 2 * 64 + 2, 2 * 64 + 3, 2 * 64 + 4]);
}

#[test]
fn clear_screen() {
    let mut chip = machine(&[0xF029, 0xD005, 0x00E0]);
    run(&mut chip, 2);
    assert!(!lit_pixels(&chip).is_empty());
    run(&mut chip, 1);
    assert!(lit_pixels(&chip).is_empty());
}

#[test]
fn add_sets_carry() {
    let mut chip = machine(&[0x60FF, 0x6102, 0x8014, 0xFF18]);
    run(&mut chip, 4);
    assert_eq!(chip.sound_timer(), 1);
    let mut chip = machine(&[0x60FF, 0x6102, 0x8014, 0xF018]);
    run(&mut chip, 4);
    assert_eq!(chip.sound_timer(), 1); // 0xFF + 2 wraps to 1
}

#[test]
fn subtract_sets_no_borrow() {
    let mut chip = machine(&[0x6005, 0x6107, 0x8015, 0xF018]);
    run(&mut chip, 4);
    assert_eq!(chip.sound_timer(), 254); // 5 - 7 wraps
    let mut chip = machine(&[0x6005, 0x6107, 0x8015, 0xFF18]);
    run(&mut chip, 4);
    assert_eq!(chip.sound_timer(), 0); // borrow
    let mut chip = machine(&[0x6005, 0x6107, 0x8017, 0xFF18]);
    run(&mut chip, 4);
    assert_eq!(chip.sound_timer(), 1); // 7 - 5, no borrow
}

#[test]
fn logic_ops_reset_vf() {
    let mut chip = machine(&[0x6F09, 0x600C, 0x610A, 0x8011, 0xF018]);
    run(&mut chip, 5);
    assert_eq!(chip.sound_timer(), 0x0E);
    let mut chip = machine(&[0x6F09, 0x600C, 0x610A, 0x8012, 0xFF18]);
    run(&mut chip, 5);
    assert_eq!(chip.sound_timer(), 0);
    let mut chip = machine(&[0x600C, 0x610A, 0x8013, 0xF018]);
    run(&mut chip, 4);
    assert_eq!(chip.sound_timer(), 0x06);
}

#[test]
fn shifts_use_vy_and_set_vf() {
    // V1 = 0x81; V0 = V1 >> 1 = 0x40, VF = 1
    let mut chip = machine(&[0x6181, 0x8016, 0xF018]);
    run(&mut chip, 3);
    assert_eq!(chip.sound_timer(), 0x40);
    let mut chip = machine(&[0x6181, 0x8016, 0xFF18]);
    run(&mut chip, 3);
    assert_eq!(chip.sound_timer(), 1);
    // V0 = V1 << 1 = 0x02, VF = 1
    let mut chip = machine(&[0x6181, 0x801E, 0xF018]);
    run(&mut chip, 3);
    assert_eq!(chip.sound_timer(), 0x02);
    let mut chip = machine(&[0x6181, 0x801E, 0xFF18]);
    run(&mut chip, 3);
    assert_eq!(chip.sound_timer(), 1);
}

#[test]
fn add_immediate_wraps_without_flag() {
    let mut chip = machine(&[0x60F0, 0x7020, 0xF018]);
    run(&mut chip, 3);
    assert_eq!(chip.sound_timer(), 0x10);
}

#[test]
fn skips() {
    // 3XNN taken: skips the 6005
    let mut chip = machine(&[0x6003, 0x3003, 0x6005, 0xF018]);
    run(&mut chip, 3);
    assert_eq!(chip.sound_timer(), 3);
    // 4XNN not taken
    let mut chip = machine(&[0x6003, 0x4003, 0x6005, 0xF018]);
    run(&mut chip, 4);
    assert_eq!(chip.sound_timer(), 5);
    // 5XY0 taken, 9XY0 not taken
    let mut chip = machine(&[0x6003, 0x6103, 0x5010, 0x6009, 0x9010, 0x6007, 0xF018]);
    run(&mut chip, 6);
    assert_eq!(chip.sound_timer(), 7);
}

#[test]
fn call_and_return() {
    // 0x200: call 0x206; 0x202: V0 = 9; 0x204: sound = V0; 0x206: V0 = 4; 0x208: ret
    let mut chip = machine(&[0x2206, 0x6009, 0xF018, 0x6004, 0x00EE]);
    run(&mut chip, 3);
    assert_eq!(chip.sound_timer(), 0);
    run(&mut chip, 2);
    assert_eq!(chip.sound_timer(), 9);
}

#[test]
fn return_on_empty_stack_faults() {
    let chip = machine(&[0x00EE]);
    assert_eq!(chip.fault(), Some(Fault::StackUnderflow { pc: 0x202 }));
}

#[test]
fn sixteen_nested_calls_fit_the_seventeenth_faults() {
    // call itself forever
    let mut chip = machine(&[0x2200]);
    run(&mut chip, 16);
    assert_eq!(chip.fault(), Some(Fault::StackOverflow { pc: 0x202 }));
}

#[test]
fn unknown_opcodes_fault() {
    assert_eq!(machine(&[0x0123]).fault(), Some(Fault::UnknownOpcode { opcode: 0x0123, pc: 0x202 }));
    assert_eq!(machine(&[0x8128]).fault(), Some(Fault::UnknownOpcode { opcode: 0x8128, pc: 0x202 }));
    assert_eq!(machine(&[0xE1FF]).fault(), Some(Fault::UnknownOpcode { opcode: 0xE1FF, pc: 0x202 }));
    assert_eq!(machine(&[0xF1FF]).fault(), Some(Fault::UnknownOpcode { opcode: 0xF1FF, pc: 0x202 }));
}

#[test]
fn jump_and_unknown_reports_pc() {
    let mut chip = machine(&[0x1204, 0x6001, 0x0000]);
    run(&mut chip, 1);
    assert_eq!(chip.fault(), Some(Fault::UnknownOpcode { opcode: 0x0000, pc: 0x206 }));
}

#[test]
fn jump_with_offset() {
    // V0 = 2; jump to 0x204 + V0 = 0x206
    let mut chip = machine(&[0x6002, 0xB204, 0x0000, 0x0001]);
    run(&mut chip, 2);
    assert_eq!(chip.fault(), Some(Fault::UnknownOpcode { opcode: 0x0001, pc: 0x208 }));
}

#[test]
fn fetch_past_memory_faults() {
    let mut chip = machine(&[0x1FFF]);
    run(&mut chip, 1);
    assert_eq!(chip.fault(), Some(Fault::MemoryOutOfRange));
}

#[test]
fn key_number_out_of_range_faults() {
    let mut chip = machine(&[0x6010, 0xE09E]);
    run(&mut chip, 1);
    assert_eq!(chip.fault(), Some(Fault::KeyOutOfRange));
}

#[test]
fn index_overflow_faults() {
    // I = 0xFFF, V0 = 0xFF, then I += V0 in a loop
    let mut chip = machine(&[0xAFFF, 0x60FF, 0xF01E, 0x1204]);
    let mut n = 0;
    while chip.fault().is_none() {
        chip.cycle();
        n += 1;
        assert!(n < 10_000);
    }
    assert_eq!(chip.fault(), Some(Fault::IndexOverflow));
}

#[test]
fn bcd_store_out_of_range_faults() {
    let chip_program = [0xAFFE, 0xF033];
    let mut chip = machine(&chip_program);
    run(&mut chip, 1);
    assert_eq!(chip.fault(), Some(Fault::MemoryOutOfRange));
}

#[test]
fn draw_reading_past_memory_faults() {
    let mut chip = machine(&[0xAFFE, 0xD005]);
    run(&mut chip, 1);
    assert_eq!(chip.fault(), Some(Fault::MemoryOutOfRange));
}

#[test]
fn wait_for_key() {
    let mut chip = machine(&[0xF30A, 0xF318]);
    run(&mut chip, 5);
    // still waiting: the next word is still FX0A
    assert_eq!(chip.sound_timer(), 0);
    chip.key_down(0xC);
    chip.key_down(0x5);
    run(&mut chip, 2);
    assert_eq!(chip.sound_timer(), 5);
}

#[test]
fn skip_on_key() {
    let mut chip = machine(&[0x6007, 0xE09E, 0x6101, 0xF118]);
    chip.key_down(7);
    run(&mut chip, 3);
    assert_eq!(chip.sound_timer(), 0);
    let mut chip = machine(&[0x6007, 0xE0A1, 0x6101, 0xF118]);
    chip.key_down(7);
    chip.key_up(7);
    run(&mut chip, 3);
    assert_eq!(chip.sound_timer(), 0);
    let mut chip = machine(&[0x6007, 0xE09E, 0x6101, 0xF118]);
    run(&mut chip, 4);
    assert_eq!(chip.sound_timer(), 1);
}

#[test]
fn timers_count_down_to_zero() {
    let mut chip = machine(&[0x6003, 0xF018, 0xF015]);
    run(&mut chip, 2);
    assert_eq!(chip.sound_timer(), 3);
    chip.tick();
    assert_eq!(chip.sound_timer(), 2);
    for _ in 0..5 {
        chip.tick();
    }
    assert_eq!(chip.sound_timer(), 0);
}

#[test]
fn delay_timer_round_trip() {
    let mut chip = machine(&[0x6009, 0xF015, 0xF107, 0xF118]);
    run(&mut chip, 2);
    chip.tick();
    run(&mut chip, 2);
    assert_eq!(chip.sound_timer(), 8);
}

#[test]
fn random_byte_is_masked() {
    let mut chip = machine(&[0xC000, 0xF018]);
    run(&mut chip, 2);
    assert_eq!(chip.sound_timer(), 0);
    let mut chip = machine(&[0xC0F0, 0xF018]);
    chip.cycle_with(0xAB);
    chip.cycle_with(0);
    assert_eq!(chip.sound_timer(), 0xA0);
    // with the thread-local generator, the low nibble stays clear
    for _ in 0..20 {
        let mut chip = machine(&[0xC0F0, 0xF018]);
        run(&mut chip, 2);
        assert_eq!(chip.sound_timer() & 0x0F, 0);
    }
}

#[test]
fn bcd_and_load() {
    // V0 = 156; I = 0x300; BCD; load V0..V2; sound = V1 (5)
    let mut chip = machine(&[0x609C, 0xA300, 0xF033, 0xF265, 0xF118]);
    run(&mut chip, 5);
    assert_eq!(chip.sound_timer(), 5);
    let mut chip = machine(&[0x609C, 0xA300, 0xF033, 0xF265, 0xF018]);
    run(&mut chip, 5);
    assert_eq!(chip.sound_timer(), 1);
    let mut chip = machine(&[0x609C, 0xA300, 0xF033, 0xF265, 0xF218]);
    run(&mut chip, 5);
    assert_eq!(chip.sound_timer(), 6);
}

#[test]
fn store_then_load_restores_registers() {
    // V0..V2 = 7, 8, 9; store at 0x300; clobber; I = 0x300; load back
    let mut chip = machine(&[0x6007, 0x6108, 0x6209, 0xA300, 0xF255, 0x6100, 0xA300, 0xF265, 0xF118]);
    run(&mut chip, 9);
    assert_eq!(chip.sound_timer(), 8);
}

#[test]
fn store_advances_index() {
    // after storing V0..V1 at 0x300, I = 0x302; V0 = 0x33 stored there, reload
    let mut chip = machine(&[0x6011, 0x6122, 0xA300, 0xF155, 0x6033, 0xF055, 0xA302, 0xF065, 0xF018]);
    run(&mut chip, 9);
    assert_eq!(chip.sound_timer(), 0x33);
}

#[test]
fn index_add_sets_vf_past_0fff() {
    let mut chip = machine(&[0xAFFF, 0x6001, 0xF01E, 0xFF18]);
    run(&mut chip, 4);
    assert_eq!(chip.sound_timer(), 1);
    let mut chip = machine(&[0xAFF0, 0x6001, 0xF01E, 0xFF18]);
    run(&mut chip, 4);
    assert_eq!(chip.sound_timer(), 0);
}
