use rust8::{Chip8, Chip8Error};

fn machine_with(program: &[u8]) -> Chip8 {
    let mut chip8 = Chip8::new();
    chip8.load_rom(program).unwrap();
    chip8
}

fn run(chip8: &mut Chip8, steps: usize) {
    for _ in 0..steps {
        chip8.tick_with_random(0).unwrap();
    }
}

fn lit_cells(chip8: &Chip8) -> usize {
    chip8.get_video_buffer().iter().filter(|c| **c != 0).count()
}

#[test]
fn new_machine_has_font_and_entry_point() {
    let chip8 = Chip8::new();
    assert_eq!(chip8.pc(), 0x200);
    assert_eq!(chip8.index(), 0);
    assert_eq!(chip8.stack_depth(), 0);
    assert_eq!(chip8.memory_at(0x050), 0xF0);
    assert_eq!(chip8.memory_at(0x055), 0x20);
    assert_eq!(chip8.memory_at(0x09F), 0x80);
    assert_eq!(chip8.memory_at(0x04F), 0);
    assert_eq!(chip8.memory_at(0x0A0), 0);
    assert_eq!(chip8.memory_at(0x200), 0);
    assert_eq!(lit_cells(&chip8), 0);
    for r in 0..16 {
        assert_eq!(chip8.register(r), 0);
    }
}

#[test]
fn add_registers_sets_carry() {
    // V0 = 0xFF, V1 = 0x01, V0 += V1
    let mut chip8 = machine_with(&[0x60, 0xFF, 0x61, 0x01, 0x80, 0x14]);
    run(&mut chip8, 3);
    assert_eq!(chip8.register(0), 0x00);
    assert_eq!(chip8.register(0xF), 1);
}

#[test]
fn add_registers_without_carry() {
    let mut chip8 = machine_with(&[0x60, 0x10, 0x61, 0x20, 0x80, 0x14]);
    run(&mut chip8, 3);
    assert_eq!(chip8.register(0), 0x30);
    assert_eq!(chip8.register(0xF), 0);
}

#[test]
fn add_registers_exactly_255_has_no_carry() {
    let mut chip8 = machine_with(&[0x60, 0xF0, 0x61, 0x0F, 0x6F, 0x07, 0x80, 0x14]);
    run(&mut chip8, 4);
    assert_eq!(chip8.register(0), 0xFF);
    assert_eq!(chip8.register(0xF), 0);
}

#[test]
fn sub_registers_sets_no_borrow_flag() {
    let mut chip8 = machine_with(&[0x60, 0x05, 0x61, 0x03, 0x80, 0x15]);
    run(&mut chip8, 3);
    assert_eq!(chip8.register(0), 2);
    assert_eq!(chip8.register(0xF), 1);
}

#[test]
fn sub_registers_with_borrow_wraps() {
    let mut chip8 = machine_with(&[0x60, 0x03, 0x61, 0x05, 0x80, 0x15]);
    run(&mut chip8, 3);
    assert_eq!(chip8.register(0), 254);
    assert_eq!(chip8.register(0xF), 0);
}

#[test]
fn sub_registers_equal_values_set_flag() {
    let mut chip8 = machine_with(&[0x60, 0x07, 0x61, 0x07, 0x80, 0x15]);
    run(&mut chip8, 3);
    assert_eq!(chip8.register(0), 0);
    assert_eq!(chip8.register(0xF), 1);
}

#[test]
fn subn_registers_subtracts_vx_from_vy() {
    let mut chip8 = machine_with(&[0x60, 0x03, 0x61, 0x05, 0x80, 0x17]);
    run(&mut chip8, 3);
    assert_eq!(chip8.register(0), 2);
    assert_eq!(chip8.register(0xF), 1);
    let mut chip8 = machine_with(&[0x60, 0x05, 0x61, 0x03, 0x80, 0x17]);
    run(&mut chip8, 3);
    assert_eq!(chip8.register(0), 254);
    assert_eq!(chip8.register(0xF), 0);
}

#[test]
fn shifts_take_flag_from_register_value() {
    // V2 = 0x81; V2 >>= 1
    let mut chip8 = machine_with(&[0x62, 0x81, 0x82, 0x06]);
    run(&mut chip8, 2);
    assert_eq!(chip8.register(2), 0x40);
    assert_eq!(chip8.register(0xF), 1);
    // V2 = 0x81; V2 <<= 1
    let mut chip8 = machine_with(&[0x62, 0x81, 0x82, 0x0E]);
    run(&mut chip8, 2);
    assert_eq!(chip8.register(2), 0x02);
    assert_eq!(chip8.register(0xF), 1);
    // V2 = 0x40; V2 <<= 1
    let mut chip8 = machine_with(&[0x62, 0x40, 0x82, 0x0E]);
    run(&mut chip8, 2);
    assert_eq!(chip8.register(2), 0x80);
    assert_eq!(chip8.register(0xF), 0);
}

#[test]
fn logic_and_load_register_ops() {
    let program = [
        0x60, 0b1100, 0x61, 0b1010, 0x82, 0x00, // V2 = V0
        0x82, 0x11, // V2 |= V1
        0x83, 0x00, 0x83, 0x12, // V3 = V0 & V1
        0x84, 0x00, 0x84, 0x13, // V4 = V0 ^ V1
    ];
    let mut chip8 = machine_with(&program);
    run(&mut chip8, 8);
    assert_eq!(chip8.register(2), 0b1110);
    assert_eq!(chip8.register(3), 0b1000);
    assert_eq!(chip8.register(4), 0b0110);
}

#[test]
fn add_immediate_wraps_and_leaves_flag() {
    let mut chip8 = machine_with(&[0x6F, 0x05, 0x63, 0xFE, 0x73, 0x03]);
    run(&mut chip8, 3);
    assert_eq!(chip8.register(3), 0x01);
    assert_eq!(chip8.register(0xF), 5);
}

#[test]
fn clear_screen_after_drawing_leaves_all_unlit() {
    // I = font glyph 0, draw it, then clear
    let mut chip8 = machine_with(&[0xA0, 0x50, 0xD0, 0x05, 0x00, 0xE0]);
    run(&mut chip8, 2);
    assert!(lit_cells(&chip8) > 0);
    run(&mut chip8, 1);
    assert_eq!(lit_cells(&chip8), 0);
    assert!(chip8.get_video_buffer().iter().all(|c| *c == 0));
}

#[test]
fn draw_font_glyph_lights_expected_cells() {
    // glyph 0 is F0 90 90 90 F0: 4 + 2 + 2 + 2 + 4 lit pixels
    let mut chip8 = machine_with(&[0xA0, 0x50, 0xD0, 0x05]);
    run(&mut chip8, 2);
    assert_eq!(lit_cells(&chip8), 14);
    let video = chip8.get_video_buffer();
    assert_eq!(video[0], 0xFFFF_FFFF);
    assert_eq!(video[3], 0xFFFF_FFFF);
    assert_eq!(video[4], 0);
    assert_eq!(video[64], 0xFFFF_FFFF);
    assert_eq!(video[65], 0);
    assert_eq!(chip8.register(0xF), 0);
}

#[test]
fn draw_same_sprite_twice_restores_screen() {
    let mut chip8 = machine_with(&[0xA0, 0x50, 0xD0, 0x05, 0xD0, 0x05]);
    run(&mut chip8, 2);
    assert_eq!(chip8.register(0xF), 0);
    run(&mut chip8, 1);
    assert_eq!(lit_cells(&chip8), 0);
    assert_eq!(chip8.register(0xF), 1);
}

#[test]
fn draw_wraps_around_edges() {
    // V0 = 62, V1 = 31; draw one row 0xF0 from the font
    let mut chip8 = machine_with(&[0x60, 62, 0x61, 31, 0xA0, 0x50, 0xD0, 0x11]);
    run(&mut chip8, 4);
    let video = chip8.get_video_buffer();
    assert_eq!(lit_cells(&chip8), 4);
    assert_eq!(video[31 * 64 + 62], 0xFFFF_FFFF);
    assert_eq!(video[31 * 64 + 63], 0xFFFF_FFFF);
    assert_eq!(video[31 * 64], 0xFFFF_FFFF);
    assert_eq!(video[31 * 64 + 1], 0xFFFF_FFFF);
}

#[test]
fn draw_with_sprite_past_memory_end_fails() {
    // I = 0xFFE, draw 5 rows
    let mut chip8 = machine_with(&[0xAF, 0xFE, 0xD0, 0x05]);
    run(&mut chip8, 1);
    assert_eq!(chip8.tick_with_random(0), Err(Chip8Error::AddressOutOfRange));
    assert_eq!(chip8.pc(), 0x202);
    assert_eq!(lit_cells(&chip8), 0);
}

#[test]
fn call_then_return_resumes_after_call() {
    // 0x200: call 0x206; 0x206: return
    let mut chip8 = machine_with(&[0x22, 0x06, 0x00, 0x00, 0x00, 0x00, 0x00, 0xEE]);
    run(&mut chip8, 1);
    assert_eq!(chip8.pc(), 0x206);
    assert_eq!(chip8.stack_depth(), 1);
    run(&mut chip8, 1);
    assert_eq!(chip8.pc(), 0x202);
    assert_eq!(chip8.stack_depth(), 0);
}

#[test]
fn return_with_empty_stack_fails() {
    let mut chip8 = machine_with(&[0x00, 0xEE]);
    assert_eq!(chip8.tick_with_random(0), Err(Chip8Error::StackUnderflow));
    assert_eq!(chip8.pc(), 0x200);
}

#[test]
fn seventeenth_nested_call_fails() {
    // call 0x200 forever
    let mut chip8 = machine_with(&[0x22, 0x00]);
    run(&mut chip8, 16);
    assert_eq!(chip8.stack_depth(), 16);
    assert_eq!(chip8.tick_with_random(0), Err(Chip8Error::StackOverflow));
    assert_eq!(chip8.stack_depth(), 16);
    assert_eq!(chip8.pc(), 0x200);
}

#[test]
fn bcd_of_157() {
    let mut chip8 = machine_with(&[0x65, 157, 0xA3, 0x00, 0xF5, 0x33]);
    run(&mut chip8, 3);
    assert_eq!(chip8.memory_at(0x300), 1);
    assert_eq!(chip8.memory_at(0x301), 5);
    assert_eq!(chip8.memory_at(0x302), 7);
}

#[test]
fn bcd_of_zero_and_255() {
    let mut chip8 = machine_with(&[0x65, 0, 0xA3, 0x00, 0xF5, 0x33, 0x65, 255, 0xF5, 0x33]);
    run(&mut chip8, 3);
    assert_eq!(
        (chip8.memory_at(0x300), chip8.memory_at(0x301), chip8.memory_at(0x302)),
        (0, 0, 0)
    );
    run(&mut chip8, 2);
    assert_eq!(
        (chip8.memory_at(0x300), chip8.memory_at(0x301), chip8.memory_at(0x302)),
        (2, 5, 5)
    );
}

#[test]
fn bcd_past_memory_end_fails() {
    let mut chip8 = machine_with(&[0xAF, 0xFE, 0xF0, 0x33]);
    run(&mut chip8, 1);
    assert_eq!(chip8.tick_with_random(0), Err(Chip8Error::AddressOutOfRange));
    assert_eq!(chip8.memory_at(0xFFE), 0);
}

#[test]
fn delay_timer_round_trip() {
    // V3 = 42; delay = V3; V7 = delay
    let mut chip8 = machine_with(&[0x63, 42, 0xF3, 0x15, 0xF7, 0x07]);
    run(&mut chip8, 3);
    assert_eq!(chip8.delay_timer(), 42);
    assert_eq!(chip8.register(7), 42);
}

#[test]
fn timers_count_down_to_zero() {
    let mut chip8 = machine_with(&[0x60, 2, 0xF0, 0x15, 0x61, 1, 0xF1, 0x18]);
    run(&mut chip8, 4);
    assert_eq!((chip8.delay_timer(), chip8.sound_timer()), (2, 1));
    chip8.tick_clock();
    assert_eq!((chip8.delay_timer(), chip8.sound_timer()), (1, 0));
    chip8.tick_clock();
    assert_eq!((chip8.delay_timer(), chip8.sound_timer()), (0, 0));
    chip8.tick_clock();
    assert_eq!((chip8.delay_timer(), chip8.sound_timer()), (0, 0));
}

#[test]
fn clear_then_jump_loops() {
    let mut chip8 = machine_with(&[0x00, 0xE0, 0x12, 0x00]);
    chip8.tick_with_random(0).unwrap();
    assert_eq!(chip8.pc(), 0x202);
    assert_eq!(lit_cells(&chip8), 0);
    chip8.tick_with_random(0).unwrap();
    assert_eq!(chip8.pc(), 0x200);
    chip8.tick_with_random(0).unwrap();
    assert_eq!(chip8.pc(), 0x202);
}

#[test]
fn wait_for_key_busy_waits_until_pressed() {
    let mut chip8 = machine_with(&[0xF4, 0x0A]);
    for _ in 0..5 {
        chip8.tick_with_random(0).unwrap();
        assert_eq!(chip8.pc(), 0x200);
    }
    chip8.get_keypad()[9] = true;
    chip8.tick_with_random(0).unwrap();
    assert_eq!(chip8.pc(), 0x202);
    assert_eq!(chip8.register(4), 9);
}

#[test]
fn wait_for_key_takes_lowest_and_sees_key_f() {
    let mut chip8 = machine_with(&[0xF4, 0x0A]);
    chip8.get_keypad()[0xF] = true;
    chip8.tick_with_random(0).unwrap();
    assert_eq!(chip8.register(4), 0xF);
    let mut chip8 = machine_with(&[0xF4, 0x0A]);
    chip8.get_keypad()[0xC] = true;
    chip8.get_keypad()[0x3] = true;
    chip8.tick_with_random(0).unwrap();
    assert_eq!(chip8.register(4), 0x3);
}

#[test]
fn key_skips() {
    // V0 = 5; skip if key V0 pressed; V1 = 1; skip if key V0 not pressed; V2 = 2
    let program = [0x60, 5, 0xE0, 0x9E, 0x61, 1, 0xE0, 0xA1, 0x62, 2];
    let mut chip8 = machine_with(&program);
    chip8.get_keypad()[5] = true;
    run(&mut chip8, 4);
    assert_eq!(chip8.register(1), 0);
    assert_eq!(chip8.register(2), 2);
    assert_eq!(chip8.pc(), 0x20A);
    let mut chip8 = machine_with(&program);
    run(&mut chip8, 4);
    assert_eq!(chip8.register(1), 1);
    assert_eq!(chip8.register(2), 0);
    assert_eq!(chip8.pc(), 0x20A);
}

#[test]
fn key_skip_with_key_out_of_range_fails() {
    let mut chip8 = machine_with(&[0x60, 16, 0xE0, 0x9E]);
    run(&mut chip8, 1);
    assert_eq!(chip8.tick_with_random(0), Err(Chip8Error::KeyOutOfRange));
    assert_eq!(chip8.pc(), 0x202);
}

#[test]
fn skip_on_byte_and_registers() {
    let program = [
        0x60, 7, 0x61, 7, // V0 = V1 = 7
        0x30, 7, 0x00, 0x00, // skip
        0x40, 7, // no skip
        0x50, 0x10, 0x00, 0x00, // skip
        0x90, 0x10, // no skip
    ];
    let mut chip8 = machine_with(&program);
    run(&mut chip8, 3);
    assert_eq!(chip8.pc(), 0x208);
    run(&mut chip8, 1);
    assert_eq!(chip8.pc(), 0x20A);
    run(&mut chip8, 1);
    assert_eq!(chip8.pc(), 0x20E);
    run(&mut chip8, 1);
    assert_eq!(chip8.pc(), 0x210);
}

#[test]
fn jump_with_offset_and_index_ops() {
    let mut chip8 = machine_with(&[0x60, 0x10, 0xB3, 0x00]);
    run(&mut chip8, 2);
    assert_eq!(chip8.pc(), 0x310);
    let mut chip8 = machine_with(&[0xA1, 0x23, 0x60, 0x05, 0xF0, 0x1E, 0x61, 0x0B, 0xF1, 0x29]);
    run(&mut chip8, 3);
    assert_eq!(chip8.index(), 0x128);
    run(&mut chip8, 2);
    assert_eq!(chip8.index(), 0x050 + 5 * 0x0B);
}

#[test]
fn store_and_load_registers() {
    let program = [
        0x60, 1, 0x61, 2, 0x62, 3, 0x63, 4, // V0..V3
        0xA4, 0x00, 0xF2, 0x55, // store V0..V2 at 0x400
        0xA4, 0x01, 0xF1, 0x65, // load V0..V1 from 0x401
    ];
    let mut chip8 = machine_with(&program);
    run(&mut chip8, 6);
    assert_eq!(chip8.memory_at(0x400), 1);
    assert_eq!(chip8.memory_at(0x401), 2);
    assert_eq!(chip8.memory_at(0x402), 3);
    assert_eq!(chip8.memory_at(0x403), 0);
    assert_eq!(chip8.index(), 0x400);
    run(&mut chip8, 2);
    assert_eq!(chip8.register(0), 2);
    assert_eq!(chip8.register(1), 3);
    assert_eq!(chip8.register(2), 3);
    assert_eq!(chip8.register(3), 4);
}

#[test]
fn store_registers_past_memory_end_fails() {
    let mut chip8 = machine_with(&[0xAF, 0xFE, 0xF2, 0x55]);
    run(&mut chip8, 1);
    assert_eq!(chip8.tick_with_random(0), Err(Chip8Error::AddressOutOfRange));
}

#[test]
fn random_and_masks_the_random_byte() {
    let mut chip8 = machine_with(&[0xC3, 0x0F]);
    chip8.tick_with_random(0xAB).unwrap();
    assert_eq!(chip8.register(3), 0x0B);
}

#[test]
fn random_with_zero_mask_gives_zero() {
    let mut chip8 = machine_with(&[0x63, 0x55, 0xC3, 0x00, 0xC4, 0x0F]);
    chip8.tick().unwrap();
    chip8.tick().unwrap();
    assert_eq!(chip8.register(3), 0);
    chip8.tick().unwrap();
    assert!(chip8.register(4) <= 0x0F);
    assert_eq!(chip8.pc(), 0x206);
}

#[test]
fn unknown_instructions_change_nothing_but_pc() {
    let mut chip8 = machine_with(&[0x01, 0x23, 0x80, 0x08, 0xE0, 0xFF, 0xF0, 0xFF, 0x50, 0x01]);
    run(&mut chip8, 4);
    assert_eq!(chip8.pc(), 0x208);
    for r in 0..16 {
        assert_eq!(chip8.register(r), 0);
    }
    assert_eq!(chip8.stack_depth(), 0);
}

#[test]
fn fetch_past_memory_end_fails() {
    let mut chip8 = machine_with(&[0x1F, 0xFF]);
    run(&mut chip8, 1);
    assert_eq!(chip8.pc(), 0xFFF);
    assert_eq!(chip8.tick_with_random(0), Err(Chip8Error::AddressOutOfRange));
    assert_eq!(chip8.pc(), 0xFFF);
}

#[test]
fn load_rom_that_fills_memory_exactly() {
    let rom = vec![0xABu8; 4096 - 0x200];
    let mut chip8 = Chip8::new();
    assert_eq!(chip8.load_rom(&rom), Ok(()));
    assert_eq!(chip8.memory_at(0x200), 0xAB);
    assert_eq!(chip8.memory_at(0xFFF), 0xAB);
    assert_eq!(chip8.memory_at(0x1FF), 0);
}

#[test]
fn load_rom_too_large_is_refused_untouched() {
    let rom = vec![0xABu8; 4096 - 0x200 + 1];
    let mut chip8 = Chip8::new();
    assert_eq!(chip8.load_rom(&rom), Err(Chip8Error::RomTooLarge));
    assert_eq!(chip8.memory_at(0x200), 0);
    assert_eq!(chip8.memory_at(0xFFF), 0);
}

#[test]
fn load_empty_rom() {
    let mut chip8 = Chip8::new();
    assert_eq!(chip8.load_rom(&[]), Ok(()));
    assert_eq!(chip8.memory_at(0x200), 0);
}
