//! Per-instruction behavior, driven through whole fetch-decode-execute
//! steps over small programs.

use chip8_core::{Chip8, VmError};

/// A machine with the given program loaded at 0x200.
fn boot(rom: &[u8]) -> Chip8 {
    let mut c = Chip8::new();
    c.load_rom(&rom.to_vec()).unwrap();
    c
}

/// Runs `n` steps with a fixed random byte of zero.
fn run(c: &mut Chip8, n: usize) {
    for _ in 0..n {
        c.step(0).unwrap();
    }
}

#[test]
fn cls_clears_the_frame_buffer() {
    let mut c = boot(&[0xA0, 0x50, 0xD0, 0x15, 0x00, 0xE0]);
    run(&mut c, 2);
    assert_eq!(c.frame_pixel(0, 0), 1);
    run(&mut c, 1);
    for y in 0..32 {
        for x in 0..64 {
            assert_eq!(c.frame_pixel(x, y), 0);
        }
    }
}

#[test]
fn jump_sets_the_program_counter() {
    let mut c = boot(&[0x13, 0x45]);
    run(&mut c, 1);
    assert_eq!(c.program_counter, 0x345);
}

#[test]
fn skip_equal_immediate_taken_and_not_taken() {
    let mut c = boot(&[0x30, 0x00]);
    run(&mut c, 1);
    assert_eq!(c.program_counter, 0x204);
    let mut c = boot(&[0x30, 0x01]);
    run(&mut c, 1);
    assert_eq!(c.program_counter, 0x202);
}

#[test]
fn skip_not_equal_immediate_taken_and_not_taken() {
    let mut c = boot(&[0x40, 0x01]);
    run(&mut c, 1);
    assert_eq!(c.program_counter, 0x204);
    let mut c = boot(&[0x40, 0x00]);
    run(&mut c, 1);
    assert_eq!(c.program_counter, 0x202);
}

#[test]
fn skip_on_register_comparison() {
    // V0 := 7; V1 := 7; skip if V0 == V1
    let mut c = boot(&[0x60, 0x07, 0x61, 0x07, 0x50, 0x10]);
    run(&mut c, 3);
    assert_eq!(c.program_counter, 0x208);
    // V0 := 7; V1 := 8; skip if V0 != V1
    let mut c = boot(&[0x60, 0x07, 0x61, 0x08, 0x90, 0x10]);
    run(&mut c, 3);
    assert_eq!(c.program_counter, 0x208);
}

#[test]
fn register_skips_ignore_the_low_nibble() {
    // only the 0x0, 0x8, 0xE and 0xF families look past the top nibble,
    // so 0x5xy7 still compares registers
    let mut c = boot(&[0x50, 0x17]);
    run(&mut c, 1);
    assert_eq!(c.program_counter, 0x204);
}

#[test]
fn load_and_move_registers() {
    let mut c = boot(&[0x6A, 0x5C, 0x8B, 0xA0]);
    run(&mut c, 2);
    assert_eq!(c.register(0xA), 0x5C);
    assert_eq!(c.register(0xB), 0x5C);
}

#[test]
fn add_immediate_wraps_without_flag() {
    // V5 := 0xFF; VF := 1 via 8xy4 first? No: check the flag stays untouched.
    // V5 := 0xFF; V5 += 1 wraps to 0 and VF keeps its old value (0 here).
    let mut c = boot(&[0x65, 0xFF, 0x75, 0x01]);
    run(&mut c, 2);
    assert_eq!(c.register(5), 0x00);
    assert_eq!(c.register(0xF), 0);
}

#[test]
fn or_and_xor_reset_the_flag() {
    // VE := 0xFF; V1 := 0x01; VE += V1 sets VF := 1; then V0 := V0 | V1
    // resets VF to 0.
    let mut c = boot(&[0x6E, 0xFF, 0x61, 0x01, 0x8E, 0x14, 0x80, 0x11]);
    run(&mut c, 3);
    assert_eq!(c.register(0xF), 1);
    run(&mut c, 1);
    assert_eq!(c.register(0xF), 0);
    assert_eq!(c.register(0), 0x01);
}

#[test]
fn bitwise_results() {
    let mut c = boot(&[
        0x60, 0xCC, 0x61, 0xAA, 0x80, 0x11, // V0 := CC | AA = EE
        0x62, 0xCC, 0x63, 0xAA, 0x82, 0x32, // V2 := CC & AA = 88
        0x64, 0xCC, 0x65, 0xAA, 0x84, 0x53, // V4 := CC ^ AA = 66
    ]);
    run(&mut c, 9);
    assert_eq!(c.register(0), 0xEE);
    assert_eq!(c.register(2), 0x88);
    assert_eq!(c.register(4), 0x66);
}

#[test]
fn add_registers_sets_carry() {
    // V0 := 0xFF; V1 := 0x01; V0 += V1
    let mut c = boot(&[0x60, 0xFF, 0x61, 0x01, 0x80, 0x14]);
    run(&mut c, 3);
    assert_eq!(c.register(0), 0x00);
    assert_eq!(c.register(0xF), 1);
    // V0 := 0x01; V1 := 0x01; V0 += V1
    let mut c = boot(&[0x60, 0x01, 0x61, 0x01, 0x80, 0x14]);
    run(&mut c, 3);
    assert_eq!(c.register(0), 0x02);
    assert_eq!(c.register(0xF), 0);
}

#[test]
fn sub_registers_sets_no_borrow_flag() {
    // V0 := 5; V1 := 3; V0 -= V1: no borrow
    let mut c = boot(&[0x60, 0x05, 0x61, 0x03, 0x80, 0x15]);
    run(&mut c, 3);
    assert_eq!(c.register(0), 0x02);
    assert_eq!(c.register(0xF), 1);
    // V0 := 3; V1 := 5; V0 -= V1: borrow
    let mut c = boot(&[0x60, 0x03, 0x61, 0x05, 0x80, 0x15]);
    run(&mut c, 3);
    assert_eq!(c.register(0), 0xFE);
    assert_eq!(c.register(0xF), 0);
}

#[test]
fn sub_from_reverses_the_operands() {
    // V0 := 3; V1 := 5; V0 := V1 - V0
    let mut c = boot(&[0x60, 0x03, 0x61, 0x05, 0x80, 0x17]);
    run(&mut c, 3);
    assert_eq!(c.register(0), 0x02);
    assert_eq!(c.register(0xF), 1);
    // V0 := 5; V1 := 3; V0 := V1 - V0 wraps
    let mut c = boot(&[0x60, 0x05, 0x61, 0x03, 0x80, 0x17]);
    run(&mut c, 3);
    assert_eq!(c.register(0), 0xFE);
    assert_eq!(c.register(0xF), 0);
}

#[test]
fn shift_right_keeps_the_low_bit() {
    let mut c = boot(&[0x60, 0x05, 0x80, 0x06]);
    run(&mut c, 2);
    assert_eq!(c.register(0), 0x02);
    assert_eq!(c.register(0xF), 1);
}

#[test]
fn shift_left_keeps_the_high_bit() {
    let mut c = boot(&[0x60, 0x81, 0x80, 0x0E]);
    run(&mut c, 2);
    assert_eq!(c.register(0), 0x02);
    assert_eq!(c.register(0xF), 1);
}

#[test]
fn load_index_and_add_index() {
    let mut c = boot(&[0xA0, 0x10, 0x60, 0x05, 0xF0, 0x1E]);
    run(&mut c, 1);
    assert_eq!(c.index_register(), 0x10);
    run(&mut c, 2);
    assert_eq!(c.index_register(), 0x15);
}

#[test]
fn jump_plus_v0() {
    let mut c = boot(&[0x60, 0x04, 0xB3, 0x00]);
    run(&mut c, 2);
    assert_eq!(c.program_counter, 0x304);
}

#[test]
fn random_masks_with_nn() {
    // V0 := 0x0F & random
    let mut c = boot(&[0xC0, 0x0F]);
    c.step(0xAB).unwrap();
    assert_eq!(c.register(0), 0x0B);
}

#[test]
fn skip_if_key_down_and_up() {
    // V0 := 5; skip if key V0 down
    let mut c = boot(&[0x60, 0x05, 0xE0, 0x9E]);
    c.keys[5] = true;
    run(&mut c, 2);
    assert_eq!(c.program_counter, 0x206);
    // same program, key up: no skip, and the complementary skip is taken
    let mut c = boot(&[0x60, 0x05, 0xE0, 0x9E, 0xE0, 0xA1]);
    run(&mut c, 3);
    assert_eq!(c.program_counter, 0x208);
}

#[test]
fn read_delay_timer() {
    let mut c = boot(&[0x60, 0x09, 0xF0, 0x15, 0xF1, 0x07]);
    run(&mut c, 3);
    assert_eq!(c.register(1), 0x09);
}

#[test]
fn font_address_of_a_glyph() {
    let mut c = boot(&[0x60, 0x07, 0xF0, 0x29]);
    run(&mut c, 2);
    assert_eq!(c.index_register(), 0x50 + 7 * 5);
}

#[test]
fn bcd_digits_of_a_register() {
    let mut c = boot(&[0x60, 0x7B, 0xA3, 0x00, 0xF0, 0x33]);
    run(&mut c, 3);
    assert_eq!(c.memory_at(0x300), 1);
    assert_eq!(c.memory_at(0x301), 2);
    assert_eq!(c.memory_at(0x302), 3);
}

#[test]
fn store_registers_is_inclusive_of_vx() {
    let mut c = boot(&[0x60, 0x11, 0x61, 0x22, 0x62, 0x33, 0xA3, 0x00, 0xF2, 0x55]);
    run(&mut c, 5);
    assert_eq!(c.memory_at(0x300), 0x11);
    assert_eq!(c.memory_at(0x301), 0x22);
    assert_eq!(c.memory_at(0x302), 0x33);
    assert_eq!(c.memory_at(0x303), 0);
}

#[test]
fn load_registers_is_inclusive_of_vx() {
    // the ROM itself is the data: load V0..=V1 from 0x200
    let mut c = boot(&[0xA2, 0x00, 0xF1, 0x65]);
    run(&mut c, 2);
    assert_eq!(c.register(0), 0xA2);
    assert_eq!(c.register(1), 0x00);
    assert_eq!(c.register(2), 0);
}

#[test]
fn draw_reports_collision_only_on_overlap() {
    // draw glyph 0 at (0,0), then glyph 1 at (8,0): no overlap, VF = 0
    let mut c = boot(&[
        0xA0, 0x50, 0x60, 0x00, 0x61, 0x00, 0xD0, 0x15, // glyph 0 at (0,0)
        0xA0, 0x55, 0x62, 0x08, 0xD2, 0x15, // glyph 1 at (8,0)
    ]);
    run(&mut c, 4);
    assert_eq!(c.register(0xF), 0);
    run(&mut c, 3);
    assert_eq!(c.register(0xF), 0);
    assert_eq!(c.frame_pixel(0, 0), 1);
}

#[test]
fn draw_wraps_the_anchor_but_clips_the_sprite() {
    // anchor (66, 33) wraps to (2, 1); pixels land at x = 2..6
    let mut c = boot(&[0xA0, 0x50, 0x60, 0x42, 0x61, 0x21, 0xD0, 0x11]);
    run(&mut c, 4);
    assert_eq!(c.frame_pixel(2, 1), 1);
    assert_eq!(c.frame_pixel(5, 1), 1);
    assert_eq!(c.frame_pixel(6, 1), 0);
    // anchor (62, 0): the sprite's right half falls off the edge, nothing
    // wraps around to column zero
    let mut c = boot(&[0xA0, 0x50, 0x60, 0x3E, 0x61, 0x00, 0xD0, 0x11]);
    run(&mut c, 4);
    assert_eq!(c.frame_pixel(62, 0), 1);
    assert_eq!(c.frame_pixel(63, 0), 1);
    assert_eq!(c.frame_pixel(0, 0), 0);
    assert_eq!(c.frame_pixel(1, 0), 0);
}

#[test]
fn unknown_instruction_is_a_decode_error() {
    let mut c = boot(&[0xFF, 0xFF]);
    assert_eq!(
        c.step(0),
        Err(VmError::UnknownInstruction { word: 0xFFFF, addr: 0x200 })
    );
    assert_eq!(c.program_counter, 0x200);
}

#[test]
fn unknown_zero_family_instruction_is_a_decode_error() {
    let mut c = boot(&[0x00, 0xE1]);
    assert_eq!(
        c.step(0),
        Err(VmError::UnknownInstruction { word: 0x00E1, addr: 0x200 })
    );
}

#[test]
fn return_with_empty_stack_underflows() {
    let mut c = boot(&[0x00, 0xEE]);
    assert_eq!(c.step(0), Err(VmError::StackUnderflow { addr: 0x200 }));
    assert_eq!(c.program_counter, 0x200);
}

#[test]
fn seventeenth_nested_call_overflows() {
    // a call that calls itself: every step pushes one return address
    let mut c = boot(&[0x12, 0x02, 0x22, 0x02]);
    run(&mut c, 1);
    for _ in 0..16 {
        c.step(0).unwrap();
    }
    assert_eq!(c.stack_depth(), 16);
    assert_eq!(c.step(0), Err(VmError::StackOverflow { addr: 0x202 }));
}

#[test]
fn bcd_write_past_memory_is_an_error() {
    let mut c = boot(&[0xAF, 0xFF, 0xF0, 0x33]);
    run(&mut c, 1);
    assert_eq!(c.step(0), Err(VmError::MemoryOutOfBounds { addr: 0xFFF }));
    assert_eq!(c.program_counter, 0x202);
}

#[test]
fn store_registers_past_memory_is_an_error() {
    let mut c = boot(&[0xAF, 0xFF, 0xF1, 0x55]);
    run(&mut c, 1);
    assert_eq!(c.step(0), Err(VmError::MemoryOutOfBounds { addr: 0xFFF }));
}

#[test]
fn fetch_past_memory_is_an_error() {
    let mut c = boot(&[0x1F, 0xFF]);
    run(&mut c, 1);
    assert_eq!(c.program_counter, 0xFFF);
    assert_eq!(c.step(0), Err(VmError::MemoryOutOfBounds { addr: 0xFFF }));
}

#[test]
fn draw_past_memory_is_an_error() {
    // I := 0xFFF, draw two rows: the second row would be read at 0x1000
    let mut c = boot(&[0xAF, 0xFF, 0xD0, 0x12]);
    run(&mut c, 1);
    assert_eq!(c.step(0), Err(VmError::MemoryOutOfBounds { addr: 0xFFF }));
}

#[test]
fn draw_of_zero_rows_does_nothing() {
    // I := 0xFFF, draw zero rows: nothing is read, nothing is drawn
    let mut c = boot(&[0xAF, 0xFF, 0xD0, 0x10]);
    run(&mut c, 2);
    assert_eq!(c.register(0xF), 0);
    for y in 0..32 {
        for x in 0..64 {
            assert_eq!(c.frame_pixel(x, y), 0);
        }
    }
    assert_eq!(c.program_counter, 0x204);
}

#[test]
fn store_registers_at_the_last_byte_succeeds() {
    // V0 := 0x42; I := 0xFFF; store V0..=V0 writes the last byte of memory
    let mut c = boot(&[0x60, 0x42, 0xAF, 0xFF, 0xF0, 0x55]);
    run(&mut c, 3);
    assert_eq!(c.memory_at(0xFFF), 0x42);
}

#[test]
fn load_registers_past_memory_is_an_error() {
    let mut c = boot(&[0xAF, 0xFF, 0xF1, 0x65]);
    run(&mut c, 1);
    assert_eq!(c.step(0), Err(VmError::MemoryOutOfBounds { addr: 0xFFF }));
}

#[test]
fn key_skip_with_key_above_fifteen_is_an_error() {
    let mut c = boot(&[0x60, 0xFF, 0xE0, 0x9E]);
    run(&mut c, 1);
    assert_eq!(
        c.step(0),
        Err(VmError::KeyOutOfRange { addr: 0x202, key: 0xFF })
    );
}
