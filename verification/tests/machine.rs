//! Construction, ROM loading, timers, and the decay pass.

use chip8_core::{Chip8, VmError, FONTS};

/// A machine with the given program loaded at 0x200.
fn boot(rom: &[u8]) -> Chip8 {
    let mut c = Chip8::new();
    c.load_rom(&rom.to_vec()).unwrap();
    c
}

#[test]
fn new_loads_font_table() {
    let c = Chip8::new();
    for i in 0..80 {
        assert_eq!(c.memory_at(0x50 + i), FONTS[i]);
    }
}

#[test]
fn new_clears_everything_else() {
    let c = Chip8::new();
    assert_eq!(c.program_counter, 0x200);
    assert_eq!(c.index_register(), 0);
    assert_eq!(c.stack_depth(), 0);
    assert_eq!(c.delay_timer(), 0);
    assert_eq!(c.sound_timer, 0);
    for i in 0..16 {
        assert_eq!(c.register(i), 0);
        assert!(!c.keys[i]);
    }
    for addr in 0..0x50 {
        assert_eq!(c.memory_at(addr), 0);
    }
    for addr in 0xA0..4096 {
        assert_eq!(c.memory_at(addr), 0);
    }
    for y in 0..32 {
        for x in 0..64 {
            assert_eq!(c.frame_pixel(x, y), 0);
            assert_eq!(c.display_buffer[y * 64 + x], 0);
        }
    }
    assert_eq!(c.waiting_key(), None);
}

#[test]
fn load_rom_places_bytes_verbatim() {
    let rom: Vec<u8> = (0..=255u8).collect();
    let mut c = Chip8::new();
    c.load_rom(&rom).unwrap();
    for (i, &b) in rom.iter().enumerate() {
        assert_eq!(c.memory_at(0x200 + i), b);
    }
    // everything around the ROM is untouched
    assert_eq!(c.memory_at(0x1FF), 0);
    assert_eq!(c.memory_at(0x200 + rom.len()), 0);
    assert_eq!(c.memory_at(0x50), FONTS[0]);
}

#[test]
fn load_rom_accepts_largest_rom() {
    let rom = vec![0xABu8; 3584];
    let mut c = Chip8::new();
    c.load_rom(&rom).unwrap();
    assert_eq!(c.memory_at(0x200), 0xAB);
    assert_eq!(c.memory_at(4095), 0xAB);
}

#[test]
fn load_rom_rejects_oversized_rom_without_mutating() {
    let rom = vec![0xCDu8; 3585];
    let mut c = Chip8::new();
    assert_eq!(c.load_rom(&rom), Err(VmError::RomTooLarge));
    assert_eq!(c.program_counter, 0x200);
    for addr in 0x200..4096 {
        assert_eq!(c.memory_at(addr), 0);
    }
    assert_eq!(c.memory_at(0x50), FONTS[0]);
}

#[test]
fn timers_decrement_and_floor_at_zero() {
    // V0 := 1; delay := V0; sound := V0
    let mut c = boot(&[0x60, 0x01, 0xF0, 0x15, 0xF0, 0x18]);
    c.step(0).unwrap();
    c.step(0).unwrap();
    c.step(0).unwrap();
    assert_eq!(c.delay_timer(), 1);
    assert_eq!(c.sound_timer, 1);
    c.update_timers();
    assert_eq!(c.delay_timer(), 0);
    assert_eq!(c.sound_timer, 0);
    c.update_timers();
    assert_eq!(c.delay_timer(), 0);
    assert_eq!(c.sound_timer, 0);
}

#[test]
fn timers_decrement_independently() {
    // delay := 3, sound := 1
    let mut c = boot(&[0x60, 0x03, 0xF0, 0x15, 0x60, 0x01, 0xF0, 0x18]);
    for _ in 0..4 {
        c.step(0).unwrap();
    }
    c.update_timers();
    assert_eq!(c.delay_timer(), 2);
    assert_eq!(c.sound_timer, 0);
}

#[test]
fn decay_snaps_lit_pixels_and_fades_dark_ones() {
    // I := 0x50 (font glyph 0), draw 1 row at (0, 0)
    let mut c = boot(&[0xA0, 0x50, 0xD0, 0x11]);
    c.step(0).unwrap();
    c.step(0).unwrap();
    // 0xF0: the four leftmost pixels lit, snapped to 255 at draw time
    assert_eq!(c.frame_pixel(0, 0), 1);
    assert_eq!(c.display_buffer[0], 255);
    c.decay_pixels();
    // still lit: stays at full brightness
    assert_eq!(c.display_buffer[0], 255);
    // never lit: stays at zero
    assert_eq!(c.display_buffer[4], 0);
}

#[test]
fn decay_fades_by_thirty_down_to_zero() {
    // draw one row, then clear the screen, then let the cell fade
    let mut c = boot(&[0xA0, 0x50, 0xD0, 0x11, 0x00, 0xE0]);
    c.step(0).unwrap();
    c.step(0).unwrap();
    c.step(0).unwrap();
    assert_eq!(c.frame_pixel(0, 0), 0);
    assert_eq!(c.display_buffer[0], 255);
    c.decay_pixels();
    assert_eq!(c.display_buffer[0], 225);
    for _ in 0..7 {
        c.decay_pixels();
    }
    assert_eq!(c.display_buffer[0], 15);
    c.decay_pixels();
    assert_eq!(c.display_buffer[0], 0);
    c.decay_pixels();
    assert_eq!(c.display_buffer[0], 0);
}

#[test]
fn reset_keys_releases_every_key() {
    let mut c = Chip8::new();
    c.keys[3] = true;
    c.keys[15] = true;
    c.reset_keys();
    for i in 0..16 {
        assert!(!c.keys[i]);
    }
}

#[test]
fn tick_runs_one_instruction() {
    let mut c = boot(&[0x60, 0x2A]);
    c.tick().unwrap();
    assert_eq!(c.register(0), 0x2A);
    assert_eq!(c.program_counter, 0x202);
}

#[test]
fn tick_masks_its_random_byte() {
    // V0 := 0x00 & random, so whatever byte was drawn, V0 is zero
    let mut c = boot(&[0xC0, 0x00]);
    c.tick().unwrap();
    assert_eq!(c.register(0), 0);
    assert_eq!(c.program_counter, 0x202);
}
