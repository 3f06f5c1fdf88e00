//! The presentation helpers: color blending and buffer filling.

use chip8_core::render::{blend_buffer, blend_colors, update_minifb_buffer};
use chip8_core::Chip8;

#[test]
fn blend_at_zero_is_the_background() {
    assert_eq!(blend_colors(0x333333, 0xE5CC80, 0), 0x333333);
}

#[test]
fn blend_at_full_is_the_foreground() {
    assert_eq!(blend_colors(0x333333, 0xE5CC80, 255), 0xE5CC80);
}

#[test]
fn blend_midway_is_exact() {
    // per channel: bg + (fg - bg) * 128 / 255, truncating
    // red:   0x33 + (0xE5 - 0x33) * 128 / 255 = 51 + 89  = 140 = 0x8C
    // green: 0x33 + (0xCC - 0x33) * 128 / 255 = 51 + 76  = 127 = 0x7F
    // blue:  0x33 + (0x80 - 0x33) * 128 / 255 = 51 + 38  = 89  = 0x59
    assert_eq!(blend_colors(0x333333, 0xE5CC80, 128), 0x8C7F59);
}

#[test]
fn blend_descends_when_foreground_is_darker() {
    // red: 0xE5 - (0xE5 - 0x33) * 128 / 255 = 229 - 89 = 140 = 0x8C
    assert_eq!(blend_colors(0xE50000, 0x330000, 128), 0x8C0000);
}

#[test]
fn update_minifb_buffer_maps_bits_to_colors() {
    let mut c = Chip8::new();
    // draw one font row so a few frame-buffer bits are set
    c.load_rom(&vec![0xA0, 0x50, 0xD0, 0x11]).unwrap();
    c.step(0).unwrap();
    c.step(0).unwrap();
    let mut frame = [0u8; 64 * 32];
    for y in 0..32 {
        for x in 0..64 {
            frame[y * 64 + x] = c.frame_pixel(x, y);
        }
    }
    let mut out = vec![0u32; 64 * 32];
    update_minifb_buffer(&frame, &mut out);
    assert_eq!(out[0], 0xE5CC80);
    assert_eq!(out[4], 0x333333);
}

#[test]
fn blend_buffer_blends_every_cell() {
    let mut brightness = [0u8; 64 * 32];
    brightness[0] = 255;
    brightness[1] = 128;
    let mut out = vec![0u32; 64 * 32];
    blend_buffer(&brightness, 0x333333, 0xE5CC80, &mut out);
    assert_eq!(out[0], 0xE5CC80);
    assert_eq!(out[1], 0x8C7F59);
    assert_eq!(out[2], 0x333333);
}
