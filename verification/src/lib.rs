use vstd::prelude::*;

pub mod chip8;
pub mod laws;
pub mod render;
pub mod semantics;
pub mod state;

pub use chip8::Chip8;
pub use state::VmError;
pub use state::FONTS;

verus! {

/// Width of the monochrome display, in pixels.
pub const WIDTH: usize = 64;

/// Height of the monochrome display, in pixels.
pub const HEIGHT: usize = 32;

/// Number of cells in the display buffers.
pub const NUM_PIXELS: usize = WIDTH * HEIGHT;

/// Number of addressable bytes of machine memory.
pub const MEMORY_SIZE: usize = 4096;

/// First address of the ROM area; everything below is reserved.
pub const ROM_BASE: usize = 0x200;

/// Largest ROM that fits between `ROM_BASE` and the end of memory.
pub const MAX_ROM_LEN: usize = MEMORY_SIZE - ROM_BASE;

/// First address of the built-in font sprites.
pub const FONT_BASE: usize = 0x50;

/// Number of general-purpose registers (V0 through VF).
pub const NUM_REGISTERS: usize = 16;

/// Capacity of the call stack, in return addresses.
pub const STACK_DEPTH: usize = 16;

/// Number of keys on the hexadecimal keypad.
pub const NUM_KEYS: usize = 16;

/// Brightness lost per frame by a display cell whose pixel is off.
pub const DECAY_STEP: u8 = 30;

} // verus!
