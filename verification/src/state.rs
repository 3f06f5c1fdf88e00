//! The machine's state as the contracts see it: a ghost record of every
//! component, the initial state, and the error taxonomy.

use vstd::prelude::*;

verus! {

use crate::FONT_BASE;
use crate::MEMORY_SIZE;
use crate::NUM_KEYS;
use crate::NUM_PIXELS;
use crate::NUM_REGISTERS;
use crate::ROM_BASE;
use crate::STACK_DEPTH;

/// The built-in font: 16 glyphs of 5 bytes each, written to
/// `FONT_BASE..FONT_BASE + 80` at construction.
pub const FONTS: [u8; 80] = [
    0xF0, 0x90, 0x90, 0x90, 0xF0, // 0
    0x20, 0x60, 0x20, 0x20, 0x70, // 1
    0xF0, 0x10, 0xF0, 0x80, 0xF0, // 2
    0xF0, 0x10, 0xF0, 0x10, 0xF0, // 3
    0x90, 0x90, 0xF0, 0x10, 0x10, // 4
    0xF0, 0x80, 0xF0, 0x10, 0xF0, // 5
    0xF0, 0x80, 0xF0, 0x90, 0xF0, // 6
    0xF0, 0x10, 0x20, 0x40, 0x40, // 7
    0xF0, 0x90, 0xF0, 0x90, 0xF0, // 8
    0xF0, 0x90, 0xF0, 0x10, 0xF0, // 9
    0xF0, 0x90, 0xF0, 0x90, 0x90, // A
    0xE0, 0x90, 0xE0, 0x90, 0xE0, // B
    0xF0, 0x80, 0x80, 0x80, 0xF0, // C
    0xE0, 0x90, 0x90, 0x90, 0xE0, // D
    0xF0, 0x80, 0xF0, 0x80, 0xF0, // E
    0xF0, 0x80, 0xF0, 0x80, 0x80, // F
];

/// A fatal condition: the machine is a deterministic interpreter over
/// in-memory state, so every error here means the run cannot continue.
/// `addr` names the address involved: for `UnknownInstruction`, the address
/// the instruction was fetched from; for the stack errors, likewise; for
/// `MemoryOutOfBounds`, the base address of the failed access.
#[derive(Clone, Copy, Debug, PartialEq, Eq, Structural)]
pub enum VmError {
    /// The ROM does not fit between `ROM_BASE` and the end of memory.
    RomTooLarge,
    /// The instruction word matches no defined bit pattern.
    UnknownInstruction { word: u16, addr: u16 },
    /// A call was made with the stack already full.
    StackOverflow { addr: u16 },
    /// A return was made with the stack empty.
    StackUnderflow { addr: u16 },
    /// An instruction fetch or a memory-indexed access runs past memory.
    MemoryOutOfBounds { addr: u16 },
    /// A key-skip instruction named a key above 0xF.
    KeyOutOfRange { addr: u16, key: u8 },
}

/// Everything the machine owns, as mathematical values. The executable
/// `Chip8` views into this record, and every contract speaks over it.
#[verifier::ext_equal]
pub ghost struct Chip8View {
    /// All 4096 bytes of memory.
    pub memory: Seq<u8>,
    /// The authoritative monochrome frame buffer; each cell is 0 or 1.
    pub frame: Seq<u8>,
    /// The derived brightness buffer used only for presentation.
    pub display: Seq<u8>,
    /// The program counter.
    pub pc: u16,
    /// The index register I.
    pub index: u16,
    /// The call stack slots.
    pub stack: Seq<u16>,
    /// The stack pointer: the number of return addresses held.
    pub sp: u8,
    /// The registers V0 through VF.
    pub regs: Seq<u8>,
    /// The delay timer.
    pub delay: u8,
    /// The sound timer.
    pub sound: u8,
    /// The keypad: true means the key is currently down.
    pub keys: Seq<bool>,
    /// The key latched by a blocking key read still waiting for release.
    pub waiting: Option<u8>,
}

impl Chip8View {
    /// Structural soundness of a state: every component has its fixed size,
    /// the frame buffer is a bitmap, and latched values are in range.
    pub open spec fn wf(self) -> bool {
        &&& self.memory.len() == MEMORY_SIZE
        &&& self.frame.len() == NUM_PIXELS
        &&& self.display.len() == NUM_PIXELS
        &&& self.stack.len() == STACK_DEPTH
        &&& self.regs.len() == NUM_REGISTERS
        &&& self.keys.len() == NUM_KEYS
        &&& self.sp <= STACK_DEPTH
        &&& forall|i: int| 0 <= i < NUM_PIXELS ==> self.frame[i] == 0 || self.frame[i] == 1
        &&& (self.waiting matches Some(k) ==> k < NUM_KEYS)
    }
}

/// Memory as it stands right after construction: zero everywhere except the
/// font table.
pub open spec fn initial_memory() -> Seq<u8> {
    Seq::new(
        MEMORY_SIZE as nat,
        |i: int|
            if FONT_BASE <= i < FONT_BASE + 80 {
                FONTS@[i - FONT_BASE]
            } else {
                0u8
            },
    )
}

/// The whole machine as it stands right after construction.
pub open spec fn initial_state() -> Chip8View {
    Chip8View {
        memory: initial_memory(),
        frame: Seq::new(NUM_PIXELS as nat, |i: int| 0u8),
        display: Seq::new(NUM_PIXELS as nat, |i: int| 0u8),
        pc: ROM_BASE as u16,
        index: 0,
        stack: Seq::new(STACK_DEPTH as nat, |i: int| 0u16),
        sp: 0,
        regs: Seq::new(NUM_REGISTERS as nat, |i: int| 0u8),
        delay: 0,
        sound: 0,
        keys: Seq::new(NUM_KEYS as nat, |i: int| false),
        waiting: None,
    }
}

/// Memory after a ROM of the given bytes is laid down at `ROM_BASE`.
pub open spec fn mem_with_rom(mem: Seq<u8>, rom: Seq<u8>) -> Seq<u8> {
    Seq::new(
        MEMORY_SIZE as nat,
        |i: int|
            if ROM_BASE <= i < ROM_BASE + rom.len() {
                rom[i - ROM_BASE]
            } else {
                mem[i]
            },
    )
}

/// One 60 Hz decrement of a timer: down by one, floored at zero.
pub open spec fn ticked(t: u8) -> u8 {
    if t > 0 {
        (t - 1) as u8
    } else {
        0
    }
}

/// The brightness buffer after one decay pass over the given frame buffer:
/// lit pixels snap to full brightness, dark ones fade by `DECAY_STEP`.
pub open spec fn decayed(frame: Seq<u8>, display: Seq<u8>) -> Seq<u8> {
    Seq::new(
        NUM_PIXELS as nat,
        |i: int|
            if frame[i] == 1 {
                255u8
            } else if display[i] >= crate::DECAY_STEP {
                (display[i] - crate::DECAY_STEP) as u8
            } else {
                0u8
            },
    )
}

} // verus!
