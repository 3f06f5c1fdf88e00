//! The instruction set: the decoded form of an instruction word, the
//! decoder, and the mathematical meaning of executing one instruction.
//!
//! `spec_exec` is the reference semantics: it maps a machine state whose
//! program counter has already been advanced past the instruction, the
//! decoded instruction, and one random byte, to either the next state or a
//! fatal error. The executable interpreter is proved equal to it.

use vstd::prelude::*;

verus! {

use crate::state::Chip8View;
use crate::state::VmError;
use crate::FONT_BASE;
use crate::HEIGHT;
use crate::MEMORY_SIZE;
use crate::NUM_KEYS;
use crate::NUM_PIXELS;
use crate::NUM_REGISTERS;
use crate::STACK_DEPTH;
use crate::WIDTH;

/// One decoded instruction. Field names follow the classic notation: `x`
/// and `y` select registers, `n` is a nibble, `nn` a byte, `nnn` an
/// address.
#[derive(Clone, Copy, Debug, PartialEq, Eq, Structural)]
pub enum Instr {
    /// 00E0: clear the frame buffer.
    ClearScreen,
    /// 00EE: pop the return address into the program counter.
    Ret,
    /// 1nnn: jump to nnn.
    Jump { nnn: u16 },
    /// 2nnn: push the program counter, jump to nnn.
    Call { nnn: u16 },
    /// 3xnn: skip the next instruction if Vx == nn.
    SkipEqImm { x: u8, nn: u8 },
    /// 4xnn: skip the next instruction if Vx != nn.
    SkipNeImm { x: u8, nn: u8 },
    /// 5xy0: skip the next instruction if Vx == Vy.
    SkipEqReg { x: u8, y: u8 },
    /// 6xnn: Vx := nn.
    LoadImm { x: u8, nn: u8 },
    /// 7xnn: Vx := Vx + nn, wrapping, no flag.
    AddImm { x: u8, nn: u8 },
    /// 8xy0: Vx := Vy.
    MoveReg { x: u8, y: u8 },
    /// 8xy1: Vx := Vx | Vy; VF := 0.
    OrReg { x: u8, y: u8 },
    /// 8xy2: Vx := Vx & Vy; VF := 0.
    AndReg { x: u8, y: u8 },
    /// 8xy3: Vx := Vx ^ Vy; VF := 0.
    XorReg { x: u8, y: u8 },
    /// 8xy4: Vx := Vx + Vy wrapping; VF := carry.
    AddReg { x: u8, y: u8 },
    /// 8xy5: Vx := Vx - Vy wrapping; VF := 1 when there was no borrow.
    SubReg { x: u8, y: u8 },
    /// 8xy6: VF := low bit of Vx; Vx := Vx >> 1.
    ShiftRight { x: u8 },
    /// 8xy7: Vx := Vy - Vx wrapping; VF := 1 when there was no borrow.
    SubFrom { x: u8, y: u8 },
    /// 8xyE: VF := high bit of Vx; Vx := Vx << 1.
    ShiftLeft { x: u8 },
    /// 9xy0: skip the next instruction if Vx != Vy.
    SkipNeReg { x: u8, y: u8 },
    /// Annn: I := nnn.
    LoadIndex { nnn: u16 },
    /// Bnnn: jump to nnn + V0.
    JumpPlusV0 { nnn: u16 },
    /// Cxnn: Vx := nn & a freshly drawn random byte.
    Random { x: u8, nn: u8 },
    /// Dxyn: draw an 8-wide, n-tall sprite from memory at I.
    Draw { x: u8, y: u8, n: u8 },
    /// Ex9E: skip the next instruction if key Vx is down.
    SkipKeyDown { x: u8 },
    /// ExA1: skip the next instruction if key Vx is up.
    SkipKeyUp { x: u8 },
    /// Fx07: Vx := delay timer.
    ReadDelay { x: u8 },
    /// Fx0A: block until a key is pressed and released.
    WaitKey { x: u8 },
    /// Fx15: delay timer := Vx.
    SetDelay { x: u8 },
    /// Fx18: sound timer := Vx.
    SetSound { x: u8 },
    /// Fx1E: I := I + Vx, wrapping at 16 bits.
    AddIndex { x: u8 },
    /// Fx29: I := the address of the font glyph for Vx.
    LoadFont { x: u8 },
    /// Fx33: store the decimal digits of Vx at I, I+1, I+2.
    StoreBcd { x: u8 },
    /// Fx55: store V0..=Vx at I..=I+x.
    StoreRegs { x: u8 },
    /// Fx65: load V0..=Vx from I..=I+x.
    LoadRegs { x: u8 },
}

/// Every register selector, nibble, and address inside the instruction is
/// in range. `decode` only ever produces such instructions.
pub open spec fn instr_wf(instr: Instr) -> bool {
    match instr {
        Instr::ClearScreen => true,
        Instr::Ret => true,
        Instr::Jump { nnn } => nnn < MEMORY_SIZE,
        Instr::Call { nnn } => nnn < MEMORY_SIZE,
        Instr::SkipEqImm { x, nn } => x < NUM_REGISTERS,
        Instr::SkipNeImm { x, nn } => x < NUM_REGISTERS,
        Instr::SkipEqReg { x, y } => x < NUM_REGISTERS && y < NUM_REGISTERS,
        Instr::LoadImm { x, nn } => x < NUM_REGISTERS,
        Instr::AddImm { x, nn } => x < NUM_REGISTERS,
        Instr::MoveReg { x, y } => x < NUM_REGISTERS && y < NUM_REGISTERS,
        Instr::OrReg { x, y } => x < NUM_REGISTERS && y < NUM_REGISTERS,
        Instr::AndReg { x, y } => x < NUM_REGISTERS && y < NUM_REGISTERS,
        Instr::XorReg { x, y } => x < NUM_REGISTERS && y < NUM_REGISTERS,
        Instr::AddReg { x, y } => x < NUM_REGISTERS && y < NUM_REGISTERS,
        Instr::SubReg { x, y } => x < NUM_REGISTERS && y < NUM_REGISTERS,
        Instr::ShiftRight { x } => x < NUM_REGISTERS,
        Instr::SubFrom { x, y } => x < NUM_REGISTERS && y < NUM_REGISTERS,
        Instr::ShiftLeft { x } => x < NUM_REGISTERS,
        Instr::SkipNeReg { x, y } => x < NUM_REGISTERS && y < NUM_REGISTERS,
        Instr::LoadIndex { nnn } => nnn < MEMORY_SIZE,
        Instr::JumpPlusV0 { nnn } => nnn < MEMORY_SIZE,
        Instr::Random { x, nn } => x < NUM_REGISTERS,
        Instr::Draw { x, y, n } => x < NUM_REGISTERS && y < NUM_REGISTERS && n < 16,
        Instr::SkipKeyDown { x } => x < NUM_REGISTERS,
        Instr::SkipKeyUp { x } => x < NUM_REGISTERS,
        Instr::ReadDelay { x } => x < NUM_REGISTERS,
        Instr::WaitKey { x } => x < NUM_REGISTERS,
        Instr::SetDelay { x } => x < NUM_REGISTERS,
        Instr::SetSound { x } => x < NUM_REGISTERS,
        Instr::AddIndex { x } => x < NUM_REGISTERS,
        Instr::LoadFont { x } => x < NUM_REGISTERS,
        Instr::StoreBcd { x } => x < NUM_REGISTERS,
        Instr::StoreRegs { x } => x < NUM_REGISTERS,
        Instr::LoadRegs { x } => x < NUM_REGISTERS,
    }
}

/// The decode table over the raw instruction word: dispatch on the top
/// nibble, then on `nn` or `n` for the 0x0, 0x8, 0xE and 0xF families.
pub open spec fn spec_decode(w: u16) -> Option<Instr> {
    let op = w >> 12;
    let x = ((w >> 8) & 0xF) as u8;
    let y = ((w >> 4) & 0xF) as u8;
    let n = (w & 0xF) as u8;
    let nn = (w & 0xFF) as u8;
    let nnn = w & 0xFFF;
    if op == 0x0 {
        if nn == 0xE0 {
            Some(Instr::ClearScreen)
        } else if nn == 0xEE {
            Some(Instr::Ret)
        } else {
            None
        }
    } else if op == 0x1 {
        Some(Instr::Jump { nnn })
    } else if op == 0x2 {
        Some(Instr::Call { nnn })
    } else if op == 0x3 {
        Some(Instr::SkipEqImm { x, nn })
    } else if op == 0x4 {
        Some(Instr::SkipNeImm { x, nn })
    } else if op == 0x5 {
        Some(Instr::SkipEqReg { x, y })
    } else if op == 0x6 {
        Some(Instr::LoadImm { x, nn })
    } else if op == 0x7 {
        Some(Instr::AddImm { x, nn })
    } else if op == 0x8 {
        if n == 0x0 {
            Some(Instr::MoveReg { x, y })
        } else if n == 0x1 {
            Some(Instr::OrReg { x, y })
        } else if n == 0x2 {
            Some(Instr::AndReg { x, y })
        } else if n == 0x3 {
            Some(Instr::XorReg { x, y })
        } else if n == 0x4 {
            Some(Instr::AddReg { x, y })
        } else if n == 0x5 {
            Some(Instr::SubReg { x, y })
        } else if n == 0x6 {
            Some(Instr::ShiftRight { x })
        } else if n == 0x7 {
            Some(Instr::SubFrom { x, y })
        } else if n == 0xE {
            Some(Instr::ShiftLeft { x })
        } else {
            None
        }
    } else if op == 0x9 {
        Some(Instr::SkipNeReg { x, y })
    } else if op == 0xA {
        Some(Instr::LoadIndex { nnn })
    } else if op == 0xB {
        Some(Instr::JumpPlusV0 { nnn })
    } else if op == 0xC {
        Some(Instr::Random { x, nn })
    } else if op == 0xD {
        Some(Instr::Draw { x, y, n })
    } else if op == 0xE {
        if nn == 0x9E {
            Some(Instr::SkipKeyDown { x })
        } else if nn == 0xA1 {
            Some(Instr::SkipKeyUp { x })
        } else {
            None
        }
    } else if op == 0xF {
        if nn == 0x07 {
            Some(Instr::ReadDelay { x })
        } else if nn == 0x0A {
            Some(Instr::WaitKey { x })
        } else if nn == 0x15 {
            Some(Instr::SetDelay { x })
        } else if nn == 0x18 {
            Some(Instr::SetSound { x })
        } else if nn == 0x1E {
            Some(Instr::AddIndex { x })
        } else if nn == 0x29 {
            Some(Instr::LoadFont { x })
        } else if nn == 0x33 {
            Some(Instr::StoreBcd { x })
        } else if nn == 0x55 {
            Some(Instr::StoreRegs { x })
        } else if nn == 0x65 {
            Some(Instr::LoadRegs { x })
        } else {
            None
        }
    } else {
        None
    }
}

/// Bounds of every field extracted from an instruction word.
proof fn lemma_field_bounds(w: u16)
    by (bit_vector)
    ensures
        w >> 12 < 16,
        (w >> 8) & 0xF < 16,
        (w >> 4) & 0xF < 16,
        w & 0xF < 16,
        w & 0xFF < 256,
        w & 0xFFF < 4096,
{
}

/// Whatever `spec_decode` accepts has all its fields in range.
pub proof fn lemma_decode_wf(w: u16)
    ensures
        spec_decode(w) matches Some(instr) ==> instr_wf(instr),
{
    lemma_field_bounds(w);
}

/// Runs the decode table on a raw instruction word.
pub fn decode(w: u16) -> (r: Option<Instr>)
    ensures
        r == spec_decode(w),
        r matches Some(instr) ==> instr_wf(instr),
{
    proof {
        lemma_field_bounds(w);
    }
    let op = w >> 12;
    let x = ((w >> 8) & 0xF) as u8;
    let y = ((w >> 4) & 0xF) as u8;
    let n = (w & 0xF) as u8;
    let nn = (w & 0xFF) as u8;
    let nnn = w & 0xFFF;
    if op == 0x0 {
        if nn == 0xE0 {
            Some(Instr::ClearScreen)
        } else if nn == 0xEE {
            Some(Instr::Ret)
        } else {
            None
        }
    } else if op == 0x1 {
        Some(Instr::Jump { nnn })
    } else if op == 0x2 {
        Some(Instr::Call { nnn })
    } else if op == 0x3 {
        Some(Instr::SkipEqImm { x, nn })
    } else if op == 0x4 {
        Some(Instr::SkipNeImm { x, nn })
    } else if op == 0x5 {
        Some(Instr::SkipEqReg { x, y })
    } else if op == 0x6 {
        Some(Instr::LoadImm { x, nn })
    } else if op == 0x7 {
        Some(Instr::AddImm { x, nn })
    } else if op == 0x8 {
        if n == 0x0 {
            Some(Instr::MoveReg { x, y })
        } else if n == 0x1 {
            Some(Instr::OrReg { x, y })
        } else if n == 0x2 {
            Some(Instr::AndReg { x, y })
        } else if n == 0x3 {
            Some(Instr::XorReg { x, y })
        } else if n == 0x4 {
            Some(Instr::AddReg { x, y })
        } else if n == 0x5 {
            Some(Instr::SubReg { x, y })
        } else if n == 0x6 {
            Some(Instr::ShiftRight { x })
        } else if n == 0x7 {
            Some(Instr::SubFrom { x, y })
        } else if n == 0xE {
            Some(Instr::ShiftLeft { x })
        } else {
            None
        }
    } else if op == 0x9 {
        Some(Instr::SkipNeReg { x, y })
    } else if op == 0xA {
        Some(Instr::LoadIndex { nnn })
    } else if op == 0xB {
        Some(Instr::JumpPlusV0 { nnn })
    } else if op == 0xC {
        Some(Instr::Random { x, nn })
    } else if op == 0xD {
        Some(Instr::Draw { x, y, n })
    } else if op == 0xE {
        if nn == 0x9E {
            Some(Instr::SkipKeyDown { x })
        } else if nn == 0xA1 {
            Some(Instr::SkipKeyUp { x })
        } else {
            None
        }
    } else if op == 0xF {
        if nn == 0x07 {
            Some(Instr::ReadDelay { x })
        } else if nn == 0x0A {
            Some(Instr::WaitKey { x })
        } else if nn == 0x15 {
            Some(Instr::SetDelay { x })
        } else if nn == 0x18 {
            Some(Instr::SetSound { x })
        } else if nn == 0x1E {
            Some(Instr::AddIndex { x })
        } else if nn == 0x29 {
            Some(Instr::LoadFont { x })
        } else if nn == 0x33 {
            Some(Instr::StoreBcd { x })
        } else if nn == 0x55 {
            Some(Instr::StoreRegs { x })
        } else if nn == 0x65 {
            Some(Instr::LoadRegs { x })
        } else {
            None
        }
    } else {
        None
    }
}

/// The state with the program counter moved past one instruction.
pub open spec fn skip2(m: Chip8View) -> Chip8View {
    Chip8View { pc: (m.pc + 2) as u16, ..m }
}

/// The state with the program counter moved back one instruction, as the
/// blocking key read does to stall.
pub open spec fn back2(m: Chip8View) -> Chip8View {
    Chip8View { pc: pc_minus_2(m.pc), ..m }
}

/// The program counter two bytes back, wrapping at 16 bits.
pub open spec fn pc_minus_2(pc: u16) -> u16 {
    if pc >= 2 {
        (pc - 2) as u16
    } else {
        (pc + 0x10000 - 2) as u16
    }
}

/// The state with the register file replaced.
pub open spec fn with_regs(m: Chip8View, regs: Seq<u8>) -> Chip8View {
    Chip8View { regs: regs, ..m }
}

/// Eight-bit addition that wraps.
pub open spec fn wrap_add(a: u8, b: u8) -> u8 {
    if a + b > 255 {
        (a + b - 256) as u8
    } else {
        (a + b) as u8
    }
}

/// Eight-bit subtraction that wraps.
pub open spec fn wrap_sub(a: u8, b: u8) -> u8 {
    if a - b < 0 {
        (a - b + 256) as u8
    } else {
        (a - b) as u8
    }
}

/// Sixteen-bit addition that wraps.
pub open spec fn wrap_add_u16(a: u16, b: u16) -> u16 {
    if a + b > 0xFFFF {
        (a + b - 0x10000) as u16
    } else {
        (a + b) as u16
    }
}

/// The sprite bit that lands `col` pixels right of the anchor: bit 7 of the
/// row byte is the leftmost pixel.
pub open spec fn sprite_bit(b: u8, col: int) -> u8 {
    (b >> (7 - col) as u8) & 1
}

/// Whether drawing `nrows` sprite rows read from `mem` at `index`, anchored
/// at `(xc, yc)`, flips the frame-buffer cell `idx`. Sprite bits that fall
/// off the right or bottom edge hit nothing: the anchor wraps, the drawing
/// does not.
pub open spec fn draw_hits(
    mem: Seq<u8>,
    index: int,
    xc: int,
    yc: int,
    nrows: int,
    idx: int,
) -> bool {
    let sy = idx / WIDTH as int;
    let sx = idx % WIDTH as int;
    &&& yc <= sy < yc + nrows
    &&& xc <= sx < xc + 8
    &&& sprite_bit(mem[index + (sy - yc)], sx - xc) == 1
}

/// A frame-buffer cell flipped by a sprite bit.
pub open spec fn flip(v: u8) -> u8 {
    if v == 1 {
        0u8
    } else {
        1u8
    }
}

/// The frame buffer after a draw: every hit cell is flipped.
pub open spec fn draw_frame(
    frame: Seq<u8>,
    mem: Seq<u8>,
    index: int,
    xc: int,
    yc: int,
    nrows: int,
) -> Seq<u8> {
    Seq::new(
        NUM_PIXELS as nat,
        |idx: int|
            if draw_hits(mem, index, xc, yc, nrows, idx) {
                flip(frame[idx])
            } else {
                frame[idx]
            },
    )
}

/// Whether a draw collides: some hit cell was already lit.
pub open spec fn draw_collision(
    frame: Seq<u8>,
    mem: Seq<u8>,
    index: int,
    xc: int,
    yc: int,
    nrows: int,
) -> bool {
    exists|idx: int|
        0 <= idx < NUM_PIXELS && draw_hits(mem, index, xc, yc, nrows, idx) && frame[idx] == 1
}

/// The brightness buffer after a draw: every cell whose pixel just turned
/// on snaps to full brightness; nothing else moves.
pub open spec fn draw_display(
    frame: Seq<u8>,
    display: Seq<u8>,
    mem: Seq<u8>,
    index: int,
    xc: int,
    yc: int,
    nrows: int,
) -> Seq<u8> {
    Seq::new(
        NUM_PIXELS as nat,
        |idx: int|
            if draw_hits(mem, index, xc, yc, nrows, idx) && frame[idx] != 1 {
                255u8
            } else {
                display[idx]
            },
    )
}

/// The meaning of the draw instruction on a whole machine state.
pub open spec fn spec_draw(m: Chip8View, x: u8, y: u8, n: u8) -> Result<Chip8View, VmError> {
    if n > 0 && m.index as int + n as int - 1 >= MEMORY_SIZE as int {
        Err(VmError::MemoryOutOfBounds { addr: m.index })
    } else {
        let xc = (m.regs[x as int] % (WIDTH as u8)) as int;
        let yc = (m.regs[y as int] % (HEIGHT as u8)) as int;
        let coll = draw_collision(m.frame, m.memory, m.index as int, xc, yc, n as int);
        Ok(
            Chip8View {
                frame: draw_frame(m.frame, m.memory, m.index as int, xc, yc, n as int),
                display: draw_display(
                    m.frame,
                    m.display,
                    m.memory,
                    m.index as int,
                    xc,
                    yc,
                    n as int,
                ),
                regs: m.regs.update(15, if coll {
                    1u8
                } else {
                    0u8
                }),
                ..m
            },
        )
    }
}

/// Whether sprite position `(row, col)` has already been processed when
/// the drawing loops stand at row `r`, column `c`.
pub open spec fn draw_visited(row: int, col: int, r: int, c: int) -> bool {
    row < r || (row == r && col < c)
}

/// `draw_hits` restricted to the sprite positions already processed when
/// the drawing loops stand at row `r`, column `c`.
pub open spec fn draw_hits_upto(
    mem: Seq<u8>,
    index: int,
    xc: int,
    yc: int,
    r: int,
    c: int,
    idx: int,
) -> bool {
    let sy = idx / WIDTH as int;
    let sx = idx % WIDTH as int;
    &&& yc <= sy
    &&& xc <= sx < xc + 8
    &&& draw_visited(sy - yc, sx - xc, r, c)
    &&& sprite_bit(mem[index + (sy - yc)], sx - xc) == 1
}

/// The frame buffer part-way through a draw.
pub open spec fn draw_frame_upto(
    frame: Seq<u8>,
    mem: Seq<u8>,
    index: int,
    xc: int,
    yc: int,
    r: int,
    c: int,
) -> Seq<u8> {
    Seq::new(
        NUM_PIXELS as nat,
        |idx: int|
            if draw_hits_upto(mem, index, xc, yc, r, c, idx) {
                flip(frame[idx])
            } else {
                frame[idx]
            },
    )
}

/// The brightness buffer part-way through a draw.
pub open spec fn draw_display_upto(
    frame: Seq<u8>,
    display: Seq<u8>,
    mem: Seq<u8>,
    index: int,
    xc: int,
    yc: int,
    r: int,
    c: int,
) -> Seq<u8> {
    Seq::new(
        NUM_PIXELS as nat,
        |idx: int|
            if draw_hits_upto(mem, index, xc, yc, r, c, idx) && frame[idx] != 1 {
                255u8
            } else {
                display[idx]
            },
    )
}

/// Whether a collision has happened part-way through a draw.
pub open spec fn draw_collision_upto(
    frame: Seq<u8>,
    mem: Seq<u8>,
    index: int,
    xc: int,
    yc: int,
    r: int,
    c: int,
) -> bool {
    exists|idx: int|
        0 <= idx < NUM_PIXELS && draw_hits_upto(mem, index, xc, yc, r, c, idx) && frame[idx] == 1
}

/// A full draw is the part-way draw that has passed its last row.
pub proof fn lemma_draw_upto_complete(
    frame: Seq<u8>,
    display: Seq<u8>,
    mem: Seq<u8>,
    index: int,
    xc: int,
    yc: int,
    nrows: int,
)
    ensures
        forall|idx: int|
            draw_hits_upto(mem, index, xc, yc, nrows, 0, idx) == draw_hits(
                mem,
                index,
                xc,
                yc,
                nrows,
                idx,
            ),
        draw_frame_upto(frame, mem, index, xc, yc, nrows, 0) =~= draw_frame(
            frame,
            mem,
            index,
            xc,
            yc,
            nrows,
        ),
        draw_display_upto(frame, display, mem, index, xc, yc, nrows, 0) =~= draw_display(
            frame,
            display,
            mem,
            index,
            xc,
            yc,
            nrows,
        ),
        draw_collision_upto(frame, mem, index, xc, yc, nrows, 0) == draw_collision(
            frame,
            mem,
            index,
            xc,
            yc,
            nrows,
        ),
{
    assert forall|idx: int|
        draw_hits_upto(mem, index, xc, yc, nrows, 0, idx) == draw_hits(
            mem,
            index,
            xc,
            yc,
            nrows,
            idx,
        ) by {
        let sy = idx / WIDTH as int;
    }
}

/// A cell index splits uniquely into a row and a column.
pub proof fn lemma_index_pixel(idx: int)
    by (nonlinear_arith)
    requires
        0 <= idx < NUM_PIXELS,
    ensures
        idx == (idx / (WIDTH as int)) * (WIDTH as int) + idx % (WIDTH as int),
        0 <= idx / (WIDTH as int) < (HEIGHT as int),
        0 <= idx % (WIDTH as int) < (WIDTH as int),
{
}

/// A row and a column name one cell index.
pub proof fn lemma_pixel_index(sy: int, sx: int)
    by (nonlinear_arith)
    requires
        0 <= sy < (HEIGHT as int),
        0 <= sx < (WIDTH as int),
    ensures
        (sy * (WIDTH as int) + sx) / (WIDTH as int) == sy,
        (sy * (WIDTH as int) + sx) % (WIDTH as int) == sx,
        0 <= sy * (WIDTH as int) + sx < (NUM_PIXELS as int),
{
}

/// The smallest pressed key at or above index `i`.
pub open spec fn first_pressed_from(keys: Seq<bool>, i: int) -> Option<u8>
    decreases NUM_KEYS as int - i,
{
    if i < 0 || i >= NUM_KEYS as int {
        None
    } else if keys[i] {
        Some(i as u8)
    } else {
        first_pressed_from(keys, i + 1)
    }
}

/// The smallest pressed key, if any key is down.
pub open spec fn first_pressed(keys: Seq<bool>) -> Option<u8> {
    first_pressed_from(keys, 0)
}

/// Scanning for a pressed key skips over released ones.
proof fn lemma_first_pressed_skip(keys: Seq<bool>, i: int, k: int)
    requires
        0 <= i <= k <= NUM_KEYS as int,
        forall|j: int| i <= j < k ==> !keys[j],
    ensures
        first_pressed_from(keys, i) == first_pressed_from(keys, k),
    decreases k - i,
{
    if i < k {
        lemma_first_pressed_skip(keys, i + 1, k);
    }
}

/// With no key down, the scan finds nothing.
pub proof fn lemma_first_pressed_none(keys: Seq<bool>)
    requires
        forall|j: int| 0 <= j < NUM_KEYS as int ==> !keys[j],
    ensures
        first_pressed(keys) is None,
{
    lemma_first_pressed_skip(keys, 0, NUM_KEYS as int);
}

/// The scan finds the smallest pressed key.
pub proof fn lemma_first_pressed_some(keys: Seq<bool>, k: int)
    requires
        0 <= k < NUM_KEYS as int,
        keys[k],
        forall|j: int| 0 <= j < k ==> !keys[j],
    ensures
        first_pressed(keys) == Some(k as u8),
{
    lemma_first_pressed_skip(keys, 0, k);
}

/// The meaning of the blocking key read. Idle: stall, and latch the first
/// pressed key if there is one. Latched: stall until the key is released,
/// then write it to Vx and go back to idle.
pub open spec fn spec_wait_key(m: Chip8View, x: u8) -> Chip8View {
    match m.waiting {
        None => Chip8View { waiting: first_pressed(m.keys), ..back2(m) },
        Some(k) => if m.keys[k as int] {
            back2(m)
        } else {
            Chip8View { regs: m.regs.update(x as int, k), waiting: None, ..m }
        },
    }
}

/// Memory after V0 up to (but excluding) V`count` are stored at `base`.
pub open spec fn mem_with_regs(mem: Seq<u8>, regs: Seq<u8>, base: int, count: int) -> Seq<u8> {
    Seq::new(
        MEMORY_SIZE as nat,
        |i: int|
            if base <= i < base + count {
                regs[i - base]
            } else {
                mem[i]
            },
    )
}

/// Registers after the first `count` of them are loaded from `base`.
pub open spec fn regs_from_mem(regs: Seq<u8>, mem: Seq<u8>, base: int, count: int) -> Seq<u8> {
    Seq::new(
        NUM_REGISTERS as nat,
        |i: int|
            if 0 <= i < count {
                mem[base + i]
            } else {
                regs[i]
            },
    )
}

/// The semantics of one decoded instruction. `m.pc` has already been moved
/// past the instruction word; error values name the address it was fetched
/// from.
pub open spec fn spec_exec(m: Chip8View, instr: Instr, rnd: u8) -> Result<Chip8View, VmError> {
    let addr = pc_minus_2(m.pc);
    match instr {
        Instr::ClearScreen => Ok(
            Chip8View { frame: Seq::new(NUM_PIXELS as nat, |i: int| 0u8), ..m },
        ),
        Instr::Ret => if m.sp == 0 {
            Err(VmError::StackUnderflow { addr })
        } else {
            Ok(Chip8View { pc: m.stack[m.sp as int - 1], sp: (m.sp - 1) as u8, ..m })
        },
        Instr::Jump { nnn } => Ok(Chip8View { pc: nnn, ..m }),
        Instr::Call { nnn } => if m.sp as int >= STACK_DEPTH as int {
            Err(VmError::StackOverflow { addr })
        } else {
            Ok(
                Chip8View {
                    stack: m.stack.update(m.sp as int, m.pc),
                    sp: (m.sp + 1) as u8,
                    pc: nnn,
                    ..m
                },
            )
        },
        Instr::SkipEqImm { x, nn } => Ok(
            if m.regs[x as int] == nn {
                skip2(m)
            } else {
                m
            },
        ),
        Instr::SkipNeImm { x, nn } => Ok(
            if m.regs[x as int] != nn {
                skip2(m)
            } else {
                m
            },
        ),
        Instr::SkipEqReg { x, y } => Ok(
            if m.regs[x as int] == m.regs[y as int] {
                skip2(m)
            } else {
                m
            },
        ),
        Instr::SkipNeReg { x, y } => Ok(
            if m.regs[x as int] != m.regs[y as int] {
                skip2(m)
            } else {
                m
            },
        ),
        Instr::LoadImm { x, nn } => Ok(with_regs(m, m.regs.update(x as int, nn))),
        Instr::AddImm { x, nn } => Ok(
            with_regs(m, m.regs.update(x as int, wrap_add(m.regs[x as int], nn))),
        ),
        Instr::MoveReg { x, y } => Ok(with_regs(m, m.regs.update(x as int, m.regs[y as int]))),
        Instr::OrReg { x, y } => Ok(
            with_regs(
                m,
                m.regs.update(x as int, m.regs[x as int] | m.regs[y as int]).update(15, 0u8),
            ),
        ),
        Instr::AndReg { x, y } => Ok(
            with_regs(
                m,
                m.regs.update(x as int, m.regs[x as int] & m.regs[y as int]).update(15, 0u8),
            ),
        ),
        Instr::XorReg { x, y } => Ok(
            with_regs(
                m,
                m.regs.update(x as int, m.regs[x as int] ^ m.regs[y as int]).update(15, 0u8),
            ),
        ),
        Instr::AddReg { x, y } => {
            let vx = m.regs[x as int];
            let vy = m.regs[y as int];
            let carry: u8 = if vx + vy > 255 {
                1u8
            } else {
                0u8
            };
            Ok(with_regs(m, m.regs.update(x as int, wrap_add(vx, vy)).update(15, carry)))
        },
        Instr::SubReg { x, y } => {
            let vx = m.regs[x as int];
            let vy = m.regs[y as int];
            let no_borrow: u8 = if vx >= vy {
                1u8
            } else {
                0u8
            };
            Ok(with_regs(m, m.regs.update(x as int, wrap_sub(vx, vy)).update(15, no_borrow)))
        },
        Instr::ShiftRight { x } => {
            let vx = m.regs[x as int];
            Ok(with_regs(m, m.regs.update(x as int, vx >> 1u8).update(15, vx & 1)))
        },
        Instr::SubFrom { x, y } => {
            let vx = m.regs[x as int];
            let vy = m.regs[y as int];
            let no_borrow: u8 = if vx <= vy {
                1u8
            } else {
                0u8
            };
            Ok(with_regs(m, m.regs.update(x as int, wrap_sub(vy, vx)).update(15, no_borrow)))
        },
        Instr::ShiftLeft { x } => {
            let vx = m.regs[x as int];
            let high: u8 = if vx & 0x80 == 0x80 {
                1u8
            } else {
                0u8
            };
            Ok(with_regs(m, m.regs.update(x as int, vx << 1u8).update(15, high)))
        },
        Instr::LoadIndex { nnn } => Ok(Chip8View { index: nnn, ..m }),
        Instr::JumpPlusV0 { nnn } => Ok(Chip8View { pc: (nnn + m.regs[0]) as u16, ..m }),
        Instr::Random { x, nn } => Ok(with_regs(m, m.regs.update(x as int, nn & rnd))),
        Instr::Draw { x, y, n } => spec_draw(m, x, y, n),
        Instr::SkipKeyDown { x } => {
            let vx = m.regs[x as int];
            if vx as int >= NUM_KEYS as int {
                Err(VmError::KeyOutOfRange { addr, key: vx })
            } else {
                Ok(
                    if m.keys[vx as int] {
                        skip2(m)
                    } else {
                        m
                    },
                )
            }
        },
        Instr::SkipKeyUp { x } => {
            let vx = m.regs[x as int];
            if vx as int >= NUM_KEYS as int {
                Err(VmError::KeyOutOfRange { addr, key: vx })
            } else {
                Ok(
                    if !m.keys[vx as int] {
                        skip2(m)
                    } else {
                        m
                    },
                )
            }
        },
        Instr::ReadDelay { x } => Ok(with_regs(m, m.regs.update(x as int, m.delay))),
        Instr::WaitKey { x } => Ok(spec_wait_key(m, x)),
        Instr::SetDelay { x } => Ok(Chip8View { delay: m.regs[x as int], ..m }),
        Instr::SetSound { x } => Ok(Chip8View { sound: m.regs[x as int], ..m }),
        Instr::AddIndex { x } => Ok(
            Chip8View { index: wrap_add_u16(m.index, m.regs[x as int] as u16), ..m },
        ),
        Instr::LoadFont { x } => Ok(
            Chip8View { index: (FONT_BASE as int + m.regs[x as int] as int * 5) as u16, ..m },
        ),
        Instr::StoreBcd { x } => if m.index as int + 2 >= MEMORY_SIZE as int {
            Err(VmError::MemoryOutOfBounds { addr: m.index })
        } else {
            let vx = m.regs[x as int] as int;
            Ok(
                Chip8View {
                    memory: m.memory.update(m.index as int, (vx / 100 % 10) as u8).update(
                        m.index as int + 1,
                        (vx / 10 % 10) as u8,
                    ).update(m.index as int + 2, (vx % 10) as u8),
                    ..m
                },
            )
        },
        Instr::StoreRegs { x } => if m.index as int + x as int >= MEMORY_SIZE as int {
            Err(VmError::MemoryOutOfBounds { addr: m.index })
        } else {
            Ok(
                Chip8View {
                    memory: mem_with_regs(m.memory, m.regs, m.index as int, x as int + 1),
                    ..m
                },
            )
        },
        Instr::LoadRegs { x } => if m.index as int + x as int >= MEMORY_SIZE as int {
            Err(VmError::MemoryOutOfBounds { addr: m.index })
        } else {
            Ok(with_regs(m, regs_from_mem(m.regs, m.memory, m.index as int, x as int + 1)))
        },
    }
}

/// The big-endian instruction word under the program counter.
pub open spec fn fetch_word(m: Chip8View) -> u16 {
    ((m.memory[m.pc as int] as u16) << 8u16) | (m.memory[m.pc as int + 1] as u16)
}

/// The meaning of one whole step: fetch the big-endian word at the program
/// counter, advance past it, then execute what it decodes to.
pub open spec fn spec_step(m: Chip8View, rnd: u8) -> Result<Chip8View, VmError> {
    if m.pc as int >= MEMORY_SIZE as int - 1 {
        Err(VmError::MemoryOutOfBounds { addr: m.pc })
    } else {
        let w = fetch_word(m);
        match spec_decode(w) {
            None => Err(VmError::UnknownInstruction { word: w, addr: m.pc }),
            Some(instr) => spec_exec(skip2(m), instr, rnd),
        }
    }
}

} // verus!
