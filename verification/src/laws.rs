//! Laws that relate several instructions to one another, proved once and
//! for all over the reference semantics.

use vstd::prelude::*;

verus! {

use crate::semantics::draw_collision;
use crate::semantics::draw_frame;
use crate::semantics::draw_hits;
use crate::semantics::fetch_word;
use crate::semantics::first_pressed;
use crate::semantics::flip;
use crate::semantics::lemma_decode_wf;
use crate::semantics::lemma_first_pressed_none;
use crate::semantics::skip2;
use crate::semantics::spec_decode;
use crate::semantics::spec_draw;
use crate::semantics::spec_exec;
use crate::semantics::spec_step;
use crate::semantics::wrap_add;
use crate::semantics::Instr;
use crate::state::Chip8View;
use crate::state::VmError;
use crate::HEIGHT;
use crate::MEMORY_SIZE;
use crate::NUM_KEYS;
use crate::NUM_PIXELS;
use crate::NUM_REGISTERS;
use crate::STACK_DEPTH;
use crate::WIDTH;

/// Loading nn1 into Vx and then adding nn2 to it is one load of
/// (nn1 + nn2) mod 256: the two instructions reach exactly the state that
/// the single load reaches.
pub proof fn lemma_load_then_add(m: Chip8View, x: u8, nn1: u8, nn2: u8, r1: u8, r2: u8, r3: u8)
    requires
        m.wf(),
        x < NUM_REGISTERS as u8,
    ensures
        ({
            let after_load = spec_exec(m, Instr::LoadImm { x, nn: nn1 }, r1);
            let after_both = spec_exec(after_load->Ok_0, Instr::AddImm { x, nn: nn2 }, r2);
            let after_single = spec_exec(
                m,
                Instr::LoadImm { x, nn: ((nn1 + nn2) % 256) as u8 },
                r3,
            );
            &&& after_load is Ok
            &&& after_both is Ok
            &&& after_single is Ok
            &&& after_both->Ok_0 == after_single->Ok_0
            &&& after_both->Ok_0.regs[x as int] == ((nn1 + nn2) % 256) as u8
        }),
{
    let m1 = spec_exec(m, Instr::LoadImm { x, nn: nn1 }, r1)->Ok_0;
    let m2 = spec_exec(m1, Instr::AddImm { x, nn: nn2 }, r2)->Ok_0;
    let ms = spec_exec(m, Instr::LoadImm { x, nn: ((nn1 + nn2) % 256) as u8 }, r3)->Ok_0;
    assert(m1.regs[x as int] == nn1);
    assert(wrap_add(nn1, nn2) == ((nn1 + nn2) % 256) as u8);
    assert(m2.regs =~= ms.regs);
    assert(m2 =~= ms);
}

/// Drawing a sprite twice over the same anchor restores every frame-buffer
/// cell, because flipping a bit twice is the identity; and the second draw
/// collides exactly when the first draw turned some cell on.
pub proof fn lemma_draw_twice_frame(
    frame: Seq<u8>,
    mem: Seq<u8>,
    index: int,
    xc: int,
    yc: int,
    n: int,
)
    requires
        frame.len() == NUM_PIXELS,
        forall|i: int| 0 <= i < NUM_PIXELS ==> frame[i] == 0 || frame[i] == 1,
    ensures
        draw_frame(draw_frame(frame, mem, index, xc, yc, n), mem, index, xc, yc, n) =~= frame,
        draw_collision(draw_frame(frame, mem, index, xc, yc, n), mem, index, xc, yc, n) == (exists|
            idx: int,
        |
            0 <= idx < NUM_PIXELS && draw_hits(mem, index, xc, yc, n, idx) && frame[idx] == 0),
{
    let f1 = draw_frame(frame, mem, index, xc, yc, n);
    let f2 = draw_frame(f1, mem, index, xc, yc, n);
    assert forall|idx: int| 0 <= idx < NUM_PIXELS implies f2[idx] == frame[idx] by {
        if draw_hits(mem, index, xc, yc, n, idx) {
            assert(f1[idx] == flip(frame[idx]));
            assert(flip(flip(frame[idx])) == frame[idx]);
        }
    }
    if draw_collision(f1, mem, index, xc, yc, n) {
        let idx = choose|idx: int|
            0 <= idx < NUM_PIXELS && draw_hits(mem, index, xc, yc, n, idx) && f1[idx] == 1;
        assert(f1[idx] == flip(frame[idx]));
        assert(frame[idx] == 0);
    }
    if exists|idx: int|
        0 <= idx < NUM_PIXELS && draw_hits(mem, index, xc, yc, n, idx) && frame[idx] == 0 {
        let idx = choose|idx: int|
            0 <= idx < NUM_PIXELS && draw_hits(mem, index, xc, yc, n, idx) && frame[idx] == 0;
        assert(f1[idx] == flip(frame[idx]));
        assert(f1[idx] == 1);
        assert(draw_collision(f1, mem, index, xc, yc, n));
    }
}

/// The same, stated over whole machine states: executing the same draw
/// instruction twice (with Vx, Vy away from the flag register, so the
/// anchor does not move) restores the frame buffer, and VF after the
/// second draw is 1 exactly when the first draw turned some cell on.
pub proof fn lemma_draw_twice(m: Chip8View, x: u8, y: u8, n: u8)
    requires
        m.wf(),
        x < 15,
        y < 15,
        n < 16,
        spec_draw(m, x, y, n) is Ok,
    ensures
        ({
            let m1 = spec_draw(m, x, y, n)->Ok_0;
            let m2 = spec_draw(m1, x, y, n)->Ok_0;
            let xc = (m.regs[x as int] % (WIDTH as u8)) as int;
            let yc = (m.regs[y as int] % (HEIGHT as u8)) as int;
            &&& spec_draw(m1, x, y, n) is Ok
            &&& m2.frame == m.frame
            &&& (m2.regs[15] == 1 <==> exists|idx: int|
                0 <= idx < NUM_PIXELS && draw_hits(m.memory, m.index as int, xc, yc, n as int, idx)
                    && m.frame[idx] == 0)
        }),
{
    let m1 = spec_draw(m, x, y, n)->Ok_0;
    let m2 = spec_draw(m1, x, y, n)->Ok_0;
    let xc = (m.regs[x as int] % (WIDTH as u8)) as int;
    let yc = (m.regs[y as int] % (HEIGHT as u8)) as int;
    assert(m1.regs[x as int] == m.regs[x as int]);
    assert(m1.regs[y as int] == m.regs[y as int]);
    lemma_draw_twice_frame(m.frame, m.memory, m.index as int, xc, yc, n as int);
    assert(m2.frame =~= m.frame);
}

/// A return immediately after a call restores the program counter to the
/// instruction following the call, and pops what the call pushed.
pub proof fn lemma_call_then_ret(m: Chip8View, nnn: u16, r1: u8, r2: u8)
    requires
        m.wf(),
        (m.sp as int) < STACK_DEPTH as int,
        nnn < MEMORY_SIZE as u16,
    ensures
        ({
            let after_call = spec_exec(m, Instr::Call { nnn }, r1);
            let after_ret = spec_exec(skip2(after_call->Ok_0), Instr::Ret, r2);
            &&& after_call is Ok
            &&& after_call->Ok_0.pc == nnn
            &&& after_ret is Ok
            &&& after_ret->Ok_0.pc == m.pc
            &&& after_ret->Ok_0.sp == m.sp
            &&& after_ret->Ok_0.regs == m.regs
            &&& after_ret->Ok_0.memory == m.memory
        }),
{
    let m1 = spec_exec(m, Instr::Call { nnn }, r1)->Ok_0;
    assert(m1.stack[m.sp as int] == m.pc);
}

/// Storing V0..=Vx at I and then loading V0..=Vx back from the same I
/// leaves every register exactly as it was.
pub proof fn lemma_store_then_load(m: Chip8View, x: u8, r1: u8, r2: u8)
    requires
        m.wf(),
        x < NUM_REGISTERS as u8,
        (m.index as int) + (x as int) < (MEMORY_SIZE as int),
    ensures
        ({
            let after_store = spec_exec(m, Instr::StoreRegs { x }, r1);
            let after_load = spec_exec(after_store->Ok_0, Instr::LoadRegs { x }, r2);
            &&& after_store is Ok
            &&& after_load is Ok
            &&& after_load->Ok_0.regs == m.regs
        }),
{
    let m1 = spec_exec(m, Instr::StoreRegs { x }, r1)->Ok_0;
    let m2 = spec_exec(m1, Instr::LoadRegs { x }, r2)->Ok_0;
    assert forall|i: int| 0 <= i < NUM_REGISTERS implies m2.regs[i] == m.regs[i] by {
        if i < x as int + 1 {
            assert(m1.memory[m.index as int + i] == m.regs[i]);
        }
    }
    assert(m2.regs =~= m.regs);
}

/// A machine sitting on a blocking key read, with nothing latched and no
/// key down, does not move: one whole step returns the state unchanged, so
/// the program counter never advances however often it is stepped.
pub proof fn lemma_step_stalls_without_key(m: Chip8View, x: u8, rnd: u8)
    requires
        m.wf(),
        m.pc as int + 1 < MEMORY_SIZE as int,
        spec_decode(fetch_word(m)) == Some(Instr::WaitKey { x }),
        m.waiting is None,
        forall|j: int| 0 <= j < NUM_KEYS as int ==> !m.keys[j],
    ensures
        spec_step(m, rnd) == Ok::<Chip8View, VmError>(m),
{
    lemma_decode_wf(fetch_word(m));
    lemma_first_pressed_none(m.keys);
    let m1 = spec_exec(skip2(m), Instr::WaitKey { x }, rnd)->Ok_0;
    assert(m1 =~= m);
}

/// A blocking key read that finds key `k` as the first key down latches it
/// and still stalls: the program counter is back where it started and no
/// register moves.
pub proof fn lemma_wait_key_latches(m: Chip8View, x: u8, rnd: u8)
    requires
        m.wf(),
        x < NUM_REGISTERS as u8,
        m.pc as int + 2 <= 0xFFFF,
        m.waiting is None,
        first_pressed(m.keys) is Some,
    ensures
        ({
            let after = spec_exec(skip2(m), Instr::WaitKey { x }, rnd);
            &&& after is Ok
            &&& after->Ok_0.pc == m.pc
            &&& after->Ok_0.waiting == first_pressed(m.keys)
            &&& after->Ok_0.regs == m.regs
        }),
{
}

/// A blocking key read whose latched key is still held keeps stalling.
pub proof fn lemma_wait_key_held(m: Chip8View, x: u8, k: u8, rnd: u8)
    requires
        m.wf(),
        x < NUM_REGISTERS as u8,
        m.pc as int + 2 <= 0xFFFF,
        m.waiting == Some(k),
        m.keys[k as int],
    ensures
        ({
            let after = spec_exec(skip2(m), Instr::WaitKey { x }, rnd);
            &&& after is Ok
            &&& after->Ok_0.pc == m.pc
            &&& after->Ok_0.waiting == Some(k)
            &&& after->Ok_0.regs == m.regs
        }),
{
}

/// Once the latched key is released, the blocking key read writes it into
/// Vx, clears the latch, and lets the program counter advance normally.
pub proof fn lemma_wait_key_releases(m: Chip8View, x: u8, k: u8, rnd: u8)
    requires
        m.wf(),
        x < NUM_REGISTERS as u8,
        m.pc as int + 2 <= 0xFFFF,
        m.waiting == Some(k),
        !m.keys[k as int],
    ensures
        ({
            let after = spec_exec(skip2(m), Instr::WaitKey { x }, rnd);
            &&& after is Ok
            &&& after->Ok_0.pc == skip2(m).pc
            &&& after->Ok_0.waiting is None
            &&& after->Ok_0.regs == m.regs.update(x as int, k)
        }),
{
}

} // verus!
