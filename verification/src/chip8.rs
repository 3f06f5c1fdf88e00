//! The interpreter core: the `Chip8` machine, its construction, the ROM
//! loader, and the per-frame timer and decay passes.

use vstd::prelude::*;

verus! {

use crate::semantics::back2;
use crate::semantics::decode;
use crate::semantics::draw_collision;
use crate::semantics::draw_display;
use crate::semantics::draw_frame;
use crate::semantics::draw_collision_upto;
use crate::semantics::draw_display_upto;
use crate::semantics::draw_frame_upto;
use crate::semantics::draw_hits_upto;
use crate::semantics::draw_visited;
use crate::semantics::first_pressed;
use crate::semantics::instr_wf;
use crate::semantics::lemma_draw_upto_complete;
use crate::semantics::lemma_first_pressed_none;
use crate::semantics::lemma_first_pressed_some;
use crate::semantics::lemma_index_pixel;
use crate::semantics::lemma_pixel_index;
use crate::semantics::skip2;
use crate::semantics::mem_with_regs;
use crate::semantics::regs_from_mem;
use crate::semantics::spec_draw;
use crate::semantics::sprite_bit;
use crate::semantics::spec_exec;
use crate::semantics::spec_step;
use crate::semantics::spec_wait_key;
use crate::semantics::with_regs;
use crate::semantics::wrap_add;
use crate::semantics::wrap_add_u16;
use crate::semantics::wrap_sub;
use crate::semantics::Instr;
use crate::state::Chip8View;
use crate::state::VmError;
use crate::state::FONTS;
use crate::state::decayed;
use crate::state::initial_state;
use crate::state::mem_with_rom;
use crate::state::ticked;
use crate::HEIGHT;
use crate::WIDTH;
use crate::DECAY_STEP;
use crate::FONT_BASE;
use crate::MAX_ROM_LEN;
use crate::MEMORY_SIZE;
use crate::NUM_KEYS;
use crate::NUM_PIXELS;
use crate::NUM_REGISTERS;
use crate::ROM_BASE;
use crate::STACK_DEPTH;

/// The CHIP-8 virtual machine. It owns all state; a host drives it by
/// loading a ROM once, then repeatedly stepping it, refreshing `keys`,
/// and running the 60 Hz timer and decay passes.
pub struct Chip8 {
    memory: [u8; MEMORY_SIZE],
    frame_buffer: [u8; NUM_PIXELS],
    /// Brightness per pixel, for presentation only; never read by
    /// instruction logic.
    pub display_buffer: [u8; NUM_PIXELS],
    /// The program counter.
    pub program_counter: u16,
    index_register: u16,
    stack: [u16; STACK_DEPTH],
    /// Number of return addresses currently on the stack.
    stack_pointer: u8,
    registers: [u8; NUM_REGISTERS],
    /// The sound timer; the host plays a tone while it is nonzero.
    pub sound_timer: u8,
    delay_timer: u8,
    /// The keypad state, overwritten by the host once per frame.
    pub keys: [bool; NUM_KEYS],
    key_waiting: Option<u8>,
}

impl View for Chip8 {
    type V = Chip8View;

    closed spec fn view(&self) -> Chip8View {
        Chip8View {
            memory: self.memory@,
            frame: self.frame_buffer@,
            display: self.display_buffer@,
            pc: self.program_counter,
            index: self.index_register,
            stack: self.stack@,
            sp: self.stack_pointer,
            regs: self.registers@,
            delay: self.delay_timer,
            sound: self.sound_timer,
            keys: self.keys@,
            waiting: self.key_waiting,
        }
    }
}

impl Chip8 {
    /// A fresh machine: memory zero except the font table, program counter
    /// at the start of the ROM area, everything else cleared.
    pub fn new() -> (c: Chip8)
        ensures
            c@ == initial_state(),
            c@.wf(),
    {
        let mut c = Chip8 {
            memory: [0u8; MEMORY_SIZE],
            frame_buffer: [0u8; NUM_PIXELS],
            display_buffer: [0u8; NUM_PIXELS],
            program_counter: ROM_BASE as u16,
            index_register: 0,
            stack: [0u16; STACK_DEPTH],
            stack_pointer: 0,
            registers: [0u8; NUM_REGISTERS],
            sound_timer: 0,
            delay_timer: 0,
            keys: [false; NUM_KEYS],
            key_waiting: None,
        };
        c.load_fonts();
        proof {
            assert(c@ =~= initial_state());
        }
        c
    }

    /// Writes the font table into `FONT_BASE..FONT_BASE + 80`, leaving the
    /// rest of the machine as it was.
    fn load_fonts(&mut self)
        ensures
            final(self)@ == (Chip8View { memory: final(self)@.memory, ..old(self)@ }),
            final(self)@.memory =~= Seq::new(
                MEMORY_SIZE as nat,
                |i: int|
                    if FONT_BASE <= i < FONT_BASE + 80 {
                        FONTS@[i - FONT_BASE]
                    } else {
                        old(self)@.memory[i]
                    },
            ),
    {
        for i in 0..80
            invariant
                forall|j: int|
                    FONT_BASE <= j < FONT_BASE + i ==> self.memory@[j] == FONTS@[j - FONT_BASE],
                forall|j: int|
                    0 <= j < MEMORY_SIZE && !(FONT_BASE <= j < FONT_BASE + i) ==> self.memory@[j]
                        == old(self).memory@[j],
                self.frame_buffer == old(self).frame_buffer,
                self.display_buffer == old(self).display_buffer,
                self.program_counter == old(self).program_counter,
                self.index_register == old(self).index_register,
                self.stack == old(self).stack,
                self.stack_pointer == old(self).stack_pointer,
                self.registers == old(self).registers,
                self.sound_timer == old(self).sound_timer,
                self.delay_timer == old(self).delay_timer,
                self.keys == old(self).keys,
                self.key_waiting == old(self).key_waiting,
        {
            self.memory[FONT_BASE + i] = FONTS[i];
        }
        proof {
            assert(self@ =~= (Chip8View { memory: self@.memory, ..old(self)@ }));
        }
    }

    /// Copies the ROM verbatim to `ROM_BASE..ROM_BASE + rom.len()`. A ROM
    /// longer than `MAX_ROM_LEN` is refused and the machine is untouched.
    pub fn load_rom(&mut self, rom: &Vec<u8>) -> (r: Result<(), VmError>)
        ensures
            match r {
                Ok(()) => {
                    &&& rom@.len() <= MAX_ROM_LEN
                    &&& final(self)@ == (Chip8View {
                        memory: mem_with_rom(old(self)@.memory, rom@),
                        ..old(self)@
                    })
                },
                Err(e) => {
                    &&& e == VmError::RomTooLarge
                    &&& rom@.len() > MAX_ROM_LEN
                    &&& final(self)@ == old(self)@
                },
            },
            old(self)@.wf() ==> final(self)@.wf(),
    {
        if rom.len() > MAX_ROM_LEN {
            return Err(VmError::RomTooLarge);
        }
        let len = rom.len();
        for i in 0..len
            invariant
                len == rom@.len() <= MAX_ROM_LEN,
                forall|j: int|
                    ROM_BASE <= j < ROM_BASE + i ==> self.memory@[j] == rom@[j - ROM_BASE],
                forall|j: int|
                    0 <= j < MEMORY_SIZE && !(ROM_BASE <= j < ROM_BASE + i) ==> self.memory@[j]
                        == old(self).memory@[j],
                self.frame_buffer == old(self).frame_buffer,
                self.display_buffer == old(self).display_buffer,
                self.program_counter == old(self).program_counter,
                self.index_register == old(self).index_register,
                self.stack == old(self).stack,
                self.stack_pointer == old(self).stack_pointer,
                self.registers == old(self).registers,
                self.sound_timer == old(self).sound_timer,
                self.delay_timer == old(self).delay_timer,
                self.keys == old(self).keys,
                self.key_waiting == old(self).key_waiting,
        {
            self.memory[ROM_BASE + i] = rom[i];
        }
        proof {
            assert(self@.memory =~= mem_with_rom(old(self)@.memory, rom@));
            assert(self@ =~= (Chip8View {
                memory: mem_with_rom(old(self)@.memory, rom@),
                ..old(self)@
            }));
        }
        Ok(())
    }

    /// Marks every key as released.
    pub fn reset_keys(&mut self)
        ensures
            final(self)@ == (Chip8View { keys: Seq::new(NUM_KEYS as nat, |i: int| false), ..old(self)@ }),
    {
        for i in 0..NUM_KEYS
            invariant
                forall|j: int| 0 <= j < i ==> self.keys@[j] == false,
                forall|j: int| i <= j < NUM_KEYS ==> self.keys@[j] == old(self).keys@[j],
                self.memory == old(self).memory,
                self.frame_buffer == old(self).frame_buffer,
                self.display_buffer == old(self).display_buffer,
                self.program_counter == old(self).program_counter,
                self.index_register == old(self).index_register,
                self.stack == old(self).stack,
                self.stack_pointer == old(self).stack_pointer,
                self.registers == old(self).registers,
                self.sound_timer == old(self).sound_timer,
                self.delay_timer == old(self).delay_timer,
                self.key_waiting == old(self).key_waiting,
        {
            self.keys[i] = false;
        }
        proof {
            assert(self@.keys =~= Seq::new(NUM_KEYS as nat, |i: int| false));
            assert(self@ =~= (Chip8View {
                keys: Seq::new(NUM_KEYS as nat, |i: int| false),
                ..old(self)@
            }));
        }
    }

    /// One 60 Hz tick: each timer goes down by one, floored at zero.
    pub fn update_timers(&mut self)
        ensures
            final(self)@ == (Chip8View {
                delay: ticked(old(self)@.delay),
                sound: ticked(old(self)@.sound),
                ..old(self)@
            }),
    {
        if self.delay_timer > 0 {
            self.delay_timer = self.delay_timer - 1;
        }
        if self.sound_timer > 0 {
            self.sound_timer = self.sound_timer - 1;
        }
        proof {
            assert(self@ =~= (Chip8View {
                delay: ticked(old(self)@.delay),
                sound: ticked(old(self)@.sound),
                ..old(self)@
            }));
        }
    }

    /// One 60 Hz decay pass: display cells over lit pixels snap to 255,
    /// the rest fade by `DECAY_STEP` down to zero.
    pub fn decay_pixels(&mut self)
        ensures
            final(self)@ == (Chip8View {
                display: decayed(old(self)@.frame, old(self)@.display),
                ..old(self)@
            }),
    {
        for i in 0..NUM_PIXELS
            invariant
                forall|j: int|
                    0 <= j < i ==> self.display_buffer@[j] == decayed(
                        old(self)@.frame,
                        old(self)@.display,
                    )[j],
                forall|j: int|
                    i <= j < NUM_PIXELS ==> self.display_buffer@[j] == old(self).display_buffer@[j],
                self.memory == old(self).memory,
                self.frame_buffer == old(self).frame_buffer,
                self.program_counter == old(self).program_counter,
                self.index_register == old(self).index_register,
                self.stack == old(self).stack,
                self.stack_pointer == old(self).stack_pointer,
                self.registers == old(self).registers,
                self.sound_timer == old(self).sound_timer,
                self.delay_timer == old(self).delay_timer,
                self.keys == old(self).keys,
                self.key_waiting == old(self).key_waiting,
        {
            if self.frame_buffer[i] == 1 {
                self.display_buffer[i] = 255;
            } else {
                let v = self.display_buffer[i];
                self.display_buffer[i] = if v >= DECAY_STEP { v - DECAY_STEP } else { 0 };
            }
        }
        proof {
            assert(self@.display =~= decayed(old(self)@.frame, old(self)@.display));
            assert(self@ =~= (Chip8View {
                display: decayed(old(self)@.frame, old(self)@.display),
                ..old(self)@
            }));
        }
    }

    /// Executes one instruction: fetch the word at the program counter,
    /// advance past it, decode it, and run it. `rnd` is the byte a Cxnn
    /// instruction masks with `nn`; every other instruction ignores it. On
    /// an error the machine is left exactly as it was.
    pub fn step(&mut self, rnd: u8) -> (r: Result<(), VmError>)
        requires
            old(self)@.wf(),
        ensures
            final(self)@.wf(),
            match r {
                Ok(()) => spec_step(old(self)@, rnd) == Ok::<Chip8View, VmError>(final(self)@),
                Err(e) => spec_step(old(self)@, rnd) == Err::<Chip8View, VmError>(e)
                    && final(self)@ == old(self)@,
            },
    {
        let pc = self.program_counter;
        if pc as usize >= MEMORY_SIZE - 1 {
            return Err(VmError::MemoryOutOfBounds { addr: pc });
        }
        let hi = self.memory[pc as usize];
        let lo = self.memory[pc as usize + 1];
        let w = ((hi as u16) << 8u16) | (lo as u16);
        match decode(w) {
            None => Err(VmError::UnknownInstruction { word: w, addr: pc }),
            Some(instr) => {
                self.program_counter = pc + 2;
                proof {
                    assert(self@ =~= skip2(old(self)@));
                }
                let res = self.exec_instr(instr, rnd);
                if res.is_err() {
                    self.program_counter = pc;
                    proof {
                        assert(self@ =~= old(self)@);
                    }
                }
                res
            },
        }
    }

    /// Executes one instruction, drawing the random byte itself. Everything
    /// `step` promises holds here for some byte.
    pub fn tick(&mut self) -> (r: Result<(), VmError>)
        requires
            old(self)@.wf(),
        ensures
            final(self)@.wf(),
            match r {
                Ok(()) => exists|b: u8|
                    spec_step(old(self)@, b) == Ok::<Chip8View, VmError>(final(self)@),
                Err(e) => (exists|b: u8|
                    spec_step(old(self)@, b) == Err::<Chip8View, VmError>(e)) && final(self)@
                    == old(self)@,
            },
    {
        let rnd = random_byte();
        let r = self.step(rnd);
        proof {
            match r {
                Ok(()) => {
                    assert(spec_step(old(self)@, rnd) == Ok::<Chip8View, VmError>(self@));
                },
                Err(e) => {
                    assert(spec_step(old(self)@, rnd) == Err::<Chip8View, VmError>(e));
                },
            }
        }
        r
    }

    /// Runs one decoded instruction against the machine. The program
    /// counter has already been advanced past the instruction word.
    #[verifier::loop_isolation(false)]
    #[verifier::rlimit(100)]
    fn exec_instr(&mut self, instr: Instr, rnd: u8) -> (r: Result<(), VmError>)
        requires
            old(self)@.wf(),
            instr_wf(instr),
            2 <= old(self)@.pc,
            old(self)@.pc as int <= MEMORY_SIZE as int,
        ensures
            final(self)@.wf(),
            match r {
                Ok(()) => spec_exec(old(self)@, instr, rnd) == Ok::<Chip8View, VmError>(
                    final(self)@,
                ),
                Err(e) => spec_exec(old(self)@, instr, rnd) == Err::<Chip8View, VmError>(e)
                    && final(self)@ == old(self)@,
            },
    {
        match instr {
            Instr::ClearScreen => {
                self.frame_buffer = [0u8; NUM_PIXELS];
                proof {
                    assert(self@.frame =~= Seq::new(NUM_PIXELS as nat, |i: int| 0u8));
                    assert(self@ =~= (Chip8View {
                        frame: Seq::new(NUM_PIXELS as nat, |i: int| 0u8),
                        ..old(self)@
                    }));
                }
                Ok(())
            },
            Instr::Ret => {
                if self.stack_pointer == 0 {
                    return Err(VmError::StackUnderflow { addr: self.program_counter - 2 });
                }
                self.stack_pointer = self.stack_pointer - 1;
                self.program_counter = self.stack[self.stack_pointer as usize];
                proof {
                    assert(self@ =~= (Chip8View {
                        pc: old(self)@.stack[old(self)@.sp as int - 1],
                        sp: (old(self)@.sp - 1) as u8,
                        ..old(self)@
                    }));
                }
                Ok(())
            },
            Instr::Jump { nnn } => {
                self.program_counter = nnn;
                proof {
                    assert(self@ =~= (Chip8View { pc: nnn, ..old(self)@ }));
                }
                Ok(())
            },
            Instr::Call { nnn } => {
                if self.stack_pointer as usize >= STACK_DEPTH {
                    return Err(VmError::StackOverflow { addr: self.program_counter - 2 });
                }
                self.stack[self.stack_pointer as usize] = self.program_counter;
                self.stack_pointer = self.stack_pointer + 1;
                self.program_counter = nnn;
                proof {
                    assert(self@ =~= (Chip8View {
                        stack: old(self)@.stack.update(old(self)@.sp as int, old(self)@.pc),
                        sp: (old(self)@.sp + 1) as u8,
                        pc: nnn,
                        ..old(self)@
                    }));
                }
                Ok(())
            },
            Instr::SkipEqImm { x, nn } => {
                if self.registers[x as usize] == nn {
                    self.program_counter = self.program_counter + 2;
                    proof {
                        assert(self@ =~= skip2(old(self)@));
                    }
                }
                Ok(())
            },
            Instr::SkipNeImm { x, nn } => {
                if self.registers[x as usize] != nn {
                    self.program_counter = self.program_counter + 2;
                    proof {
                        assert(self@ =~= skip2(old(self)@));
                    }
                }
                Ok(())
            },
            Instr::SkipEqReg { x, y } => {
                if self.registers[x as usize] == self.registers[y as usize] {
                    self.program_counter = self.program_counter + 2;
                    proof {
                        assert(self@ =~= skip2(old(self)@));
                    }
                }
                Ok(())
            },
            Instr::SkipNeReg { x, y } => {
                if self.registers[x as usize] != self.registers[y as usize] {
                    self.program_counter = self.program_counter + 2;
                    proof {
                        assert(self@ =~= skip2(old(self)@));
                    }
                }
                Ok(())
            },
            Instr::LoadImm { x, nn } => {
                self.registers[x as usize] = nn;
                proof {
                    assert(self@ =~= with_regs(old(self)@, old(self)@.regs.update(x as int, nn)));
                }
                Ok(())
            },
            Instr::AddImm { x, nn } => {
                let vx = self.registers[x as usize];
                self.registers[x as usize] = vx.wrapping_add(nn);
                proof {
                    assert(vx.wrapping_add(nn) == wrap_add(vx, nn));
                    assert(self@ =~= with_regs(
                        old(self)@,
                        old(self)@.regs.update(x as int, wrap_add(vx, nn)),
                    ));
                }
                Ok(())
            },
            Instr::MoveReg { x, y } => {
                self.registers[x as usize] = self.registers[y as usize];
                proof {
                    assert(self@ =~= with_regs(
                        old(self)@,
                        old(self)@.regs.update(x as int, old(self)@.regs[y as int]),
                    ));
                }
                Ok(())
            },
            Instr::OrReg { x, y } => {
                self.registers[x as usize] = self.registers[x as usize] | self.registers[y as usize];
                self.registers[0xF] = 0;
                proof {
                    assert(self@ =~= with_regs(
                        old(self)@,
                        old(self)@.regs.update(
                            x as int,
                            old(self)@.regs[x as int] | old(self)@.regs[y as int],
                        ).update(15, 0u8),
                    ));
                }
                Ok(())
            },
            Instr::AndReg { x, y } => {
                self.registers[x as usize] = self.registers[x as usize] & self.registers[y as usize];
                self.registers[0xF] = 0;
                proof {
                    assert(self@ =~= with_regs(
                        old(self)@,
                        old(self)@.regs.update(
                            x as int,
                            old(self)@.regs[x as int] & old(self)@.regs[y as int],
                        ).update(15, 0u8),
                    ));
                }
                Ok(())
            },
            Instr::XorReg { x, y } => {
                self.registers[x as usize] = self.registers[x as usize] ^ self.registers[y as usize];
                self.registers[0xF] = 0;
                proof {
                    assert(self@ =~= with_regs(
                        old(self)@,
                        old(self)@.regs.update(
                            x as int,
                            old(self)@.regs[x as int] ^ old(self)@.regs[y as int],
                        ).update(15, 0u8),
                    ));
                }
                Ok(())
            },
            Instr::AddReg { x, y } => {
                let vx = self.registers[x as usize];
                let vy = self.registers[y as usize];
                let carry: u8 = if (vx as u16) + (vy as u16) > 255 {
                    1
                } else {
                    0
                };
                self.registers[x as usize] = vx.wrapping_add(vy);
                self.registers[0xF] = carry;
                proof {
                    assert(vx.wrapping_add(vy) == wrap_add(vx, vy));
                    assert(self@ =~= with_regs(
                        old(self)@,
                        old(self)@.regs.update(x as int, wrap_add(vx, vy)).update(15, carry),
                    ));
                }
                Ok(())
            },
            Instr::SubReg { x, y } => {
                let vx = self.registers[x as usize];
                let vy = self.registers[y as usize];
                let no_borrow: u8 = if vx >= vy {
                    1
                } else {
                    0
                };
                self.registers[x as usize] = vx.wrapping_sub(vy);
                self.registers[0xF] = no_borrow;
                proof {
                    assert(vx.wrapping_sub(vy) == wrap_sub(vx, vy));
                    assert(self@ =~= with_regs(
                        old(self)@,
                        old(self)@.regs.update(x as int, wrap_sub(vx, vy)).update(15, no_borrow),
                    ));
                }
                Ok(())
            },
            Instr::ShiftRight { x } => {
                let vx = self.registers[x as usize];
                self.registers[x as usize] = vx >> 1u8;
                self.registers[0xF] = vx & 1;
                proof {
                    assert(self@ =~= with_regs(
                        old(self)@,
                        old(self)@.regs.update(x as int, vx >> 1u8).update(15, vx & 1),
                    ));
                }
                Ok(())
            },
            Instr::SubFrom { x, y } => {
                let vx = self.registers[x as usize];
                let vy = self.registers[y as usize];
                let no_borrow: u8 = if vx <= vy {
                    1
                } else {
                    0
                };
                self.registers[x as usize] = vy.wrapping_sub(vx);
                self.registers[0xF] = no_borrow;
                proof {
                    assert(vy.wrapping_sub(vx) == wrap_sub(vy, vx));
                    assert(self@ =~= with_regs(
                        old(self)@,
                        old(self)@.regs.update(x as int, wrap_sub(vy, vx)).update(15, no_borrow),
                    ));
                }
                Ok(())
            },
            Instr::ShiftLeft { x } => {
                let vx = self.registers[x as usize];
                let high: u8 = if vx & 0x80 == 0x80 {
                    1
                } else {
                    0
                };
                self.registers[x as usize] = vx << 1u8;
                self.registers[0xF] = high;
                proof {
                    assert(self@ =~= with_regs(
                        old(self)@,
                        old(self)@.regs.update(x as int, vx << 1u8).update(15, high),
                    ));
                }
                Ok(())
            },
            Instr::LoadIndex { nnn } => {
                self.index_register = nnn;
                proof {
                    assert(self@ =~= (Chip8View { index: nnn, ..old(self)@ }));
                }
                Ok(())
            },
            Instr::JumpPlusV0 { nnn } => {
                self.program_counter = nnn + self.registers[0] as u16;
                proof {
                    assert(self@ =~= (Chip8View {
                        pc: (nnn + old(self)@.regs[0]) as u16,
                        ..old(self)@
                    }));
                }
                Ok(())
            },
            Instr::Random { x, nn } => {
                self.registers[x as usize] = nn & rnd;
                proof {
                    assert(self@ =~= with_regs(
                        old(self)@,
                        old(self)@.regs.update(x as int, nn & rnd),
                    ));
                }
                Ok(())
            },
            Instr::Draw { x, y, n } => self.exec_draw(x, y, n),
            Instr::SkipKeyDown { x } => {
                let vx = self.registers[x as usize];
                if vx as usize >= NUM_KEYS {
                    return Err(VmError::KeyOutOfRange {
                        addr: self.program_counter - 2,
                        key: vx,
                    });
                }
                if self.keys[vx as usize] {
                    self.program_counter = self.program_counter + 2;
                    proof {
                        assert(self@ =~= skip2(old(self)@));
                    }
                }
                Ok(())
            },
            Instr::SkipKeyUp { x } => {
                let vx = self.registers[x as usize];
                if vx as usize >= NUM_KEYS {
                    return Err(VmError::KeyOutOfRange {
                        addr: self.program_counter - 2,
                        key: vx,
                    });
                }
                if !self.keys[vx as usize] {
                    self.program_counter = self.program_counter + 2;
                    proof {
                        assert(self@ =~= skip2(old(self)@));
                    }
                }
                Ok(())
            },
            Instr::ReadDelay { x } => {
                self.registers[x as usize] = self.delay_timer;
                proof {
                    assert(self@ =~= with_regs(
                        old(self)@,
                        old(self)@.regs.update(x as int, old(self)@.delay),
                    ));
                }
                Ok(())
            },
            Instr::WaitKey { x } => {
                match self.key_waiting {
                    None => {
                        let mut found: Option<u8> = None;
                        for i in 0..NUM_KEYS
                            invariant
                                found is None ==> forall|j: int| 0 <= j < i ==> !self.keys@[j],
                                found matches Some(k) ==> 0 <= k < NUM_KEYS && self.keys@[k as int]
                                    && (forall|j: int| 0 <= j < k ==> !self.keys@[j]),
                        {
                            if found.is_none() && self.keys[i] {
                                found = Some(i as u8);
                            }
                        }
                        proof {
                            match found {
                                None => lemma_first_pressed_none(self@.keys),
                                Some(k) => lemma_first_pressed_some(self@.keys, k as int),
                            }
                            assert(found == first_pressed(old(self)@.keys));
                        }
                        self.key_waiting = found;
                        self.program_counter = self.program_counter - 2;
                        proof {
                            assert(self@ =~= (Chip8View {
                                waiting: first_pressed(old(self)@.keys),
                                ..back2(old(self)@)
                            }));
                            assert(spec_wait_key(old(self)@, x) == self@);
                        }
                    },
                    Some(k) => {
                        if self.keys[k as usize] {
                            self.program_counter = self.program_counter - 2;
                            proof {
                                assert(self@ =~= back2(old(self)@));
                            }
                        } else {
                            self.registers[x as usize] = k;
                            self.key_waiting = None;
                            proof {
                                assert(self@ =~= (Chip8View {
                                    regs: old(self)@.regs.update(x as int, k),
                                    waiting: None,
                                    ..old(self)@
                                }));
                            }
                        }
                    },
                }
                Ok(())
            },
            Instr::SetDelay { x } => {
                self.delay_timer = self.registers[x as usize];
                proof {
                    assert(self@ =~= (Chip8View { delay: old(self)@.regs[x as int], ..old(self)@ }));
                }
                Ok(())
            },
            Instr::SetSound { x } => {
                self.sound_timer = self.registers[x as usize];
                proof {
                    assert(self@ =~= (Chip8View { sound: old(self)@.regs[x as int], ..old(self)@ }));
                }
                Ok(())
            },
            Instr::AddIndex { x } => {
                let vx = self.registers[x as usize];
                self.index_register = self.index_register.wrapping_add(vx as u16);
                proof {
                    assert(old(self)@.index.wrapping_add(vx as u16) == wrap_add_u16(
                        old(self)@.index,
                        vx as u16,
                    ));
                    assert(self@ =~= (Chip8View {
                        index: wrap_add_u16(old(self)@.index, vx as u16),
                        ..old(self)@
                    }));
                }
                Ok(())
            },
            Instr::LoadFont { x } => {
                let vx = self.registers[x as usize];
                self.index_register = FONT_BASE as u16 + vx as u16 * 5;
                proof {
                    assert(self@ =~= (Chip8View {
                        index: (FONT_BASE as int + old(self)@.regs[x as int] as int * 5) as u16,
                        ..old(self)@
                    }));
                }
                Ok(())
            },
            Instr::StoreBcd { x } => {
                let ir = self.index_register as usize;
                if ir + 2 >= MEMORY_SIZE {
                    return Err(VmError::MemoryOutOfBounds { addr: self.index_register });
                }
                let vx = self.registers[x as usize];
                self.memory[ir] = vx / 100 % 10;
                self.memory[ir + 1] = vx / 10 % 10;
                self.memory[ir + 2] = vx % 10;
                proof {
                    let vxi = old(self)@.regs[x as int] as int;
                    assert(self@ =~= (Chip8View {
                        memory: old(self)@.memory.update(
                            old(self)@.index as int,
                            (vxi / 100 % 10) as u8,
                        ).update(old(self)@.index as int + 1, (vxi / 10 % 10) as u8).update(
                            old(self)@.index as int + 2,
                            (vxi % 10) as u8,
                        ),
                        ..old(self)@
                    }));
                }
                Ok(())
            },
            Instr::StoreRegs { x } => {
                let ir = self.index_register as usize;
                if ir + x as usize >= MEMORY_SIZE {
                    return Err(VmError::MemoryOutOfBounds { addr: self.index_register });
                }
                let count = x as usize + 1;
                for i in 0..count
                    invariant
                        forall|j: int|
                            ir <= j < ir + i ==> self.memory@[j] == old(self)@.regs[j - ir],
                        forall|j: int|
                            0 <= j < MEMORY_SIZE && !(ir <= j < ir + i) ==> self.memory@[j] == old(
                                self,
                            )@.memory[j],
                        self.frame_buffer == old(self).frame_buffer,
                        self.display_buffer == old(self).display_buffer,
                        self.program_counter == old(self).program_counter,
                        self.index_register == old(self).index_register,
                        self.stack == old(self).stack,
                        self.stack_pointer == old(self).stack_pointer,
                        self.registers == old(self).registers,
                        self.sound_timer == old(self).sound_timer,
                        self.delay_timer == old(self).delay_timer,
                        self.keys == old(self).keys,
                        self.key_waiting == old(self).key_waiting,
                {
                    self.memory[ir + i] = self.registers[i];
                }
                proof {
                    assert(self@.memory =~= mem_with_regs(
                        old(self)@.memory,
                        old(self)@.regs,
                        old(self)@.index as int,
                        x as int + 1,
                    ));
                    assert(self@ =~= (Chip8View {
                        memory: mem_with_regs(
                            old(self)@.memory,
                            old(self)@.regs,
                            old(self)@.index as int,
                            x as int + 1,
                        ),
                        ..old(self)@
                    }));
                }
                Ok(())
            },
            Instr::LoadRegs { x } => {
                let ir = self.index_register as usize;
                if ir + x as usize >= MEMORY_SIZE {
                    return Err(VmError::MemoryOutOfBounds { addr: self.index_register });
                }
                let count = x as usize + 1;
                for i in 0..count
                    invariant
                        forall|j: int| 0 <= j < i ==> self.registers@[j] == old(self)@.memory[ir + j],
                        forall|j: int|
                            i <= j < NUM_REGISTERS ==> self.registers@[j] == old(self)@.regs[j],
                        self.memory == old(self).memory,
                        self.frame_buffer == old(self).frame_buffer,
                        self.display_buffer == old(self).display_buffer,
                        self.program_counter == old(self).program_counter,
                        self.index_register == old(self).index_register,
                        self.stack == old(self).stack,
                        self.stack_pointer == old(self).stack_pointer,
                        self.sound_timer == old(self).sound_timer,
                        self.delay_timer == old(self).delay_timer,
                        self.keys == old(self).keys,
                        self.key_waiting == old(self).key_waiting,
                {
                    self.registers[i] = self.memory[ir + i];
                }
                proof {
                    assert(self@.regs =~= regs_from_mem(
                        old(self)@.regs,
                        old(self)@.memory,
                        old(self)@.index as int,
                        x as int + 1,
                    ));
                    assert(self@ =~= with_regs(
                        old(self)@,
                        regs_from_mem(
                            old(self)@.regs,
                            old(self)@.memory,
                            old(self)@.index as int,
                            x as int + 1,
                        ),
                    ));
                }
                Ok(())
            },
        }
    }

    /// Draws an 8-wide, `n`-tall sprite read from memory at I, anchored at
    /// `(Vx mod WIDTH, Vy mod HEIGHT)`: set sprite bits flip frame-buffer
    /// pixels, VF reports whether any flipped pixel was already lit, and
    /// every pixel that turns on snaps its brightness cell to 255.
    #[verifier::loop_isolation(false)]
    #[verifier::rlimit(100)]
    fn exec_draw(&mut self, x: u8, y: u8, n: u8) -> (r: Result<(), VmError>)
        requires
            old(self)@.wf(),
            x < NUM_REGISTERS as u8,
            y < NUM_REGISTERS as u8,
            n < 16,
        ensures
            final(self)@.wf(),
            match r {
                Ok(()) => spec_draw(old(self)@, x, y, n) == Ok::<Chip8View, VmError>(
                    final(self)@,
                ),
                Err(e) => spec_draw(old(self)@, x, y, n) == Err::<Chip8View, VmError>(e)
                    && final(self)@ == old(self)@,
            },
    {
        let ir = self.index_register as usize;
        if n > 0 && ir + n as usize - 1 >= MEMORY_SIZE {
            return Err(VmError::MemoryOutOfBounds { addr: self.index_register });
        }
        let xc = (self.registers[x as usize] % (WIDTH as u8)) as usize;
        let yc = (self.registers[y as usize] % (HEIGHT as u8)) as usize;
        let ghost frame0 = old(self)@.frame;
        let ghost disp0 = old(self)@.display;
        let ghost regs0 = old(self)@.regs;
        let ghost mem0 = old(self)@.memory;
        let ghost iri = ir as int;
        let ghost xci = xc as int;
        let ghost yci = yc as int;
        self.registers[0xF] = 0;
        proof {
            assert(self.frame_buffer@ =~= draw_frame_upto(frame0, mem0, iri, xci, yci, 0, 0));
            assert(self.display_buffer@ =~= draw_display_upto(
                frame0,
                disp0,
                mem0,
                iri,
                xci,
                yci,
                0,
                0,
            ));
            assert(!draw_collision_upto(frame0, mem0, iri, xci, yci, 0, 0));
        }
        for row in 0..n as usize
            invariant
                self.frame_buffer@ == draw_frame_upto(frame0, mem0, iri, xci, yci, row as int, 0),
                self.display_buffer@ == draw_display_upto(
                    frame0,
                    disp0,
                    mem0,
                    iri,
                    xci,
                    yci,
                    row as int,
                    0,
                ),
                self.registers@ == regs0.update(
                    15,
                    if draw_collision_upto(frame0, mem0, iri, xci, yci, row as int, 0) {
                        1u8
                    } else {
                        0u8
                    },
                ),
                self.memory == old(self).memory,
                self.program_counter == old(self).program_counter,
                self.index_register == old(self).index_register,
                self.stack == old(self).stack,
                self.stack_pointer == old(self).stack_pointer,
                self.sound_timer == old(self).sound_timer,
                self.delay_timer == old(self).delay_timer,
                self.keys == old(self).keys,
                self.key_waiting == old(self).key_waiting,
        {
            let sprite = self.memory[ir + row];
            for col in 0..8usize
                invariant
                    sprite == mem0[iri + row],
                    self.frame_buffer@ == draw_frame_upto(
                        frame0,
                        mem0,
                        iri,
                        xci,
                        yci,
                        row as int,
                        col as int,
                    ),
                    self.display_buffer@ == draw_display_upto(
                        frame0,
                        disp0,
                        mem0,
                        iri,
                        xci,
                        yci,
                        row as int,
                        col as int,
                    ),
                    self.registers@ == regs0.update(
                        15,
                        if draw_collision_upto(frame0, mem0, iri, xci, yci, row as int, col as int) {
                            1u8
                        } else {
                            0u8
                        },
                    ),
                    self.memory == old(self).memory,
                    self.program_counter == old(self).program_counter,
                    self.index_register == old(self).index_register,
                    self.stack == old(self).stack,
                    self.stack_pointer == old(self).stack_pointer,
                    self.sound_timer == old(self).sound_timer,
                    self.delay_timer == old(self).delay_timer,
                    self.keys == old(self).keys,
                    self.key_waiting == old(self).key_waiting,
            {
                let bit = (sprite >> ((7 - col) as u8)) & 1;
                let sx = xc + col;
                let sy = yc + row;
                let ghost rowi = row as int;
                let ghost coli = col as int;
                if sx < WIDTH && sy < HEIGHT && bit == 1 {
                    proof {
                        lemma_pixel_index(sy as int, sx as int);
                    }
                    let idx = sy * WIDTH + sx;
                    let ghost idxi = idx as int;
                    proof {
                        // the cell under the loop's own position is untouched so far
                        assert(!draw_visited(rowi, coli, rowi, coli));
                        assert(!draw_hits_upto(mem0, iri, xci, yci, rowi, coli, idxi));
                        assert(self.frame_buffer@[idxi] == frame0[idxi]);
                        assert(sprite_bit(mem0[iri + rowi], coli) == 1);
                    }
                    let collided = self.frame_buffer[idx] == 1;
                    if collided {
                        self.registers[0xF] = 1;
                        self.frame_buffer[idx] = 0;
                    } else {
                        self.frame_buffer[idx] = 1;
                        self.display_buffer[idx] = 255;
                    }
                    proof {
                        assert(draw_hits_upto(mem0, iri, xci, yci, rowi, coli + 1, idxi));
                        assert forall|q: int| 0 <= q < NUM_PIXELS as int && q != idxi implies
                            draw_hits_upto(mem0, iri, xci, yci, rowi, coli + 1, q)
                                == draw_hits_upto(mem0, iri, xci, yci, rowi, coli, q) by {
                            lemma_index_pixel(q);
                        }
                        assert(self.frame_buffer@ =~= draw_frame_upto(
                            frame0,
                            mem0,
                            iri,
                            xci,
                            yci,
                            rowi,
                            coli + 1,
                        ));
                        assert(self.display_buffer@ =~= draw_display_upto(
                            frame0,
                            disp0,
                            mem0,
                            iri,
                            xci,
                            yci,
                            rowi,
                            coli + 1,
                        ));
                        if collided {
                            assert(draw_collision_upto(frame0, mem0, iri, xci, yci, rowi, coli + 1));
                            assert(self.registers@ =~= regs0.update(15, 1u8));
                        } else {
                            if draw_collision_upto(frame0, mem0, iri, xci, yci, rowi, coli + 1) {
                                let q = choose|q: int|
                                    0 <= q < NUM_PIXELS as int && draw_hits_upto(
                                        mem0,
                                        iri,
                                        xci,
                                        yci,
                                        rowi,
                                        coli + 1,
                                        q,
                                    ) && frame0[q] == 1;
                                assert(q != idxi);
                                assert(draw_collision_upto(frame0, mem0, iri, xci, yci, rowi, coli));
                            }
                            if draw_collision_upto(frame0, mem0, iri, xci, yci, rowi, coli) {
                                let q = choose|q: int|
                                    0 <= q < NUM_PIXELS as int && draw_hits_upto(
                                        mem0,
                                        iri,
                                        xci,
                                        yci,
                                        rowi,
                                        coli,
                                        q,
                                    ) && frame0[q] == 1;
                                assert(draw_hits_upto(mem0, iri, xci, yci, rowi, coli + 1, q));
                                assert(draw_collision_upto(frame0, mem0, iri, xci, yci, rowi, coli + 1));
                            }
                            assert(draw_collision_upto(frame0, mem0, iri, xci, yci, rowi, coli + 1)
                                == draw_collision_upto(frame0, mem0, iri, xci, yci, rowi, coli));
                        }
                    }
                } else {
                    proof {
                        assert forall|q: int| 0 <= q < NUM_PIXELS as int implies draw_hits_upto(
                            mem0,
                            iri,
                            xci,
                            yci,
                            rowi,
                            coli + 1,
                            q,
                        ) == draw_hits_upto(mem0, iri, xci, yci, rowi, coli, q) by {
                            lemma_index_pixel(q);
                            if q % (WIDTH as int) == xci + coli && q / (WIDTH as int) == yci + rowi {
                                assert(sx as int == xci + coli);
                                assert(sy as int == yci + rowi);
                                if sx < WIDTH && sy < HEIGHT {
                                    assert(sprite_bit(mem0[iri + rowi], coli)
                                        != 1);
                                }
                            }
                        }
                        assert(self.frame_buffer@ =~= draw_frame_upto(
                            frame0,
                            mem0,
                            iri,
                            xci,
                            yci,
                            rowi,
                            coli + 1,
                        ));
                        assert(self.display_buffer@ =~= draw_display_upto(
                            frame0,
                            disp0,
                            mem0,
                            iri,
                            xci,
                            yci,
                            rowi,
                            coli + 1,
                        ));
                        if draw_collision_upto(frame0, mem0, iri, xci, yci, rowi, coli + 1) {
                            let q = choose|q: int|
                                0 <= q < NUM_PIXELS as int && draw_hits_upto(
                                    mem0,
                                    iri,
                                    xci,
                                    yci,
                                    rowi,
                                    coli + 1,
                                    q,
                                ) && frame0[q] == 1;
                            assert(draw_collision_upto(frame0, mem0, iri, xci, yci, rowi, coli));
                        }
                        if draw_collision_upto(frame0, mem0, iri, xci, yci, rowi, coli) {
                            let q = choose|q: int|
                                0 <= q < NUM_PIXELS as int && draw_hits_upto(
                                    mem0,
                                    iri,
                                    xci,
                                    yci,
                                    rowi,
                                    coli,
                                    q,
                                ) && frame0[q] == 1;
                            assert(draw_hits_upto(mem0, iri, xci, yci, rowi, coli + 1, q));
                        }
                        assert(draw_collision_upto(frame0, mem0, iri, xci, yci, rowi, coli + 1)
                            == draw_collision_upto(frame0, mem0, iri, xci, yci, rowi, coli));
                    }
                }
            }
            proof {
                let rowi = row as int;
                assert forall|q: int| 0 <= q < NUM_PIXELS as int implies draw_hits_upto(
                    mem0,
                    iri,
                    xci,
                    yci,
                    rowi,
                    8,
                    q,
                ) == draw_hits_upto(mem0, iri, xci, yci, rowi + 1, 0, q) by {
                    lemma_index_pixel(q);
                }
                assert(self.frame_buffer@ =~= draw_frame_upto(
                    frame0,
                    mem0,
                    iri,
                    xci,
                    yci,
                    rowi + 1,
                    0,
                ));
                assert(self.display_buffer@ =~= draw_display_upto(
                    frame0,
                    disp0,
                    mem0,
                    iri,
                    xci,
                    yci,
                    rowi + 1,
                    0,
                ));
                if draw_collision_upto(frame0, mem0, iri, xci, yci, rowi + 1, 0) {
                    let q = choose|q: int|
                        0 <= q < NUM_PIXELS as int && draw_hits_upto(
                            mem0,
                            iri,
                            xci,
                            yci,
                            rowi + 1,
                            0,
                            q,
                        ) && frame0[q] == 1;
                    assert(draw_collision_upto(frame0, mem0, iri, xci, yci, rowi, 8));
                }
                if draw_collision_upto(frame0, mem0, iri, xci, yci, rowi, 8) {
                    let q = choose|q: int|
                        0 <= q < NUM_PIXELS as int && draw_hits_upto(
                            mem0,
                            iri,
                            xci,
                            yci,
                            rowi,
                            8,
                            q,
                        ) && frame0[q] == 1;
                    assert(draw_hits_upto(mem0, iri, xci, yci, rowi + 1, 0, q));
                }
                assert(draw_collision_upto(frame0, mem0, iri, xci, yci, rowi + 1, 0)
                    == draw_collision_upto(frame0, mem0, iri, xci, yci, rowi, 8));
            }
        }
        proof {
            lemma_draw_upto_complete(frame0, disp0, mem0, iri, xci, yci, n as int);
            assert(self.frame_buffer@ == draw_frame(frame0, mem0, iri, xci, yci, n as int));
            assert(self.display_buffer@ == draw_display(
                frame0,
                disp0,
                mem0,
                iri,
                xci,
                yci,
                n as int,
            ));
            assert forall|q: int| 0 <= q < NUM_PIXELS as int implies self.frame_buffer@[q] == 0
                || self.frame_buffer@[q] == 1 by {
                assert(frame0[q] == 0 || frame0[q] == 1);
            }
            assert(self@ =~= (Chip8View {
                frame: draw_frame(frame0, mem0, iri, xci, yci, n as int),
                display: draw_display(frame0, disp0, mem0, iri, xci, yci, n as int),
                regs: regs0.update(
                    15,
                    if draw_collision(frame0, mem0, iri, xci, yci, n as int) {
                        1u8
                    } else {
                        0u8
                    },
                ),
                ..old(self)@
            }));
        }
        Ok(())
    }

    /// The value of register Vi.
    pub fn register(&self, i: usize) -> (r: u8)
        requires
            i < NUM_REGISTERS,
        ensures
            r == self@.regs[i as int],
    {
        self.registers[i]
    }

    /// The index register I.
    pub fn index_register(&self) -> (r: u16)
        ensures
            r == self@.index,
    {
        self.index_register
    }

    /// The delay timer.
    pub fn delay_timer(&self) -> (r: u8)
        ensures
            r == self@.delay,
    {
        self.delay_timer
    }

    /// The number of return addresses on the call stack.
    pub fn stack_depth(&self) -> (r: u8)
        ensures
            r == self@.sp,
    {
        self.stack_pointer
    }

    /// The frame-buffer cell at `(x, y)`: 1 when lit, 0 when dark.
    pub fn frame_pixel(&self, x: usize, y: usize) -> (r: u8)
        requires
            x < WIDTH,
            y < HEIGHT,
        ensures
            r == self@.frame[y * WIDTH + x],
    {
        self.frame_buffer[y * WIDTH + x]
    }

    /// The byte of memory at `addr`.
    pub fn memory_at(&self, addr: usize) -> (r: u8)
        requires
            addr < MEMORY_SIZE,
        ensures
            r == self@.memory[addr as int],
    {
        self.memory[addr]
    }

    /// The key latched by a blocking key read still waiting for release.
    pub fn waiting_key(&self) -> (r: Option<u8>)
        ensures
            r == self@.waiting,
    {
        self.key_waiting
    }
}

/// Relies on rand::random: one byte drawn from the thread-local generator.
/// Nothing can be promised of its value, so nothing is.
#[verifier::external_body]
fn random_byte() -> u8 {
    rand::random::<u8>()
}

} // verus!
