//! The machine state: memory, registers, call stack, timers and display.

use vstd::prelude::*;

use crate::arraystack::Stack;
use crate::font::{font_byte, font_loaded, glyph_byte, FONT_CHAR_SIZE_BYTES, FONT_START};

verus! {

/// Bytes of addressable memory.
pub const MEM_SIZE: usize = 4096;

/// Maximum depth of the call stack.
pub const STACK_SIZE: usize = 16;

/// Display width in pixels.
pub const WIDTH: usize = 64;

/// Display height in pixels.
pub const HEIGHT: usize = 32;

/// Address at which a loaded program begins; the program counter starts here.
pub const PROGRAM_START: usize = 0x200;

/// Behavioral toggles matching divergent historical interpreters. All are
/// fixed when the machine is created and never change afterwards.
#[derive(Clone, Copy, Debug, PartialEq, Eq, Structural)]
pub struct Quirks {
    /// Shift instructions operate on Vx directly instead of first copying Vy.
    pub bitshift_ignores_vy: bool,
    /// Jump-with-offset adds Vx instead of V0.
    pub jump_with_offset_uses_vx: bool,
    /// Add-to-index does not raise VF when the result leaves addressable memory.
    pub add_to_index_ignores_overflow: bool,
    /// Store/load register ranges advance the index register by `x` afterwards.
    pub store_and_load_increment_index: bool,
}

impl Quirks {
    /// The baseline behavior: every toggle off.
    pub fn none() -> (q: Quirks)
        ensures
            q == (Quirks {
                bitshift_ignores_vy: false,
                jump_with_offset_uses_vx: false,
                add_to_index_ignores_overflow: false,
                store_and_load_increment_index: false,
            }),
    {
        Quirks {
            bitshift_ignores_vy: false,
            jump_with_offset_uses_vx: false,
            add_to_index_ignores_overflow: false,
            store_and_load_increment_index: false,
        }
    }
}

/// A fatal condition of the interpreter. Every variant terminates the run;
/// none is retried.
#[derive(Clone, Copy, Debug, PartialEq, Eq, Structural)]
pub enum Chip8Error {
    /// The instruction word matches no known pattern.
    UnknownInstruction(u16),
    /// Fetching two bytes at the program counter would leave memory.
    FetchOutOfBounds,
    /// A return was executed with no return address on the stack.
    StackUnderflow,
    /// A call was executed with the call stack already full.
    StackOverflow,
    /// Reading the sprite rows would leave memory.
    SpriteOutOfBounds,
    /// Storing or loading the register range would leave memory.
    RegisterRangeOutOfBounds,
    /// Writing the three decimal digits would leave memory.
    BcdOutOfBounds,
    /// The program does not fit between the entry point and the end of memory.
    ProgramTooLarge,
}

/// The mathematical value of a machine: every field as a plain value or a
/// sequence. Contracts speak of this type.
#[verifier::ext_equal]
pub ghost struct StateView {
    pub mem: Seq<u8>,
    pub pc: u16,
    pub index: u16,
    pub stack: Seq<u16>,
    pub regs: Seq<u8>,
    pub delay: u8,
    pub sound: u8,
    pub disp: Seq<bool>,
}

/// The fixed sizes every reachable machine value has.
pub open spec fn view_wf(m: StateView) -> bool {
    &&& m.mem.len() == MEM_SIZE
    &&& m.regs.len() == 16
    &&& m.disp.len() == WIDTH * HEIGHT
}

/// The aggregate machine state together with its quirk configuration.
pub struct Machine {
    pub memory: Vec<u8>,
    pub program_counter: u16,
    pub index_register: u16,
    pub stack: Stack<u16, STACK_SIZE>,
    pub variable_registers: Vec<u8>,
    pub delay_timer: u8,
    pub sound_timer: u8,
    pub display: Vec<bool>,
    pub quirks: Quirks,
}

impl View for Machine {
    type V = StateView;

    open spec fn view(&self) -> StateView {
        StateView {
            mem: self.memory@,
            pc: self.program_counter,
            index: self.index_register,
            stack: self.stack@,
            regs: self.variable_registers@,
            delay: self.delay_timer,
            sound: self.sound_timer,
            disp: self.display@,
        }
    }
}

impl Machine {
    /// The machine is well formed when its buffers have their fixed sizes.
    pub open spec fn wf(&self) -> bool {
        view_wf(self@)
    }

    /// A fresh machine: font in memory, program counter at the entry point,
    /// everything else zeroed and the display blank.
    pub fn new(quirks: Quirks) -> (m: Machine)
        ensures
            m.wf(),
            m.quirks == quirks,
            m@.pc == PROGRAM_START,
            m@.index == 0,
            m@.stack === Seq::<u16>::empty(),
            m@.delay == 0,
            m@.sound == 0,
            forall|i: int| 0 <= i < 16 ==> m@.regs[i] == 0,
            forall|p: int| 0 <= p < WIDTH * HEIGHT ==> !m@.disp[p],
            font_loaded(m@.mem),
            forall|a: int|
                0 <= a < MEM_SIZE && !(FONT_START <= a < FONT_START + 16 * FONT_CHAR_SIZE_BYTES)
                    ==> m@.mem[a] == 0,
    {
        let mut memory: Vec<u8> = Vec::new();
        let mut a: usize = 0;
        while a < MEM_SIZE
            invariant
                a == memory@.len(),
                a <= MEM_SIZE,
                forall|i: int| 0 <= i < a ==> memory@[i] == 0,
            decreases MEM_SIZE - a,
        {
            memory.push(0);
            a += 1;
        }

        let mut d: usize = 0;
        while d < 16
            invariant
                d <= 16,
                memory@.len() == MEM_SIZE,
                forall|i: int, r: int|
                    0 <= i < d && 0 <= r < 5 ==> memory@[FONT_START + FONT_CHAR_SIZE_BYTES * i + r]
                        == font_byte(i, r),
                forall|x: int|
                    0 <= x < MEM_SIZE && !(FONT_START <= x < FONT_START + FONT_CHAR_SIZE_BYTES * d)
                        ==> memory@[x] == 0,
            decreases 16 - d,
        {
            let mut r: usize = 0;
            while r < 5
                invariant
                    d < 16,
                    r <= 5,
                    memory@.len() == MEM_SIZE,
                    forall|i: int, s: int|
                        0 <= i < d && 0 <= s < 5 ==> memory@[FONT_START + FONT_CHAR_SIZE_BYTES * i
                            + s] == font_byte(i, s),
                    forall|s: int|
                        0 <= s < r ==> memory@[FONT_START + FONT_CHAR_SIZE_BYTES * d as int + s]
                            == font_byte(d as int, s),
                    forall|x: int|
                        0 <= x < MEM_SIZE && !(FONT_START <= x < FONT_START + FONT_CHAR_SIZE_BYTES
                            * d + r) ==> memory@[x] == 0,
                decreases 5 - r,
            {
                memory[FONT_START + FONT_CHAR_SIZE_BYTES * d + r] = glyph_byte(d as u8, r as u8);
                r += 1;
            }
            d += 1;
        }

        let mut variable_registers: Vec<u8> = Vec::new();
        let mut i: usize = 0;
        while i < 16
            invariant
                i == variable_registers@.len(),
                i <= 16,
                forall|j: int| 0 <= j < i ==> variable_registers@[j] == 0,
            decreases 16 - i,
        {
            variable_registers.push(0);
            i += 1;
        }

        let mut display: Vec<bool> = Vec::new();
        let mut p: usize = 0;
        while p < WIDTH * HEIGHT
            invariant
                p == display@.len(),
                p <= WIDTH * HEIGHT,
                forall|j: int| 0 <= j < p ==> !display@[j],
            decreases WIDTH * HEIGHT - p,
        {
            display.push(false);
            p += 1;
        }

        Machine {
            memory,
            program_counter: PROGRAM_START as u16,
            index_register: 0,
            stack: Stack::new(),
            variable_registers,
            delay_timer: 0,
            sound_timer: 0,
            display,
            quirks,
        }
    }

    /// Copies a program into memory starting at the entry point; refuses a
    /// program that would not fit before touching anything.
    pub fn load_program(&mut self, program: &Vec<u8>) -> (r: Result<(), Chip8Error>)
        requires
            old(self).wf(),
        ensures
            final(self).wf(),
            final(self).quirks == old(self).quirks,
            program@.len() > MEM_SIZE - PROGRAM_START ==> r == Err::<(), Chip8Error>(
                Chip8Error::ProgramTooLarge,
            ) && final(self)@ == old(self)@,
            program@.len() <= MEM_SIZE - PROGRAM_START ==> r is Ok && final(self)@ == (StateView {
                mem: Seq::new(
                    MEM_SIZE as nat,
                    |a: int|
                        if PROGRAM_START <= a < PROGRAM_START + program@.len() {
                            program@[a - PROGRAM_START]
                        } else {
                            old(self)@.mem[a]
                        },
                ),
                ..old(self)@
            }),
    {
        if program.len() > MEM_SIZE - PROGRAM_START {
            return Err(Chip8Error::ProgramTooLarge);
        }
        let mut i: usize = 0;
        while i < program.len()
            invariant
                old(self).wf(),
                self.wf(),
                i <= program@.len(),
                program@.len() <= MEM_SIZE - PROGRAM_START,
                self.program_counter == old(self).program_counter,
                self.index_register == old(self).index_register,
                self.stack == old(self).stack,
                self.variable_registers == old(self).variable_registers,
                self.delay_timer == old(self).delay_timer,
                self.sound_timer == old(self).sound_timer,
                self.display == old(self).display,
                self.quirks == old(self).quirks,
                self.memory@.len() == MEM_SIZE,
                forall|a: int|
                    0 <= a < MEM_SIZE && !(PROGRAM_START <= a < PROGRAM_START + i)
                        ==> self.memory@[a] == old(self).memory@[a],
                forall|a: int|
                    PROGRAM_START <= a < PROGRAM_START + i ==> self.memory@[a] == program@[a
                        - PROGRAM_START],
            decreases program@.len() - i,
        {
            self.memory[PROGRAM_START + i] = program[i];
            i += 1;
        }
        proof {
            assert(final(self)@.mem =~= Seq::new(
                MEM_SIZE as nat,
                |a: int|
                    if PROGRAM_START <= a < PROGRAM_START + program@.len() {
                        program@[a - PROGRAM_START]
                    } else {
                        old(self)@.mem[a]
                    },
            ));
            assert(final(self)@ =~= (StateView {
                mem: final(self)@.mem,
                ..old(self)@
            }));
        }
        Ok(())
    }

    /// One timer tick: both timers count down by one and saturate at zero,
    /// never wrapping.
    pub fn tick_timers(&mut self)
        requires
            old(self).wf(),
        ensures
            final(self).wf(),
            final(self).quirks == old(self).quirks,
            final(self)@ == (StateView {
                delay: if old(self)@.delay == 0 {
                    0u8
                } else {
                    (old(self)@.delay - 1) as u8
                },
                sound: if old(self)@.sound == 0 {
                    0u8
                } else {
                    (old(self)@.sound - 1) as u8
                },
                ..old(self)@
            }),
    {
        if self.delay_timer > 0 {
            self.delay_timer = self.delay_timer - 1;
        }
        if self.sound_timer > 0 {
            self.sound_timer = self.sound_timer - 1;
        }
    }

    /// Whether the pixel at column `x`, row `y` is lit.
    pub fn pixel(&self, x: usize, y: usize) -> (b: bool)
        requires
            self.wf(),
            x < WIDTH,
            y < HEIGHT,
        ensures
            b == self@.disp[y * WIDTH + x],
    {
        self.display[y * WIDTH + x]
    }

    /// The display as one packed color value per pixel, row by row: lit
    /// pixels become all-ones, dark pixels zero. This is what a presentation
    /// sink consumes.
    pub fn frame_buffer(&self) -> (buf: Vec<u32>)
        requires
            self.wf(),
        ensures
            buf@.len() == WIDTH * HEIGHT,
            forall|p: int|
                0 <= p < WIDTH * HEIGHT ==> buf@[p] == if self@.disp[p] {
                    0xFFFF_FFFFu32
                } else {
                    0u32
                },
    {
        let mut buf: Vec<u32> = Vec::new();
        let mut p: usize = 0;
        while p < WIDTH * HEIGHT
            invariant
                self.wf(),
                p == buf@.len(),
                p <= WIDTH * HEIGHT,
                forall|j: int|
                    0 <= j < p ==> buf@[j] == if self@.disp[j] {
                        0xFFFF_FFFFu32
                    } else {
                        0u32
                    },
            decreases WIDTH * HEIGHT - p,
        {
            buf.push(if self.display[p] {
                0xFFFF_FFFF
            } else {
                0
            });
            p += 1;
        }
        buf
    }
}

} // verus!
