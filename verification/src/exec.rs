//! The fetch-decode-execute cycle: one 16-bit instruction word is split into
//! nibbles and dispatched; `spec_execute` states the effect of every opcode
//! family, including the quirk variants, and `execute` is proved against it.
//!
//! Randomness (for the random-byte instruction) and the pressed-key set are
//! inputs of a step: the key set arrives as a 16-bit mask, bit `k` meaning
//! logical key `k` is down.

use vstd::prelude::*;

use crate::bits::{pow2, pow2_u16};
use crate::draw::{draw_collision, draw_disp, sprite_rows};
use crate::font::{FONT_CHAR_SIZE_BYTES, FONT_START};
use crate::machine::{
    Chip8Error, Machine, Quirks, StateView, HEIGHT, MEM_SIZE, STACK_SIZE, WIDTH,
};

verus! {

/// Highest nibble of an instruction word: the opcode family.
pub open spec fn nib1(w: u16) -> u16 {
    w / 0x1000
}

/// Second nibble: the register operand `x`.
pub open spec fn nib2(w: u16) -> u16 {
    (w / 0x100) % 0x10
}

/// Third nibble: the register operand `y`.
pub open spec fn nib3(w: u16) -> u16 {
    (w / 0x10) % 0x10
}

/// Lowest nibble: the operand `n`.
pub open spec fn nib4(w: u16) -> u16 {
    w % 0x10
}

/// The 12-bit address operand `nnn`.
pub open spec fn addr_nnn(w: u16) -> u16 {
    w % 0x1000
}

/// The 8-bit immediate operand `nn`.
pub open spec fn imm_nn(w: u16) -> u8 {
    (w % 0x100) as u8
}

/// 8-bit addition, wrapping on overflow.
pub open spec fn add8(a: u8, b: u8) -> u8 {
    ((a + b) % 256) as u8
}

/// 8-bit subtraction, wrapping on underflow.
pub open spec fn sub8(a: u8, b: u8) -> u8 {
    if a >= b {
        (a - b) as u8
    } else {
        (a + 256 - b) as u8
    }
}

/// The program counter two bytes further on, wrapping at 16 bits.
pub open spec fn pc_plus2(pc: u16) -> u16 {
    ((pc + 2) % 0x10000) as u16
}

/// The program counter two bytes back, wrapping at 16 bits.
pub open spec fn pc_minus2(pc: u16) -> u16 {
    if pc >= 2 {
        (pc - 2) as u16
    } else {
        (pc + 0x10000 - 2) as u16
    }
}

/// Whether logical key `k` is down in the key mask. Only keys 0 through 15
/// exist; any other number is never pressed.
pub open spec fn key_pressed(keys: u16, k: int) -> bool {
    0 <= k < 16 && (keys as int / pow2(k)) % 2 == 1
}

/// The lowest-numbered pressed key at or above `k`, if any.
pub open spec fn first_pressed_from(keys: u16, k: int) -> Option<u8>
    decreases 16 - k,
{
    if !(0 <= k < 16) {
        None
    } else if key_pressed(keys, k) {
        Some(k as u8)
    } else {
        first_pressed_from(keys, k + 1)
    }
}

/// The lowest-numbered pressed key, if any key is down.
pub open spec fn first_pressed(keys: u16) -> Option<u8> {
    first_pressed_from(keys, 0)
}

/// An all-off display.
pub open spec fn blank_display() -> Seq<bool> {
    Seq::new((WIDTH * HEIGHT) as nat, |p: int| false)
}

/// Effect of the 8xy_ arithmetic/logic family. The data result is written to
/// Vx first and the flag to VF last, so when `x` is 15 the flag wins.
pub open spec fn spec_alu(m: StateView, w: u16, q: Quirks) -> Result<StateView, Chip8Error> {
    let x = nib2(w) as int;
    let y = nib3(w) as int;
    let op = nib4(w);
    let vx = m.regs[x];
    let vy = m.regs[y];
    if op == 0x0 {
        Ok(StateView { regs: m.regs.update(x, vy), ..m })
    } else if op == 0x1 {
        Ok(StateView { regs: m.regs.update(x, vx | vy), ..m })
    } else if op == 0x2 {
        Ok(StateView { regs: m.regs.update(x, vx & vy), ..m })
    } else if op == 0x3 {
        Ok(StateView { regs: m.regs.update(x, vx ^ vy), ..m })
    } else if op == 0x4 {
        Ok(
            StateView {
                regs: m.regs.update(x, add8(vx, vy)).update(
                    15,
                    if vx + vy >= 256 {
                        1u8
                    } else {
                        0u8
                    },
                ),
                ..m
            },
        )
    } else if op == 0x5 {
        Ok(
            StateView {
                regs: m.regs.update(x, sub8(vx, vy)).update(
                    15,
                    if vx >= vy {
                        1u8
                    } else {
                        0u8
                    },
                ),
                ..m
            },
        )
    } else if op == 0x6 {
        let src = if q.bitshift_ignores_vy {
            vx
        } else {
            vy
        };
        Ok(
            StateView {
                regs: m.regs.update(x, (src / 2) as u8).update(15, (src % 2) as u8),
                ..m
            },
        )
    } else if op == 0x7 {
        Ok(
            StateView {
                regs: m.regs.update(x, sub8(vy, vx)).update(
                    15,
                    if vy >= vx {
                        1u8
                    } else {
                        0u8
                    },
                ),
                ..m
            },
        )
    } else if op == 0xE {
        let src = if q.bitshift_ignores_vy {
            vx
        } else {
            vy
        };
        Ok(
            StateView {
                regs: m.regs.update(x, ((src * 2) % 256) as u8).update(15, (src / 128) as u8),
                ..m
            },
        )
    } else {
        Err(Chip8Error::UnknownInstruction(w))
    }
}

/// Effect of the draw instruction Dxyn.
pub open spec fn spec_dxyn(m: StateView, w: u16) -> Result<StateView, Chip8Error> {
    let x = nib2(w) as int;
    let y = nib3(w) as int;
    let n = nib4(w) as int;
    let x0 = m.regs[x] as int % (WIDTH as int);
    let y0 = m.regs[y] as int % (HEIGHT as int);
    if m.index + n > MEM_SIZE {
        Err(Chip8Error::SpriteOutOfBounds)
    } else {
        let sprite = sprite_rows(m, n);
        Ok(
            StateView {
                disp: draw_disp(m.disp, sprite, x0, y0),
                regs: m.regs.update(
                    15,
                    if draw_collision(m.disp, sprite, x0, y0) {
                        1u8
                    } else {
                        0u8
                    },
                ),
                ..m
            },
        )
    }
}

/// Effect of the Ex9E / ExA1 key-skip instructions.
pub open spec fn spec_ex(m: StateView, w: u16, keys: u16) -> Result<StateView, Chip8Error> {
    let x = nib2(w) as int;
    let tail = w % 0x100;
    let vx = m.regs[x];
    if tail == 0x9E {
        Ok(
            if key_pressed(keys, vx as int) {
                StateView { pc: pc_plus2(m.pc), ..m }
            } else {
                m
            },
        )
    } else if tail == 0xA1 {
        Ok(
            if !key_pressed(keys, vx as int) {
                StateView { pc: pc_plus2(m.pc), ..m }
            } else {
                m
            },
        )
    } else {
        Err(Chip8Error::UnknownInstruction(w))
    }
}

/// Effect of the Fx__ family: timers, key wait, index arithmetic, font
/// addressing, decimal decomposition, and register ranges.
pub open spec fn spec_fx(m: StateView, w: u16, keys: u16, q: Quirks) -> Result<
    StateView,
    Chip8Error,
> {
    let x = nib2(w) as int;
    let tail = w % 0x100;
    let vx = m.regs[x];
    if tail == 0x07 {
        Ok(StateView { regs: m.regs.update(x, m.delay), ..m })
    } else if tail == 0x0A {
        match first_pressed(keys) {
            Some(k) => Ok(StateView { regs: m.regs.update(x, k), ..m }),
            None => Ok(StateView { pc: pc_minus2(m.pc), ..m }),
        }
    } else if tail == 0x15 {
        Ok(StateView { delay: vx, ..m })
    } else if tail == 0x18 {
        Ok(StateView { sound: vx, ..m })
    } else if tail == 0x1E {
        let sum = m.index + vx;
        Ok(
            StateView {
                index: ((sum % 0x10000) as u16),
                regs: if !q.add_to_index_ignores_overflow && sum > 0xFFF {
                    m.regs.update(15, 1u8)
                } else {
                    m.regs
                },
                ..m
            },
        )
    } else if tail == 0x29 {
        Ok(StateView { index: (FONT_START + FONT_CHAR_SIZE_BYTES * (vx as int % 16)) as u16, ..m })
    } else if tail == 0x33 {
        if m.index + 3 > MEM_SIZE {
            Err(Chip8Error::BcdOutOfBounds)
        } else {
            Ok(
                StateView {
                    mem: m.mem.update(m.index as int, (vx / 100) as u8).update(
                        m.index + 1,
                        ((vx / 10) % 10) as u8,
                    ).update(m.index + 2, (vx % 10) as u8),
                    ..m
                },
            )
        }
    } else if tail == 0x55 {
        if m.index + x + 1 > MEM_SIZE {
            Err(Chip8Error::RegisterRangeOutOfBounds)
        } else {
            Ok(
                StateView {
                    mem: Seq::new(
                        MEM_SIZE as nat,
                        |a: int|
                            if m.index <= a <= m.index + x {
                                m.regs[a - m.index]
                            } else {
                                m.mem[a]
                            },
                    ),
                    index: if q.store_and_load_increment_index {
                        (m.index + x) as u16
                    } else {
                        m.index
                    },
                    ..m
                },
            )
        }
    } else if tail == 0x65 {
        if m.index + x + 1 > MEM_SIZE {
            Err(Chip8Error::RegisterRangeOutOfBounds)
        } else {
            Ok(
                StateView {
                    regs: Seq::new(
                        16,
                        |i: int|
                            if 0 <= i <= x {
                                m.mem[m.index + i]
                            } else {
                                m.regs[i]
                            },
                    ),
                    index: if q.store_and_load_increment_index {
                        (m.index + x) as u16
                    } else {
                        m.index
                    },
                    ..m
                },
            )
        }
    } else {
        Err(Chip8Error::UnknownInstruction(w))
    }
}

/// The effect of executing one already-fetched instruction word `w` on
/// machine `m`, where the program counter already points at the next
/// instruction. `rand` is the random byte an execution draws (used only by
/// Cxnn) and `keys` the pressed-key mask. An error leaves the machine
/// unchanged.
#[verifier::opaque]
pub open spec fn spec_execute(m: StateView, w: u16, rand: u8, keys: u16, q: Quirks) -> Result<
    StateView,
    Chip8Error,
> {
    let x = nib2(w) as int;
    let y = nib3(w) as int;
    let nnn = addr_nnn(w);
    let nn = imm_nn(w);
    if nib1(w) == 0x0 {
        if w == 0x00E0 {
            Ok(StateView { disp: blank_display(), ..m })
        } else if w == 0x00EE {
            if m.stack.len() == 0 {
                Err(Chip8Error::StackUnderflow)
            } else {
                Ok(StateView { pc: m.stack.last(), stack: m.stack.drop_last(), ..m })
            }
        } else {
            Err(Chip8Error::UnknownInstruction(w))
        }
    } else if nib1(w) == 0x1 {
        Ok(StateView { pc: nnn, ..m })
    } else if nib1(w) == 0x2 {
        if m.stack.len() >= STACK_SIZE {
            Err(Chip8Error::StackOverflow)
        } else {
            Ok(StateView { stack: m.stack.push(m.pc), pc: nnn, ..m })
        }
    } else if nib1(w) == 0x3 {
        Ok(
            if m.regs[x] == nn {
                StateView { pc: pc_plus2(m.pc), ..m }
            } else {
                m
            },
        )
    } else if nib1(w) == 0x4 {
        Ok(
            if m.regs[x] != nn {
                StateView { pc: pc_plus2(m.pc), ..m }
            } else {
                m
            },
        )
    } else if nib1(w) == 0x5 {
        if nib4(w) == 0x0 {
            Ok(
                if m.regs[x] == m.regs[y] {
                    StateView { pc: pc_plus2(m.pc), ..m }
                } else {
                    m
                },
            )
        } else {
            Err(Chip8Error::UnknownInstruction(w))
        }
    } else if nib1(w) == 0x6 {
        Ok(StateView { regs: m.regs.update(x, nn), ..m })
    } else if nib1(w) == 0x7 {
        Ok(StateView { regs: m.regs.update(x, add8(m.regs[x], nn)), ..m })
    } else if nib1(w) == 0x8 {
        spec_alu(m, w, q)
    } else if nib1(w) == 0x9 {
        if nib4(w) == 0x0 {
            Ok(
                if m.regs[x] != m.regs[y] {
                    StateView { pc: pc_plus2(m.pc), ..m }
                } else {
                    m
                },
            )
        } else {
            Err(Chip8Error::UnknownInstruction(w))
        }
    } else if nib1(w) == 0xA {
        Ok(StateView { index: nnn, ..m })
    } else if nib1(w) == 0xB {
        let off = if q.jump_with_offset_uses_vx {
            m.regs[x]
        } else {
            m.regs[0]
        };
        Ok(StateView { pc: (nnn + off) as u16, ..m })
    } else if nib1(w) == 0xC {
        Ok(StateView { regs: m.regs.update(x, rand & nn), ..m })
    } else if nib1(w) == 0xD {
        spec_dxyn(m, w)
    } else if nib1(w) == 0xE {
        spec_ex(m, w, keys)
    } else {
        spec_fx(m, w, keys, q)
    }
}

/// What `execute` guarantees: the machine moves to the state `spec_execute`
/// gives, or reports that error with the machine unchanged.
pub open spec fn execute_post(
    pre: StateView,
    post: StateView,
    r: Result<(), Chip8Error>,
    w: u16,
    rand: u8,
    keys: u16,
    q: Quirks,
) -> bool {
    match spec_execute(pre, w, rand, keys, q) {
        Ok(v) => r is Ok && post == v,
        Err(e) => r == Err::<(), Chip8Error>(e) && post == pre,
    }
}

/// One full step: fetch the big-endian word at the program counter, advance
/// the counter by two, then execute. Fetching past the end of memory is a
/// fatal error that leaves the machine unchanged.
pub open spec fn spec_step(m: StateView, rand: u8, keys: u16, q: Quirks) -> Result<
    StateView,
    Chip8Error,
> {
    if m.pc + 2 > MEM_SIZE {
        Err(Chip8Error::FetchOutOfBounds)
    } else {
        let w = (m.mem[m.pc as int] * 256 + m.mem[m.pc + 1]) as u16;
        spec_execute(StateView { pc: pc_plus2(m.pc), ..m }, w, rand, keys, q)
    }
}

/// What a step guarantees, given the random byte it drew.
pub open spec fn step_post(
    pre: StateView,
    post: StateView,
    r: Result<(), Chip8Error>,
    rand: u8,
    keys: u16,
    q: Quirks,
) -> bool {
    match spec_step(pre, rand, keys, q) {
        Ok(v) => r is Ok && post == v,
        Err(e) => r == Err::<(), Chip8Error>(e) && post == pre,
    }
}

/// Relies on rand::random: draws a value from the thread-local generator.
/// Nothing can be promised of the result.
pub assume_specification<T>[ rand::random::<T> ]() -> (r: T)
    where rand::distributions::Standard: rand::distributions::Distribution<T>,
;

/// Whether logical key `k` is down in the mask, as executable code.
fn key_down(keys: u16, k: u8) -> (b: bool)
    ensures
        b == key_pressed(keys, k as int),
{
    if k >= 16 {
        false
    } else {
        let mask = pow2_u16(k as u16);
        assert(mask == pow2(k as int));
        assert(mask >= 1);
        (keys / mask) % 2 == 1
    }
}

/// The lowest-numbered pressed key, as executable code.
fn lowest_pressed(keys: u16) -> (r: Option<u8>)
    ensures
        r == first_pressed(keys),
{
    let mut k: u16 = 0;
    while k < 16
        invariant
            k <= 16,
            first_pressed(keys) == first_pressed_from(keys, k as int),
        decreases 16 - k,
    {
        let mask = pow2_u16(k);
        assert(mask == pow2(k as int) && mask >= 1);
        if (keys / mask) % 2 == 1 {
            assert(key_pressed(keys, k as int));
            return Some(k as u8);
        }
        assert(!key_pressed(keys, k as int));
        assert(first_pressed_from(keys, k as int) == first_pressed_from(keys, k as int + 1));
        k += 1;
    }
    assert(first_pressed_from(keys, 16) is None);
    None
}

impl Machine {
    /// Sets every pixel off.
    fn clear_display(&mut self)
        requires
            old(self).wf(),
        ensures
            final(self).wf(),
            final(self).quirks == old(self).quirks,
            final(self)@ == (StateView { disp: blank_display(), ..old(self)@ }),
    {
        let mut p: usize = 0;
        while p < WIDTH * HEIGHT
            invariant
                self.wf(),
                p <= WIDTH * HEIGHT,
                self.memory@ == old(self).memory@,
                self.program_counter == old(self).program_counter,
                self.index_register == old(self).index_register,
                self.stack == old(self).stack,
                self.variable_registers@ == old(self).variable_registers@,
                self.delay_timer == old(self).delay_timer,
                self.sound_timer == old(self).sound_timer,
                self.quirks == old(self).quirks,
                self.display@.len() == WIDTH * HEIGHT,
                forall|j: int| 0 <= j < p ==> !self.display@[j],
            decreases WIDTH * HEIGHT - p,
        {
            self.display[p] = false;
            p += 1;
        }
        proof {
            assert(self.display@ =~= blank_display());
            assert(self@ =~= (StateView { disp: blank_display(), ..old(self)@ }));
        }
    }

    /// Advances the program counter over the next instruction.
    fn skip_next(&mut self)
        requires
            old(self).wf(),
        ensures
            final(self).wf(),
            final(self).quirks == old(self).quirks,
            final(self)@ == (StateView { pc: pc_plus2(old(self)@.pc), ..old(self)@ }),
    {
        self.program_counter = ((self.program_counter as u32 + 2) % 0x10000) as u16;
        proof {
            assert(self@ =~= (StateView { pc: pc_plus2(old(self)@.pc), ..old(self)@ }));
        }
    }

    /// Moves the program counter back onto the current instruction, so the
    /// same instruction is refetched next step.
    fn rewind_pc(&mut self)
        requires
            old(self).wf(),
        ensures
            final(self).wf(),
            final(self).quirks == old(self).quirks,
            final(self)@ == (StateView { pc: pc_minus2(old(self)@.pc), ..old(self)@ }),
    {
        if self.program_counter >= 2 {
            self.program_counter = self.program_counter - 2;
        } else {
            self.program_counter = ((self.program_counter as u32 + 0x10000 - 2) % 0x10000) as u16;
        }
        proof {
            assert(self@ =~= (StateView { pc: pc_minus2(old(self)@.pc), ..old(self)@ }));
        }
    }

    /// The 8xy_ arithmetic/logic family. Flag results are written to VF
    /// after the data result, so a destination of VF keeps the flag.
    fn exec_alu(&mut self, w: u16) -> (r: Result<(), Chip8Error>)
        requires
            old(self).wf(),
            nib1(w) == 0x8,
        ensures
            final(self).wf(),
            final(self).quirks == old(self).quirks,
            (match spec_alu(old(self)@, w, old(self).quirks) {
                Ok(v) => r is Ok && final(self)@ == v,
                Err(e) => r == Err::<(), Chip8Error>(e) && final(self)@ == old(self)@,
            }),
    {
        let x = ((w / 0x100) % 0x10) as usize;
        let y = ((w / 0x10) % 0x10) as usize;
        let op = w % 0x10;
        let vx = self.variable_registers[x];
        let vy = self.variable_registers[y];
        if op == 0x0 {
            self.variable_registers[x] = vy;
        } else if op == 0x1 {
            self.variable_registers[x] = vx | vy;
        } else if op == 0x2 {
            self.variable_registers[x] = vx & vy;
        } else if op == 0x3 {
            self.variable_registers[x] = vx ^ vy;
        } else if op == 0x4 {
            let sum = vx as u16 + vy as u16;
            self.variable_registers[x] = (sum % 256) as u8;
            self.variable_registers[15] = if sum >= 256 {
                1
            } else {
                0
            };
        } else if op == 0x5 {
            let diff = if vx >= vy {
                vx - vy
            } else {
                ((vx as u16 + 256) - vy as u16) as u8
            };
            self.variable_registers[x] = diff;
            self.variable_registers[15] = if vx >= vy {
                1
            } else {
                0
            };
        } else if op == 0x6 {
            let src = if self.quirks.bitshift_ignores_vy {
                vx
            } else {
                vy
            };
            self.variable_registers[x] = src / 2;
            self.variable_registers[15] = src % 2;
        } else if op == 0x7 {
            let diff = if vy >= vx {
                vy - vx
            } else {
                ((vy as u16 + 256) - vx as u16) as u8
            };
            self.variable_registers[x] = diff;
            self.variable_registers[15] = if vy >= vx {
                1
            } else {
                0
            };
        } else if op == 0xE {
            let src = if self.quirks.bitshift_ignores_vy {
                vx
            } else {
                vy
            };
            self.variable_registers[x] = ((src as u16 * 2) % 256) as u8;
            self.variable_registers[15] = src / 128;
        } else {
            return Err(Chip8Error::UnknownInstruction(w));
        }
        proof {
            let v = spec_alu(old(self)@, w, old(self).quirks)->Ok_0;
            assert(self@ =~= v);
        }
        Ok(())
    }

    /// Writes the decimal digits of Vx to memory at the index register.
    fn write_bcd(&mut self, x: usize) -> (r: Result<(), Chip8Error>)
        requires
            old(self).wf(),
            x < 16,
        ensures
            final(self).wf(),
            final(self).quirks == old(self).quirks,
            old(self)@.index + 3 > MEM_SIZE ==> r == Err::<(), Chip8Error>(
                Chip8Error::BcdOutOfBounds,
            ) && final(self)@ == old(self)@,
            old(self)@.index + 3 <= MEM_SIZE ==> r is Ok && final(self)@ == (StateView {
                mem: old(self)@.mem.update(
                    old(self)@.index as int,
                    (old(self)@.regs[x as int] / 100) as u8,
                ).update(old(self)@.index + 1, ((old(self)@.regs[x as int] / 10) % 10) as u8).update(
                    old(self)@.index + 2,
                    (old(self)@.regs[x as int] % 10) as u8,
                ),
                ..old(self)@
            }),
    {
        let idx = self.index_register as usize;
        if idx > MEM_SIZE - 3 {
            return Err(Chip8Error::BcdOutOfBounds);
        }
        let vx = self.variable_registers[x];
        self.memory[idx] = vx / 100;
        self.memory[idx + 1] = (vx / 10) % 10;
        self.memory[idx + 2] = vx % 10;
        proof {
            assert(self@ =~= (StateView {
                mem: old(self)@.mem.update(
                    old(self)@.index as int,
                    (old(self)@.regs[x as int] / 100) as u8,
                ).update(old(self)@.index + 1, ((old(self)@.regs[x as int] / 10) % 10) as u8).update(
                    old(self)@.index + 2,
                    (old(self)@.regs[x as int] % 10) as u8,
                ),
                ..old(self)@
            }));
        }
        Ok(())
    }

    /// Stores V0 through Vx into memory at the index register, applying the
    /// auto-increment quirk when configured.
    fn store_registers(&mut self, x: usize) -> (r: Result<(), Chip8Error>)
        requires
            old(self).wf(),
            x < 16,
        ensures
            final(self).wf(),
            final(self).quirks == old(self).quirks,
            old(self)@.index + x + 1 > MEM_SIZE ==> r == Err::<(), Chip8Error>(
                Chip8Error::RegisterRangeOutOfBounds,
            ) && final(self)@ == old(self)@,
            old(self)@.index + x + 1 <= MEM_SIZE ==> r is Ok && final(self)@ == (StateView {
                mem: Seq::new(
                    MEM_SIZE as nat,
                    |a: int|
                        if old(self)@.index <= a <= old(self)@.index + x {
                            old(self)@.regs[a - old(self)@.index]
                        } else {
                            old(self)@.mem[a]
                        },
                ),
                index: if old(self).quirks.store_and_load_increment_index {
                    (old(self)@.index + x) as u16
                } else {
                    old(self)@.index
                },
                ..old(self)@
            }),
    {
        let idx = self.index_register as usize;
        if idx > MEM_SIZE - (x + 1) {
            return Err(Chip8Error::RegisterRangeOutOfBounds);
        }
        let mut i: usize = 0;
        while i <= x
            invariant
                self.wf(),
                x < 16,
                i <= x + 1,
                idx == old(self).index_register as usize,
                idx + x + 1 <= MEM_SIZE,
                self.program_counter == old(self).program_counter,
                self.index_register == old(self).index_register,
                self.stack == old(self).stack,
                self.variable_registers@ == old(self).variable_registers@,
                self.delay_timer == old(self).delay_timer,
                self.sound_timer == old(self).sound_timer,
                self.display@ == old(self).display@,
                self.quirks == old(self).quirks,
                self.memory@.len() == MEM_SIZE,
                forall|a: int|
                    0 <= a < MEM_SIZE && !(idx <= a < idx + i) ==> self.memory@[a] == old(
                        self,
                    ).memory@[a],
                forall|a: int|
                    idx <= a < idx + i ==> self.memory@[a] == old(self).variable_registers@[a - idx],
            decreases x + 1 - i,
        {
            self.memory[idx + i] = self.variable_registers[i];
            i += 1;
        }
        if self.quirks.store_and_load_increment_index {
            self.index_register = self.index_register + x as u16;
        }
        proof {
            assert(self.memory@ =~= Seq::new(
                MEM_SIZE as nat,
                |a: int|
                    if old(self)@.index <= a <= old(self)@.index + x {
                        old(self)@.regs[a - old(self)@.index]
                    } else {
                        old(self)@.mem[a]
                    },
            ));
            assert(self@ =~= (StateView {
                mem: self.memory@,
                index: if old(self).quirks.store_and_load_increment_index {
                    (old(self)@.index + x) as u16
                } else {
                    old(self)@.index
                },
                ..old(self)@
            }));
        }
        Ok(())
    }

    /// Loads V0 through Vx from memory at the index register, applying the
    /// auto-increment quirk when configured.
    fn load_registers(&mut self, x: usize) -> (r: Result<(), Chip8Error>)
        requires
            old(self).wf(),
            x < 16,
        ensures
            final(self).wf(),
            final(self).quirks == old(self).quirks,
            old(self)@.index + x + 1 > MEM_SIZE ==> r == Err::<(), Chip8Error>(
                Chip8Error::RegisterRangeOutOfBounds,
            ) && final(self)@ == old(self)@,
            old(self)@.index + x + 1 <= MEM_SIZE ==> r is Ok && final(self)@ == (StateView {
                regs: Seq::new(
                    16,
                    |i: int|
                        if 0 <= i <= x {
                            old(self)@.mem[old(self)@.index + i]
                        } else {
                            old(self)@.regs[i]
                        },
                ),
                index: if old(self).quirks.store_and_load_increment_index {
                    (old(self)@.index + x) as u16
                } else {
                    old(self)@.index
                },
                ..old(self)@
            }),
    {
        let idx = self.index_register as usize;
        if idx > MEM_SIZE - (x + 1) {
            return Err(Chip8Error::RegisterRangeOutOfBounds);
        }
        let mut i: usize = 0;
        while i <= x
            invariant
                self.wf(),
                x < 16,
                i <= x + 1,
                idx == old(self).index_register as usize,
                idx + x + 1 <= MEM_SIZE,
                self.program_counter == old(self).program_counter,
                self.index_register == old(self).index_register,
                self.stack == old(self).stack,
                self.memory@ == old(self).memory@,
                self.delay_timer == old(self).delay_timer,
                self.sound_timer == old(self).sound_timer,
                self.display@ == old(self).display@,
                self.quirks == old(self).quirks,
                self.variable_registers@.len() == 16,
                forall|j: int|
                    0 <= j < 16 && !(0 <= j < i) ==> self.variable_registers@[j] == old(
                        self,
                    ).variable_registers@[j],
                forall|j: int|
                    0 <= j < i ==> self.variable_registers@[j] == old(self).memory@[idx + j],
            decreases x + 1 - i,
        {
            self.variable_registers[i] = self.memory[idx + i];
            i += 1;
        }
        if self.quirks.store_and_load_increment_index {
            self.index_register = self.index_register + x as u16;
        }
        proof {
            assert(self.variable_registers@ =~= Seq::new(
                16,
                |i: int|
                    if 0 <= i <= x {
                        old(self)@.mem[old(self)@.index + i]
                    } else {
                        old(self)@.regs[i]
                    },
            ));
            assert(self@ =~= (StateView {
                regs: self.variable_registers@,
                index: if old(self).quirks.store_and_load_increment_index {
                    (old(self)@.index + x) as u16
                } else {
                    old(self)@.index
                },
                ..old(self)@
            }));
        }
        Ok(())
    }

    /// The Ex9E / ExA1 key-skip instructions.
    fn exec_ex(&mut self, w: u16, keys: u16) -> (r: Result<(), Chip8Error>)
        requires
            old(self).wf(),
            nib1(w) == 0xE,
        ensures
            final(self).wf(),
            final(self).quirks == old(self).quirks,
            (match spec_ex(old(self)@, w, keys) {
                Ok(v) => r is Ok && final(self)@ == v,
                Err(e) => r == Err::<(), Chip8Error>(e) && final(self)@ == old(self)@,
            }),
    {
        let x = ((w / 0x100) % 0x10) as usize;
        let tail = w % 0x100;
        let vx = self.variable_registers[x];
        if tail == 0x9E {
            if key_down(keys, vx) {
                self.skip_next();
            }
            Ok(())
        } else if tail == 0xA1 {
            if !key_down(keys, vx) {
                self.skip_next();
            }
            Ok(())
        } else {
            Err(Chip8Error::UnknownInstruction(w))
        }
    }

    /// The Fx__ family.
    fn exec_fx(&mut self, w: u16, keys: u16) -> (r: Result<(), Chip8Error>)
        requires
            old(self).wf(),
            nib1(w) == 0xF,
        ensures
            final(self).wf(),
            final(self).quirks == old(self).quirks,
            (match spec_fx(old(self)@, w, keys, old(self).quirks) {
                Ok(v) => r is Ok && final(self)@ == v,
                Err(e) => r == Err::<(), Chip8Error>(e) && final(self)@ == old(self)@,
            }),
    {
        let x = ((w / 0x100) % 0x10) as usize;
        let tail = w % 0x100;
        if tail == 0x07 {
            self.variable_registers[x] = self.delay_timer;
            Ok(())
        } else if tail == 0x0A {
            match lowest_pressed(keys) {
                Some(k) => {
                    self.variable_registers[x] = k;
                },
                None => {
                    self.rewind_pc();
                },
            }
            Ok(())
        } else if tail == 0x15 {
            self.delay_timer = self.variable_registers[x];
            Ok(())
        } else if tail == 0x18 {
            self.sound_timer = self.variable_registers[x];
            Ok(())
        } else if tail == 0x1E {
            let vx = self.variable_registers[x];
            let sum = self.index_register as u32 + vx as u32;
            self.index_register = (sum % 0x10000) as u16;
            if !self.quirks.add_to_index_ignores_overflow && sum > 0xFFF {
                self.variable_registers[15] = 1;
            }
            proof {
                let v = spec_fx(old(self)@, w, keys, old(self).quirks)->Ok_0;
                assert(self@ =~= v);
            }
            Ok(())
        } else if tail == 0x29 {
            let vx = self.variable_registers[x];
            self.index_register = (FONT_START + FONT_CHAR_SIZE_BYTES * ((vx % 16) as usize)) as u16;
            Ok(())
        } else if tail == 0x33 {
            self.write_bcd(x)
        } else if tail == 0x55 {
            self.store_registers(x)
        } else if tail == 0x65 {
            self.load_registers(x)
        } else {
            Err(Chip8Error::UnknownInstruction(w))
        }
    }

    /// Executes one already-fetched instruction word. The program counter
    /// must already point past the word, as `step` leaves it. `rand` is the
    /// random byte used by Cxnn; `keys` is the pressed-key mask. On error
    /// the machine is unchanged.
    pub fn execute(&mut self, w: u16, rand: u8, keys: u16) -> (r: Result<(), Chip8Error>)
        requires
            old(self).wf(),
        ensures
            final(self).wf(),
            final(self).quirks == old(self).quirks,
            execute_post(old(self)@, final(self)@, r, w, rand, keys, old(self).quirks),
    {
        proof {
            reveal(spec_execute);
        }
        let n1 = w / 0x1000;
        let x = ((w / 0x100) % 0x10) as usize;
        let y = ((w / 0x10) % 0x10) as usize;
        let n4 = w % 0x10;
        let nnn = w % 0x1000;
        let nn = (w % 0x100) as u8;
        if n1 == 0x0 {
            if w == 0x00E0 {
                self.clear_display();
                Ok(())
            } else if w == 0x00EE {
                match self.stack.pop() {
                    Some(addr) => {
                        self.program_counter = addr;
                        Ok(())
                    },
                    None => Err(Chip8Error::StackUnderflow),
                }
            } else {
                Err(Chip8Error::UnknownInstruction(w))
            }
        } else if n1 == 0x1 {
            self.program_counter = nnn;
            Ok(())
        } else if n1 == 0x2 {
            match self.stack.try_push(self.program_counter) {
                Ok(()) => {
                    self.program_counter = nnn;
                    Ok(())
                },
                Err(_) => Err(Chip8Error::StackOverflow),
            }
        } else if n1 == 0x3 {
            if self.variable_registers[x] == nn {
                self.skip_next();
            }
            Ok(())
        } else if n1 == 0x4 {
            if self.variable_registers[x] != nn {
                self.skip_next();
            }
            Ok(())
        } else if n1 == 0x5 {
            if n4 == 0x0 {
                if self.variable_registers[x] == self.variable_registers[y] {
                    self.skip_next();
                }
                Ok(())
            } else {
                Err(Chip8Error::UnknownInstruction(w))
            }
        } else if n1 == 0x6 {
            self.variable_registers[x] = nn;
            Ok(())
        } else if n1 == 0x7 {
            let vx = self.variable_registers[x];
            self.variable_registers[x] = ((vx as u16 + nn as u16) % 256) as u8;
            Ok(())
        } else if n1 == 0x8 {
            self.exec_alu(w)
        } else if n1 == 0x9 {
            if n4 == 0x0 {
                if self.variable_registers[x] != self.variable_registers[y] {
                    self.skip_next();
                }
                Ok(())
            } else {
                Err(Chip8Error::UnknownInstruction(w))
            }
        } else if n1 == 0xA {
            self.index_register = nnn;
            Ok(())
        } else if n1 == 0xB {
            let off = if self.quirks.jump_with_offset_uses_vx {
                self.variable_registers[x]
            } else {
                self.variable_registers[0]
            };
            self.program_counter = nnn + off as u16;
            Ok(())
        } else if n1 == 0xC {
            self.variable_registers[x] = rand & nn;
            Ok(())
        } else if n1 == 0xD {
            let vx = self.variable_registers[x];
            let vy = self.variable_registers[y];
            self.draw_sprite((vx as usize) % WIDTH, (vy as usize) % HEIGHT, n4 as usize)
        } else if n1 == 0xE {
            self.exec_ex(w, keys)
        } else {
            assert(n1 == 0xF);
            self.exec_fx(w, keys)
        }
    }

    /// One machine step with the random byte supplied by the caller:
    /// fetch, advance, execute.
    pub fn step_with(&mut self, rand: u8, keys: u16) -> (r: Result<(), Chip8Error>)
        requires
            old(self).wf(),
        ensures
            final(self).wf(),
            final(self).quirks == old(self).quirks,
            step_post(old(self)@, final(self)@, r, rand, keys, old(self).quirks),
    {
        let pc = self.program_counter as usize;
        if pc + 2 > MEM_SIZE {
            return Err(Chip8Error::FetchOutOfBounds);
        }
        let hi = self.memory[pc];
        let lo = self.memory[pc + 1];
        let w = (hi as u16) * 256 + (lo as u16);
        let ghost m2 = StateView { pc: pc_plus2(old(self)@.pc), ..old(self)@ };
        self.program_counter = self.program_counter + 2;
        proof {
            assert(self@ =~= m2);
            assert(w == fetched_word(old(self)@));
        }
        let r = self.execute(w, rand, keys);
        proof {
            assert(spec_step(old(self)@, rand, keys, old(self).quirks) == spec_execute(
                m2,
                w,
                rand,
                keys,
                old(self).quirks,
            ));
        }
        if r.is_err() {
            // A fatal condition reports the address of the offending
            // instruction, so the counter moves back onto it.
            self.program_counter = self.program_counter - 2;
            proof {
                assert(self@ =~= old(self)@);
            }
        }
        r
    }

    /// One machine step: fetch, advance, execute, drawing the random byte
    /// from the system generator.
    pub fn step(&mut self, keys: u16) -> (r: Result<(), Chip8Error>)
        requires
            old(self).wf(),
        ensures
            final(self).wf(),
            final(self).quirks == old(self).quirks,
            exists|rand: u8| step_post(old(self)@, final(self)@, r, rand, keys, old(self).quirks),
    {
        let rand_byte: u8 = rand::random::<u8>();
        let r = self.step_with(rand_byte, keys);
        proof {
            lemma_step_post_some_rand(old(self)@, self@, r, rand_byte, keys, old(self).quirks);
        }
        r
    }
}

/// A step that meets its contract for one particular random byte meets it
/// for some random byte.
proof fn lemma_step_post_some_rand(
    pre: StateView,
    post: StateView,
    r: Result<(), Chip8Error>,
    rand: u8,
    keys: u16,
    q: Quirks,
)
    requires
        step_post(pre, post, r, rand, keys, q),
    ensures
        exists|b: u8| step_post(pre, post, r, b, keys, q),
{
    assert(step_post(pre, post, r, rand, keys, q));
    assert(exists|b: u8| step_post(pre, post, r, b, keys, q));
}

/// A skip instruction's condition: whether 3xnn / 4xnn / 5xy0 / 9xy0 skips.
pub open spec fn skip_condition(m: StateView, w: u16) -> bool {
    let x = nib2(w) as int;
    let y = nib3(w) as int;
    if nib1(w) == 0x3 {
        m.regs[x] == imm_nn(w)
    } else if nib1(w) == 0x4 {
        m.regs[x] != imm_nn(w)
    } else if nib1(w) == 0x5 {
        m.regs[x] == m.regs[y]
    } else {
        m.regs[x] != m.regs[y]
    }
}

/// The word a step would fetch at the program counter.
pub open spec fn fetched_word(m: StateView) -> u16 {
    (m.mem[m.pc as int] * 256 + m.mem[m.pc + 1]) as u16
}

/// Skip instructions advance the program counter by exactly four bytes in
/// total when their condition holds (two for the fetch, two for the skip)
/// and by exactly two when it does not.
pub proof fn lemma_skip_advance(m: StateView, rand: u8, keys: u16, q: Quirks)
    requires
        crate::machine::view_wf(m),
        m.pc + 2 <= MEM_SIZE,
        nib1(fetched_word(m)) == 0x3 || nib1(fetched_word(m)) == 0x4 || (nib1(fetched_word(m))
            == 0x5 && nib4(fetched_word(m)) == 0x0) || (nib1(fetched_word(m)) == 0x9 && nib4(
            fetched_word(m),
        ) == 0x0),
    ensures
        spec_step(m, rand, keys, q) is Ok,
        spec_step(m, rand, keys, q)->Ok_0.pc == if skip_condition(m, fetched_word(m)) {
            m.pc + 4
        } else {
            m.pc + 2
        },
{
    reveal(spec_execute);
    let w = fetched_word(m);
    let m2 = StateView { pc: pc_plus2(m.pc), ..m };
    assert(m2.pc == m.pc + 2);
    assert(skip_condition(m2, w) == skip_condition(m, w));
}

} // verus!
