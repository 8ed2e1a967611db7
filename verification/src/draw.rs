//! The sprite engine: XOR drawing with collision detection and clipping.
//!
//! A sprite is `n` consecutive memory bytes; row `r`, bit `j` (most
//! significant bit first) targets pixel `(x0 + j, y0 + r)`. Pixels outside
//! the display are clipped, never wrapped. Every 1-bit flips its target
//! pixel; the collision flag reports whether any pixel went from on to off.

use vstd::prelude::*;

use crate::bits::{byte_bit, test_byte_bit};
use crate::machine::{Chip8Error, Machine, StateView, HEIGHT, MEM_SIZE, WIDTH};

verus! {

/// Whether the sprite at origin `(x0, y0)` puts a 1-bit on the in-bounds
/// pixel `(x, y)`.
pub open spec fn sprite_covers(sprite: Seq<u8>, x0: int, y0: int, x: int, y: int) -> bool {
    &&& 0 <= x < WIDTH
    &&& 0 <= y < HEIGHT
    &&& y0 <= y < y0 + sprite.len()
    &&& x0 <= x < x0 + 8
    &&& byte_bit(sprite[y - y0], x - x0)
}

/// `sprite_covers` for the pixel at index `p` of the row-by-row display.
pub open spec fn covers_pixel(sprite: Seq<u8>, x0: int, y0: int, p: int) -> bool {
    sprite_covers(sprite, x0, y0, p % (WIDTH as int), p / (WIDTH as int))
}

/// The display after drawing: every covered pixel is flipped.
pub open spec fn draw_disp(disp: Seq<bool>, sprite: Seq<u8>, x0: int, y0: int) -> Seq<bool> {
    Seq::new(disp.len(), |p: int| disp[p] != covers_pixel(sprite, x0, y0, p))
}

/// Whether drawing turns any pixel from on to off: a covered pixel that was
/// already lit.
pub open spec fn draw_collision(disp: Seq<bool>, sprite: Seq<u8>, x0: int, y0: int) -> bool {
    exists|p: int| 0 <= p < disp.len() && disp[p] && #[trigger] covers_pixel(sprite, x0, y0, p)
}

/// The `n` sprite bytes in memory at the index register.
pub open spec fn sprite_rows(m: StateView, n: int) -> Seq<u8> {
    m.mem.subrange(m.index as int, m.index + n)
}

/// The pixels already processed after `rows_done` full sprite rows and
/// `bits_done` bits of the next row.
pub open spec fn covers_partial(
    sprite: Seq<u8>,
    x0: int,
    y0: int,
    p: int,
    rows_done: int,
    bits_done: int,
) -> bool {
    let x = p % (WIDTH as int);
    let y = p / (WIDTH as int);
    covers_pixel(sprite, x0, y0, p) && (y - y0 < rows_done || (y - y0 == rows_done && x - x0
        < bits_done))
}

/// Drawing the same sprite at the same origin twice restores the display,
/// and the second draw reports a collision exactly when some covered pixel
/// was off before the first draw (the first draw lit it, the second draw
/// turns it off again).
pub proof fn lemma_draw_twice_restores(disp: Seq<bool>, sprite: Seq<u8>, x0: int, y0: int)
    ensures
        draw_disp(draw_disp(disp, sprite, x0, y0), sprite, x0, y0) =~= disp,
        draw_collision(draw_disp(disp, sprite, x0, y0), sprite, x0, y0) == (exists|p: int|
            0 <= p < disp.len() && !disp[p] && #[trigger] covers_pixel(sprite, x0, y0, p)),
{
    let d1 = draw_disp(disp, sprite, x0, y0);
    assert(forall|p: int|
        0 <= p < disp.len() ==> d1[p] == (disp[p] != #[trigger] covers_pixel(sprite, x0, y0, p)));
    assert(draw_collision(d1, sprite, x0, y0) ==> (exists|p: int|
        0 <= p < disp.len() && !disp[p] && #[trigger] covers_pixel(sprite, x0, y0, p))) by {
        if draw_collision(d1, sprite, x0, y0) {
            let p = choose|p: int|
                0 <= p < d1.len() && d1[p] && #[trigger] covers_pixel(sprite, x0, y0, p);
            assert(0 <= p < disp.len() && !disp[p] && covers_pixel(sprite, x0, y0, p));
        }
    };
    assert((exists|p: int|
        0 <= p < disp.len() && !disp[p] && #[trigger] covers_pixel(sprite, x0, y0, p))
        ==> draw_collision(d1, sprite, x0, y0)) by {
        if exists|p: int|
            0 <= p < disp.len() && !disp[p] && #[trigger] covers_pixel(sprite, x0, y0, p) {
            let p = choose|p: int|
                0 <= p < disp.len() && !disp[p] && #[trigger] covers_pixel(sprite, x0, y0, p);
            assert(0 <= p < d1.len() && d1[p] && covers_pixel(sprite, x0, y0, p));
        }
    };
}

impl Machine {
    /// Draws the `n`-byte sprite held in memory at the index register, at
    /// origin `(x0, y0)`, which the caller has already reduced modulo the
    /// display size. Fails, changing nothing, if the sprite bytes would be
    /// read past the end of memory; otherwise flips every covered pixel and
    /// writes the collision flag into VF.
    pub fn draw_sprite(&mut self, x0: usize, y0: usize, n: usize) -> (r: Result<(), Chip8Error>)
        requires
            old(self).wf(),
            x0 < WIDTH,
            y0 < HEIGHT,
            n <= 15,
        ensures
            final(self).wf(),
            final(self).quirks == old(self).quirks,
            old(self)@.index + n > MEM_SIZE ==> r == Err::<(), Chip8Error>(
                Chip8Error::SpriteOutOfBounds,
            ) && final(self)@ == old(self)@,
            old(self)@.index + n <= MEM_SIZE ==> r is Ok && final(self)@ == (StateView {
                disp: draw_disp(
                    old(self)@.disp,
                    sprite_rows(old(self)@, n as int),
                    x0 as int,
                    y0 as int,
                ),
                regs: old(self)@.regs.update(
                    15,
                    if draw_collision(
                        old(self)@.disp,
                        sprite_rows(old(self)@, n as int),
                        x0 as int,
                        y0 as int,
                    ) {
                        1u8
                    } else {
                        0u8
                    },
                ),
                ..old(self)@
            }),
    {
        let index = self.index_register as usize;
        if index > MEM_SIZE - n {
            return Err(Chip8Error::SpriteOutOfBounds);
        }
        let ghost sprite = sprite_rows(self@, n as int);
        let ghost disp0 = self.display@;
        let mut collision: bool = false;
        let row_count: usize = if n < HEIGHT - y0 {
            n
        } else {
            HEIGHT - y0
        };
        let mut r: usize = 0;
        while r < row_count
            invariant
                self.wf(),
                x0 < WIDTH,
                y0 < HEIGHT,
                n <= 15,
                index == old(self).index_register as usize,
                index + n <= MEM_SIZE,
                row_count == if n < HEIGHT - y0 {
                    n as int
                } else {
                    HEIGHT - y0
                },
                r <= row_count,
                self.memory@ == old(self).memory@,
                self.program_counter == old(self).program_counter,
                self.index_register == old(self).index_register,
                self.stack == old(self).stack,
                self.variable_registers@ == old(self).variable_registers@,
                self.delay_timer == old(self).delay_timer,
                self.sound_timer == old(self).sound_timer,
                self.quirks == old(self).quirks,
                disp0 == old(self).display@,
                disp0.len() == WIDTH * HEIGHT,
                self.display@.len() == disp0.len(),
                sprite == sprite_rows(old(self)@, n as int),
                sprite.len() == n,
                forall|p: int|
                    0 <= p < disp0.len() ==> self.display@[p] == (disp0[p] != covers_partial(
                        sprite,
                        x0 as int,
                        y0 as int,
                        p,
                        r as int,
                        0,
                    )),
                collision ==> draw_collision(disp0, sprite, x0 as int, y0 as int),
                !collision ==> forall|p: int|
                    0 <= p < disp0.len() && covers_partial(sprite, x0 as int, y0 as int, p, r as int, 0)
                        ==> !disp0[p],
            decreases row_count - r,
        {
            let row_byte = self.memory[index + r];
            assert(row_byte == sprite[r as int]);
            let bit_count: usize = if 8 < WIDTH - x0 {
                8
            } else {
                WIDTH - x0
            };
            let mut i: usize = 0;
            while i < bit_count
                invariant
                    self.wf(),
                    x0 < WIDTH,
                    y0 < HEIGHT,
                    n <= 15,
                    index == old(self).index_register as usize,
                    index + n <= MEM_SIZE,
                    row_count == if n < HEIGHT - y0 {
                        n as int
                    } else {
                        HEIGHT - y0
                    },
                    r < row_count,
                    bit_count == if 8 < WIDTH - x0 {
                        8int
                    } else {
                        WIDTH - x0
                    },
                    i <= bit_count,
                    self.memory@ == old(self).memory@,
                    self.program_counter == old(self).program_counter,
                    self.index_register == old(self).index_register,
                    self.stack == old(self).stack,
                    self.variable_registers@ == old(self).variable_registers@,
                    self.delay_timer == old(self).delay_timer,
                    self.sound_timer == old(self).sound_timer,
                    self.quirks == old(self).quirks,
                    disp0 == old(self).display@,
                    disp0.len() == WIDTH * HEIGHT,
                    self.display@.len() == disp0.len(),
                    sprite == sprite_rows(old(self)@, n as int),
                    sprite.len() == n,
                    row_byte == sprite[r as int],
                    forall|p: int|
                        0 <= p < disp0.len() ==> self.display@[p] == (disp0[p] != covers_partial(
                            sprite,
                            x0 as int,
                            y0 as int,
                            p,
                            r as int,
                            i as int,
                        )),
                    collision ==> draw_collision(disp0, sprite, x0 as int, y0 as int),
                    !collision ==> forall|p: int|
                        0 <= p < disp0.len() && covers_partial(
                            sprite,
                            x0 as int,
                            y0 as int,
                            p,
                            r as int,
                            i as int,
                        ) ==> !disp0[p],
                decreases bit_count - i,
            {
                let ghost px = x0 as int + i as int;
                let ghost py = y0 as int + r as int;
                proof {
                    assert(0 <= px < WIDTH && 0 <= py < HEIGHT);
                    assert((py * 64 + px) % 64 == px && (py * 64 + px) / 64 == py)
                        by (nonlinear_arith)
                        requires
                            0 <= px < 64,
                            0 <= py,
                    ;
                }
                if test_byte_bit(row_byte, i as u8) {
                    let p = (y0 + r) * WIDTH + (x0 + i);
                    proof {
                        assert(p == py * 64 + px);
                        assert(p as int % (WIDTH as int) == px && p as int / (WIDTH as int) == py);
                        assert(covers_pixel(sprite, x0 as int, y0 as int, p as int));
                        assert(!covers_partial(
                            sprite,
                            x0 as int,
                            y0 as int,
                            p as int,
                            r as int,
                            i as int,
                        ));
                    }
                    let before = self.display[p];
                    assert(before == disp0[p as int]);
                    self.display[p] = !before;
                    if before {
                        collision = true;
                        assert(draw_collision(disp0, sprite, x0 as int, y0 as int));
                    }
                    proof {
                        assert forall|q: int|
                            0 <= q < disp0.len() implies self.display@[q] == (disp0[q]
                            != covers_partial(
                            sprite,
                            x0 as int,
                            y0 as int,
                            q,
                            r as int,
                            i + 1,
                        )) by {
                            if q != p {
                                assert(q == (WIDTH as int) * (q / (WIDTH as int)) + q % (
                                WIDTH as int));
                                assert(covers_partial(sprite, x0 as int, y0 as int, q, r as int, i + 1)
                                    == covers_partial(
                                    sprite,
                                    x0 as int,
                                    y0 as int,
                                    q,
                                    r as int,
                                    i as int,
                                ));
                            }
                        }
                        if !collision {
                            assert forall|q: int|
                                0 <= q < disp0.len() && covers_partial(
                                    sprite,
                                    x0 as int,
                                    y0 as int,
                                    q,
                                    r as int,
                                    i + 1,
                                ) implies !disp0[q] by {
                                if q != p {
                                    assert(q == (WIDTH as int) * (q / (WIDTH as int)) + q % (
                                    WIDTH as int));
                                } else {
                                    assert(!before);
                                }
                            }
                        }
                    }
                } else {
                    proof {
                        assert forall|q: int|
                            0 <= q < disp0.len() implies covers_partial(
                            sprite,
                            x0 as int,
                            y0 as int,
                            q,
                            r as int,
                            i + 1,
                        ) == covers_partial(
                            sprite,
                            x0 as int,
                            y0 as int,
                            q,
                            r as int,
                            i as int,
                        ) by {
                            assert(q == (WIDTH as int) * (q / (WIDTH as int)) + q % (WIDTH as int));
                        }
                    }
                }
                i += 1;
            }
            proof {
                assert forall|q: int|
                    0 <= q < disp0.len() implies covers_partial(
                    sprite,
                    x0 as int,
                    y0 as int,
                    q,
                    r + 1,
                    0,
                ) == covers_partial(
                    sprite,
                    x0 as int,
                    y0 as int,
                    q,
                    r as int,
                    bit_count as int,
                ) by {}
            }
            r += 1;
        }
        proof {
            assert forall|q: int|
                0 <= q < disp0.len() implies covers_partial(
                sprite,
                x0 as int,
                y0 as int,
                q,
                row_count as int,
                0,
            ) == covers_pixel(sprite, x0 as int, y0 as int, q) by {
                assert(q == (WIDTH as int) * (q / (WIDTH as int)) + q % (WIDTH as int));
            }
            assert(self.display@ =~= draw_disp(disp0, sprite, x0 as int, y0 as int));
            if !collision {
                assert(!draw_collision(disp0, sprite, x0 as int, y0 as int)) by {
                    if draw_collision(disp0, sprite, x0 as int, y0 as int) {
                        let q = choose|q: int|
                            0 <= q < disp0.len() && disp0[q] && #[trigger] covers_pixel(
                                sprite,
                                x0 as int,
                                y0 as int,
                                q,
                            );
                        assert(covers_partial(
                            sprite,
                            x0 as int,
                            y0 as int,
                            q,
                            row_count as int,
                            0,
                        ));
                    }
                };
            }
        }
        self.variable_registers[15] = if collision {
            1
        } else {
            0
        };
        proof {
            assert(self@ =~= (StateView {
                disp: draw_disp(
                    old(self)@.disp,
                    sprite_rows(old(self)@, n as int),
                    x0 as int,
                    y0 as int,
                ),
                regs: old(self)@.regs.update(
                    15,
                    if draw_collision(
                        old(self)@.disp,
                        sprite_rows(old(self)@, n as int),
                        x0 as int,
                        y0 as int,
                    ) {
                        1u8
                    } else {
                        0u8
                    },
                ),
                ..old(self)@
            }));
        }
        Ok(())
    }
}

} // verus!
