//! The built-in font: 16 glyphs of 5 bytes each, one per hexadecimal digit,
//! held in memory at a fixed base address.

use vstd::prelude::*;

verus! {

/// First memory address of the built-in font.
pub const FONT_START: usize = 0x050;

/// Bytes per font glyph.
pub const FONT_CHAR_SIZE_BYTES: usize = 5;

/// The five rows of the glyph for hexadecimal digit `d`.
pub open spec fn font_rows(d: int) -> (u8, u8, u8, u8, u8) {
    if d == 0x0 {
        (0xF0, 0x90, 0x90, 0x90, 0xF0)
    } else if d == 0x1 {
        (0x20, 0x60, 0x20, 0x20, 0x70)
    } else if d == 0x2 {
        (0xF0, 0x10, 0xF0, 0x80, 0xF0)
    } else if d == 0x3 {
        (0xF0, 0x10, 0xF0, 0x10, 0xF0)
    } else if d == 0x4 {
        (0x90, 0x90, 0xF0, 0x10, 0x10)
    } else if d == 0x5 {
        (0xF0, 0x80, 0xF0, 0x10, 0xF0)
    } else if d == 0x6 {
        (0xF0, 0x80, 0xF0, 0x90, 0xF0)
    } else if d == 0x7 {
        (0xF0, 0x10, 0x20, 0x40, 0x40)
    } else if d == 0x8 {
        (0xF0, 0x90, 0xF0, 0x90, 0xF0)
    } else if d == 0x9 {
        (0xF0, 0x90, 0xF0, 0x10, 0xF0)
    } else if d == 0xA {
        (0xF0, 0x90, 0xF0, 0x90, 0x90)
    } else if d == 0xB {
        (0xE0, 0x90, 0xE0, 0x90, 0xE0)
    } else if d == 0xC {
        (0xF0, 0x80, 0x80, 0x80, 0xF0)
    } else if d == 0xD {
        (0xE0, 0x90, 0x90, 0x90, 0xE0)
    } else if d == 0xE {
        (0xF0, 0x80, 0xF0, 0x80, 0xF0)
    } else {
        (0xF0, 0x80, 0xF0, 0x80, 0x80)
    }
}

/// Row `r` of the glyph for hexadecimal digit `d`.
pub open spec fn font_byte(d: int, r: int) -> u8 {
    let rows = font_rows(d);
    if r == 0 {
        rows.0
    } else if r == 1 {
        rows.1
    } else if r == 2 {
        rows.2
    } else if r == 3 {
        rows.3
    } else {
        rows.4
    }
}

/// A memory image holds the font when every glyph row sits at its address.
pub open spec fn font_loaded(mem: Seq<u8>) -> bool {
    forall|d: int, r: int|
        0 <= d < 16 && 0 <= r < 5 ==> mem[FONT_START + FONT_CHAR_SIZE_BYTES * d + r] == font_byte(
            d,
            r,
        )
}

/// Row `r` of the glyph for digit `d`, as executable code.
pub fn glyph_byte(d: u8, r: u8) -> (b: u8)
    requires
        d < 16,
        r < 5,
    ensures
        b == font_byte(d as int, r as int),
{
    let rows: (u8, u8, u8, u8, u8) = if d == 0x0 {
        (0xF0, 0x90, 0x90, 0x90, 0xF0)
    } else if d == 0x1 {
        (0x20, 0x60, 0x20, 0x20, 0x70)
    } else if d == 0x2 {
        (0xF0, 0x10, 0xF0, 0x80, 0xF0)
    } else if d == 0x3 {
        (0xF0, 0x10, 0xF0, 0x10, 0xF0)
    } else if d == 0x4 {
        (0x90, 0x90, 0xF0, 0x10, 0x10)
    } else if d == 0x5 {
        (0xF0, 0x80, 0xF0, 0x10, 0xF0)
    } else if d == 0x6 {
        (0xF0, 0x80, 0xF0, 0x90, 0xF0)
    } else if d == 0x7 {
        (0xF0, 0x10, 0x20, 0x40, 0x40)
    } else if d == 0x8 {
        (0xF0, 0x90, 0xF0, 0x90, 0xF0)
    } else if d == 0x9 {
        (0xF0, 0x90, 0xF0, 0x10, 0xF0)
    } else if d == 0xA {
        (0xF0, 0x90, 0xF0, 0x90, 0x90)
    } else if d == 0xB {
        (0xE0, 0x90, 0xE0, 0x90, 0xE0)
    } else if d == 0xC {
        (0xF0, 0x80, 0x80, 0x80, 0xF0)
    } else if d == 0xD {
        (0xE0, 0x90, 0x90, 0x90, 0xE0)
    } else if d == 0xE {
        (0xF0, 0x80, 0xF0, 0x80, 0xF0)
    } else {
        (0xF0, 0x80, 0xF0, 0x80, 0x80)
    };
    if r == 0 {
        rows.0
    } else if r == 1 {
        rows.1
    } else if r == 2 {
        rows.2
    } else if r == 3 {
        rows.3
    } else {
        rows.4
    }
}

} // verus!
