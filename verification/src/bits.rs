//! Bit selection helpers, written over division and remainder so that
//! specifications and executable code share one definition.

use vstd::prelude::*;

verus! {

/// 2^e for the bit positions of a 16-bit word.
pub open spec fn pow2(e: int) -> int {
    if e == 0 {
        1
    } else if e == 1 {
        2
    } else if e == 2 {
        4
    } else if e == 3 {
        8
    } else if e == 4 {
        16
    } else if e == 5 {
        32
    } else if e == 6 {
        64
    } else if e == 7 {
        128
    } else if e == 8 {
        256
    } else if e == 9 {
        512
    } else if e == 10 {
        1024
    } else if e == 11 {
        2048
    } else if e == 12 {
        4096
    } else if e == 13 {
        8192
    } else if e == 14 {
        16384
    } else if e == 15 {
        32768
    } else {
        0
    }
}

/// 2^e as executable code.
pub fn pow2_u16(e: u16) -> (r: u16)
    requires
        e < 16,
    ensures
        r == pow2(e as int),
{
    if e == 0 {
        1
    } else if e == 1 {
        2
    } else if e == 2 {
        4
    } else if e == 3 {
        8
    } else if e == 4 {
        16
    } else if e == 5 {
        32
    } else if e == 6 {
        64
    } else if e == 7 {
        128
    } else if e == 8 {
        256
    } else if e == 9 {
        512
    } else if e == 10 {
        1024
    } else if e == 11 {
        2048
    } else if e == 12 {
        4096
    } else if e == 13 {
        8192
    } else if e == 14 {
        16384
    } else {
        32768
    }
}

/// Bit `j` of byte `b`, counted from the most significant bit down.
pub open spec fn byte_bit(b: u8, j: int) -> bool
    recommends
        0 <= j < 8,
{
    (b as int / pow2(7 - j)) % 2 == 1
}

/// Bit `j` of byte `b`, most significant bit first, as executable code.
pub fn test_byte_bit(b: u8, j: u8) -> (r: bool)
    requires
        j < 8,
    ensures
        r == byte_bit(b, j as int),
{
    let mask = pow2_u16(7 - j as u16);
    assert(mask == pow2(7 - j as int));
    assert(1 <= mask <= 128);
    ((b as u16) / mask) % 2 == 1
}

} // verus!
