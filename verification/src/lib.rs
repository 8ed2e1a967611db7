//! A verified CHIP-8 interpreter core.
//!
//! The library models the machine state (memory, registers, call stack,
//! timers, display), the fetch-decode-execute cycle with its quirk variants,
//! the sprite-drawing engine, and the timing accumulator that paces
//! execution. Window handling, keyboard mapping, program loading from disk
//! and option parsing live outside the library.

pub mod arraystack;
pub mod bits;
pub mod draw;
pub mod exec;
pub mod font;
pub mod machine;
pub mod pacer;
