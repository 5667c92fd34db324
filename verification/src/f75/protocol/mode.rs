//! Config bytes that select the lighting mode.
//!
//! All three matter: with only the first two set the board goes completely
//! dark, indicator included. Byte 59 is the first effect entry's speed and
//! colour nibble, and differs between the two modes.

use vstd::prelude::*;

verus! {

pub const OFF_A: usize = 9;

pub const OFF_B: usize = 10;

pub const OFF_C: usize = 59;

pub const PER_KEY: [u8; 3] = [0x01, 0x15, 0x47];

pub const SOLID: [u8; 3] = [0x00, 0x01, 0x40];

} // verus!
