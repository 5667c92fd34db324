//! Command bytes.
//!
//! There is no single "set the colours" command: there are three, with
//! different payload layouts.

use vstd::prelude::*;

verus! {

/// Write the 128-byte config block.
pub const WRITE_CONFIG: u8 = 0x04;

/// Read the 128-byte config block.
pub const READ_CONFIG: u8 = 0x84;

/// Static per-key colours. 384 bytes, planar, persists across reboots.
///
/// Renders one frame correctly, but repeated writes blank the whole board
/// including the charging indicator. Never used for animation.
pub const WRITE_STATIC: u8 = 0x06;

/// Read back the static colour table.
pub const READ_STATIC: u8 = 0x86;

/// Live streaming. 378 bytes, interleaved RGB. The animation path.
pub const STREAM: u8 = 0x08;

/// Solid single colour: the firmware takes one colour and paints every key.
pub const WRITE_SOLID: u8 = 0x0a;

/// Key matrix table: 4 bytes per entry, HID usage code in byte 3.
pub const READ_MATRIX: u8 = 0x83;

} // verus!
