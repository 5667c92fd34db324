//! Command families of the receiver's output reports.

use vstd::prelude::*;

verus! {

/// Per-key colour painting. Its length byte carries a `0x10` flag.
///
/// Volatile: it paints, it stores nothing. This is the only command the
/// receiver driver sends.
pub const LIGHTING: u8 = 0x88;

/// Writes the 128-byte config block. **Never sent.**
///
/// Kept as documentation of what was decoded, not as something to call.
/// Writing a config block assembled from the wired protocol's bytes stopped
/// a keyboard typing and needed a firmware reflash.
pub const WRITE_CONFIG: u8 = 0x04;

} // verus!
