//! What can go wrong talking to a board, as values.

use vstd::prelude::*;

use crate::device::DeviceId;

verus! {

/// Errors the drivers decide on. Transport failures are the caller's own.
#[derive(Debug)]
pub enum Error {
    /// No board was found among this many known device ids.
    NotFound { searched: usize },
    /// Matching hardware, but none of its vendor collections accepted the
    /// RGB protocol.
    NoRgbInterface { vendor_collections: usize, last: Option<String> },
    /// The device at this path is gone; it was probably unplugged.
    PathGone { path: String },
    /// A config write was refused on a device nothing has confirmed as an
    /// AULA board: it is non-volatile and would change stored settings.
    UnverifiedDevice { id: DeviceId },
    /// A config read came back without the `5A A5` signature; these are the
    /// last two bytes it had instead.
    BadConfigRead { magic: [u8; 2] },
    /// A config block that fails the signature check was not written.
    RefusedConfigWrite,
}

} // verus!
