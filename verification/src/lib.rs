//! Verified core of the AULA F75 lighting toolkit: colours, frames, the key
//! map, both wire protocols (wired feature reports and the 2.4 GHz receiver's
//! output reports), device selection, and the small data model the effect
//! engine and the desktop front end share.

pub mod color;
pub mod desktop;
pub mod device;
pub mod dongle;
pub mod editor;
pub mod effects;
pub mod engine;
pub mod error;
pub mod f75;
pub mod pacing;
pub mod text;
pub mod transport;
