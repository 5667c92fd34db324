//! AULA F75 wired protocol.
//!
//! Packet layout (HID feature report, 520 bytes):
//!
//! ```text
//! byte 0      report id, always 0x06
//! byte 1      command
//! bytes 2..5  address (always 00 00 01 00 for colour and config)
//! bytes 6..7  payload length, little-endian
//! bytes 8..   payload, zero padded to 512
//! ```

pub mod cmd;
pub mod mode;

use vstd::prelude::*;

use crate::device::{DeviceId, Link};

verus! {

/// Wired USB-C mode. The 2.4 GHz receiver and Bluetooth do not expose this.
pub const VENDOR_ID: u16 = 0x258a;

pub const PRODUCT_ID: u16 = 0x010c;

pub const REPORT_ID: u8 = 0x06;

pub const HEADER_LEN: usize = 8;

pub const PAYLOAD_LEN: usize = 512;

pub const PACKET_LEN: usize = 520;

/// Colour and config share this address; the command selects the region.
///
/// `WRITE_SOLID` at `00 00 00 00` targets a staging buffer that accepts
/// writes and reads them back byte-perfect while driving nothing at all, so a
/// flawless round-trip there proves nothing.
pub const ADDR: [u8; 4] = [0x00, 0x00, 0x01, 0x00];

pub const CONFIG_LEN: usize = 128;

/// Static path: 128 slots of 3 bytes, planar (all R, then all G, then all B).
pub const STATIC_LEN: usize = 384;

pub const STATIC_SLOTS: usize = 128;

/// Streaming path: 126 slots of 3 bytes, interleaved.
pub const STREAM_LEN: usize = 378;

pub const STREAM_SLOTS: usize = 126;

/// Sustainable frame rate over the cable.
///
/// The vendor driver streams at 21.5 FPS with 46.5 ms between writes. Pushing
/// harder starves the 8051's key-scanning loop: the keyboard stops responding
/// to keypresses until it is replugged.
pub const MAX_FPS: u32 = 21;

pub const MIN_FRAME_GAP_MS: u64 = 40;

/// A config write triggers an asynchronous repaint inside the firmware that
/// lands hundreds of milliseconds later and overwrites whatever frame was sent
/// in the meantime. Wait this long after one before streaming.
pub const CONFIG_SETTLE_MS: u64 = 400;

/// Resend an unchanged frame after this long, in case the firmware has
/// repainted behind the driver.
pub const KEEPALIVE_MS: u64 = 2000;

/// A valid config block ends with this signature.
///
/// The firmware returns truncated, mostly-zero buffers while it is busy.
/// Since setting the mode is read-modify-write, accepting a glitched read
/// would write zeros over the entire config block.
pub const CONFIG_MAGIC: [u8; 2] = [0x5a, 0xa5];

/// The full config block captured from the vendor driver at the moment its
/// per-key apply worked.
///
/// Written verbatim rather than patching individual bytes: writing a
/// known-good whole block avoids depending on the rest of the block being in a
/// sane state.
pub const PER_KEY_CONFIG: [u8; 128] = [
    0x00, 0x03, 0x03, 0x01, 0x00, 0x00, 0x04, 0x04, 0x07, 0x01, 0x15, 0x20,
    0x01, 0x00, 0x00, 0x00, 0x00, 0x00, 0x01, 0x00, 0x02, 0x01, 0x00, 0xff,
    0x0a, 0x00, 0x01, 0x00, 0x01, 0x00, 0x03, 0x01, 0x00, 0x00, 0x00, 0x00,
    0x00, 0x00, 0x00, 0x00, 0x00, 0x00, 0x00, 0x00, 0x00, 0x00, 0x00, 0x00,
    0x00, 0x00, 0x00, 0x00, 0x00, 0x00, 0x00, 0x00, 0xff, 0xff, 0x09, 0x47,
    0x09, 0x47, 0x09, 0x47, 0x09, 0x47, 0x09, 0x47, 0x09, 0x47, 0x09, 0x47,
    0x09, 0x47, 0x09, 0x47, 0x09, 0x47, 0x09, 0x47, 0x09, 0x47, 0x09, 0x47,
    0x09, 0x47, 0x09, 0x47, 0x09, 0x37, 0x09, 0x37, 0x09, 0x37, 0x09, 0x37,
    0x07, 0x47, 0x07, 0x47, 0x07, 0x44, 0x07, 0x44, 0x07, 0x44, 0x07, 0x44,
    0x07, 0x44, 0x07, 0x44, 0x07, 0x44, 0x04, 0x09, 0x04, 0x04, 0x04, 0x04,
    0x04, 0x04, 0x04, 0x04, 0x04, 0x04, 0x5a, 0xa5,
];

/// The least time between two colour writes on a link.
///
/// The cable's floor is the vendor driver's measured 46 ms. A link that is not
/// the cable gets twice that: the radio times out writes a cable never would.
pub open spec fn spec_min_frame_gap_ms(link: Link) -> u64 {
    match link {
        Link::Wired => 46,
        _ => 92,
    }
}

/// The highest frame rate a link sustains.
pub open spec fn spec_max_fps_for(link: Link) -> u32 {
    match link {
        Link::Wired => MAX_FPS,
        _ => 10,
    }
}

/// How long a config write's repaint takes to settle on a link.
pub open spec fn spec_config_settle_ms(link: Link) -> u64 {
    match link {
        Link::Wired => CONFIG_SETTLE_MS,
        _ => 800,
    }
}

pub fn min_frame_gap_ms(link: Link) -> (ms: u64)
    ensures
        ms == spec_min_frame_gap_ms(link),
{
    match link {
        Link::Wired => 46,
        _ => 92,
    }
}

pub fn max_fps_for(link: Link) -> (fps: u32)
    ensures
        fps == spec_max_fps_for(link),
{
    match link {
        Link::Wired => MAX_FPS,
        _ => 10,
    }
}

pub fn config_settle_ms(link: Link) -> (ms: u64)
    ensures
        ms == spec_config_settle_ms(link),
{
    match link {
        Link::Wired => CONFIG_SETTLE_MS,
        _ => 800,
    }
}

/// Built-in known wired devices, and the link each implies.
pub open spec fn spec_known() -> Seq<(DeviceId, Link)> {
    seq![(DeviceId { vid: VENDOR_ID, pid: PRODUCT_ID }, Link::Wired)]
}

pub fn known() -> (k: Vec<(DeviceId, Link)>)
    ensures
        k@ == spec_known(),
{
    let k = vec![(DeviceId::new(VENDOR_ID, PRODUCT_ID), Link::Wired)];
    assert(k@ =~= spec_known());
    k
}

/// The payload bytes a packet carries: the payload's first 512 bytes, then
/// zeros up to 512.
pub open spec fn packet_payload(payload: Option<Seq<u8>>) -> Seq<u8> {
    let p = match payload {
        Some(p) => if p.len() <= PAYLOAD_LEN {
            p
        } else {
            p.take(PAYLOAD_LEN as int)
        },
        None => Seq::empty(),
    };
    p + Seq::new((PAYLOAD_LEN - p.len()) as nat, |i: int| 0u8)
}

/// A 520-byte packet: report id, command, address, little-endian length,
/// then the padded payload.
pub open spec fn spec_packet(cmd: u8, addr: Seq<u8>, len: u16, payload: Option<Seq<u8>>) -> Seq<u8> {
    seq![REPORT_ID, cmd, addr[0], addr[1], addr[2], addr[3], (len % 256) as u8, (len / 256) as u8]
        + packet_payload(payload)
}

/// Build a 520-byte feature-report packet. A payload longer than 512 bytes is
/// cut to 512.
pub fn build_packet(cmd: u8, addr: [u8; 4], len: u16, payload: Option<&[u8]>) -> (pkt: Vec<u8>)
    ensures
        pkt@ == spec_packet(cmd, addr@, len, match payload {
            Some(p) => Some(p@),
            None => None,
        }),
        pkt@.len() == PACKET_LEN,
{
    let mut pkt: Vec<u8> = Vec::with_capacity(PACKET_LEN);
    pkt.push(REPORT_ID);
    pkt.push(cmd);
    pkt.push(addr[0]);
    pkt.push(addr[1]);
    pkt.push(addr[2]);
    pkt.push(addr[3]);
    pkt.push((len % 256) as u8);
    pkt.push((len / 256) as u8);
    let ghost head = pkt@;
    let ghost pv = match payload {
        Some(p) => Some(p@),
        None => None,
    };
    let ghost body = match pv {
        Some(p) => if p.len() <= PAYLOAD_LEN {
            p
        } else {
            p.take(PAYLOAD_LEN as int)
        },
        None => Seq::<u8>::empty(),
    };
    let n: usize = match payload {
        Some(p) => if p.len() < PAYLOAD_LEN {
            p.len()
        } else {
            PAYLOAD_LEN
        },
        None => 0,
    };
    assert(body.len() == n);
    let mut i: usize = 0;
    while i < n
        invariant
            i <= n,
            n == body.len(),
            n <= PAYLOAD_LEN,
            head.len() == HEADER_LEN,
            pkt@ == head + body.take(i as int),
            payload matches Some(p) ==> n <= p@.len() && (forall|j: int| 0 <= j < n ==> body[j] == p@[j]),
            payload is None ==> n == 0,
        decreases n - i,
    {
        match payload {
            Some(p) => {
                pkt.push(p[i]);
            },
            None => {},
        }
        i = i + 1;
        assert(pkt@ =~= head + body.take(i as int));
    }
    while i < PAYLOAD_LEN
        invariant
            n <= i <= PAYLOAD_LEN,
            n == body.len(),
            head.len() == HEADER_LEN,
            pkt@ == head + body + Seq::new((i - n) as nat, |j: int| 0u8),
        decreases PAYLOAD_LEN - i,
    {
        pkt.push(0);
        i = i + 1;
        assert(pkt@ =~= head + body + Seq::new((i - n) as nat, |j: int| 0u8));
    }
    assert(body.take(n as int) =~= body);
    assert(pkt@ =~= spec_packet(cmd, addr@, len, pv));
    pkt
}

/// Does this block look like a real config read: the right length, ending in
/// the signature?
pub open spec fn spec_valid_config(cfg: Seq<u8>) -> bool {
    &&& cfg.len() == CONFIG_LEN
    &&& cfg[CONFIG_LEN - 2] == CONFIG_MAGIC[0]
    &&& cfg[CONFIG_LEN - 1] == CONFIG_MAGIC[1]
}

pub fn is_valid_config(cfg: &[u8]) -> (ok: bool)
    ensures
        ok == spec_valid_config(cfg@),
{
    cfg.len() == CONFIG_LEN && cfg[CONFIG_LEN - 2] == CONFIG_MAGIC[0] && cfg[CONFIG_LEN - 1]
        == CONFIG_MAGIC[1]
}

/// The three mode bytes of a config block select per-key mode.
pub open spec fn spec_is_per_key(cfg: Seq<u8>) -> bool {
    &&& cfg[mode::OFF_A as int] == mode::PER_KEY[0]
    &&& cfg[mode::OFF_B as int] == mode::PER_KEY[1]
    &&& cfg[mode::OFF_C as int] == mode::PER_KEY[2]
}

/// Whether a config block has the board in per-key mode.
pub fn is_per_key(cfg: &[u8]) -> (b: bool)
    requires
        cfg@.len() == CONFIG_LEN,
    ensures
        b == spec_is_per_key(cfg@),
{
    cfg[mode::OFF_A] == mode::PER_KEY[0] && cfg[mode::OFF_B] == mode::PER_KEY[1]
        && cfg[mode::OFF_C] == mode::PER_KEY[2]
}

/// The embedded block is itself a valid config block, and selects per-key
/// mode: writing it can never be refused by the signature check, and it does
/// what it is written for.
pub proof fn lemma_per_key_config_is_valid()
    ensures
        spec_valid_config(PER_KEY_CONFIG@),
        spec_is_per_key(PER_KEY_CONFIG@),
{
}

} // verus!
