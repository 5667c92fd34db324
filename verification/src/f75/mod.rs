//! AULA F75 wired driver state.
//!
//! Sending packets and sleeping is the caller's job. What is decided here is
//! what each write carries, how long to wait before it, when an unchanged
//! frame may be skipped, and whether a config write is allowed at all.

pub mod keymap;
pub mod protocol;

use vstd::prelude::*;

use crate::color::{ChannelOrder, Rgb};
use crate::device::{color_at, link_suffix, DeviceId, Frame, KeyPos, Link};
use crate::error::Error;
use crate::pacing::{due, remaining, spec_due, spec_remaining, MICROS_PER_MS};
use crate::text::{push_str, string_from_chars};
use crate::transport::{Confidence, DeviceCandidate, ScanOptions, ScanSpec};

use keymap::{key_view, layout, spec_layout};
use protocol as p;
use protocol::{
    build_packet, is_valid_config, spec_max_fps_for, spec_min_frame_gap_ms, spec_packet,
    spec_valid_config,
};

verus! {

pub const MODEL: &'static str = "AULA F75";

/// The keepalive, in microseconds.
pub const KEEPALIVE_US: u64 = p::KEEPALIVE_MS * MICROS_PER_MS;

/// How many times a config read is tried before giving up: the firmware
/// returns truncated, mostly-zero buffers while it is busy.
pub const CONFIG_READ_ATTEMPTS: usize = 4;

/// Pause between identification reads of a board that has only just been
/// plugged in.
pub const PROBE_RETRY_MS: u64 = 30;

/// The gap to use for a requested frame rate on a link, in milliseconds.
///
/// Only ever slower: the request is clamped to 1..=the link's ceiling (so 0,
/// which is not a rate, lands on the slowest setting rather than dividing by
/// zero), and the gap never drops below the link's floor.
pub open spec fn spec_clamped_gap(requested_fps: u32, link: Link) -> u64 {
    let fps = if requested_fps < 1 {
        1
    } else if requested_fps > spec_max_fps_for(link) {
        spec_max_fps_for(link)
    } else {
        requested_fps
    };
    let gap = 1000u64 / (fps as u64);
    if gap > spec_min_frame_gap_ms(link) {
        gap
    } else {
        spec_min_frame_gap_ms(link)
    }
}

pub fn clamped_gap(requested_fps: u32, link: Link) -> (ms: u64)
    ensures
        ms == spec_clamped_gap(requested_fps, link),
{
    let floor = p::min_frame_gap_ms(link);
    let max = p::max_fps_for(link);
    let fps = if requested_fps < 1 {
        1
    } else if requested_fps > max {
        max
    } else {
        requested_fps
    };
    let gap = 1000 / (fps as u64);
    if gap > floor {
        gap
    } else {
        floor
    }
}

/// A frame-rate request can only ever slow a link down: whatever is asked
/// for, the gap is at least the link's floor and at most a second; a request
/// at or beyond the ceiling lands exactly on the ceiling; zero is treated as
/// the slowest setting.
pub proof fn lemma_clamped_gap_only_slows(requested_fps: u32, link: Link)
    ensures
        spec_clamped_gap(requested_fps, link) >= spec_min_frame_gap_ms(link),
        spec_clamped_gap(requested_fps, link) <= 1000,
        requested_fps >= spec_max_fps_for(link) ==> spec_clamped_gap(requested_fps, link)
            == spec_clamped_gap(spec_max_fps_for(link), link),
        spec_clamped_gap(0, link) == 1000,
        spec_clamped_gap(1, link) == 1000,
{
    let fps: u32 = if requested_fps < 1 {
        1
    } else if requested_fps > spec_max_fps_for(link) {
        spec_max_fps_for(link)
    } else {
        requested_fps
    };
    assert(1000u64 / (fps as u64) <= 1000) by (nonlinear_arith)
        requires
            fps >= 1,
    ;
    assert(1000u64 / 1u64 == 1000) by (nonlinear_arith);
}

/// The radio is paced more gently than the cable, at any request; strictly
/// more gently once the request is past the radio's ceiling.
pub proof fn lemma_radio_is_gentler(requested_fps: u32)
    ensures
        spec_clamped_gap(requested_fps, Link::Dongle) >= spec_clamped_gap(requested_fps, Link::Wired),
        requested_fps >= 11 ==> spec_clamped_gap(requested_fps, Link::Dongle) > spec_clamped_gap(
            requested_fps,
            Link::Wired,
        ),
{
    let fd: u32 = if requested_fps < 1 {
        1
    } else if requested_fps > 10 {
        10
    } else {
        requested_fps
    };
    let fw: u32 = if requested_fps < 1 {
        1
    } else if requested_fps > 21 {
        21
    } else {
        requested_fps
    };
    assert(1000u64 / (fd as u64) >= 1000u64 / (fw as u64)) by (nonlinear_arith)
        requires
            1 <= fd <= fw,
    ;
    if requested_fps >= 11 {
        assert(1000u64 / (fd as u64) == 100) by (nonlinear_arith)
            requires
                fd == 10,
        ;
        assert(1000u64 / (fw as u64) <= 90) by (nonlinear_arith)
            requires
                fw >= 11,
        ;
    }
}

/// What a scan for this model looks for.
pub fn scan_spec<'a>(opts: &'a ScanOptions) -> (s: ScanSpec<'a>)
    ensures
        s.model == MODEL,
        s.report_id == p::REPORT_ID,
        s.packet_len == p::PACKET_LEN,
        s.known@ == p::spec_known(),
        s.opts == opts,
{
    ScanSpec { model: MODEL, report_id: p::REPORT_ID, packet_len: p::PACKET_LEN, known: p::known(), opts }
}

/// The bytes of a static write: 128 slots, planar (every first channel, then
/// every second, then every third), in the given channel order.
pub open spec fn spec_static_payload(order: ChannelOrder, f: Seq<Rgb>) -> Seq<u8> {
    Seq::new(
        p::STATIC_LEN as nat,
        |j: int| order.wire(color_at(f, j % p::STATIC_SLOTS as int))[j / p::STATIC_SLOTS as int],
    )
}

/// The bytes of a streamed frame: 126 slots, interleaved three bytes a slot,
/// in the given channel order.
pub open spec fn spec_stream_payload(order: ChannelOrder, f: Seq<Rgb>) -> Seq<u8> {
    Seq::new(p::STREAM_LEN as nat, |j: int| order.wire(color_at(f, j / 3))[j % 3])
}

/// Encode a frame for the static path: planar, 128 slots.
pub fn encode_static(order: ChannelOrder, frame: &Frame) -> (buf: Vec<u8>)
    ensures
        buf@ == spec_static_payload(order, frame@),
{
    let mut buf: Vec<u8> = vec![0u8; p::STATIC_LEN];
    let mut i: usize = 0;
    while i < p::STATIC_SLOTS
        invariant
            i <= p::STATIC_SLOTS,
            buf@.len() == p::STATIC_LEN,
            forall|j: int|
                0 <= j < p::STATIC_LEN && (j % (p::STATIC_SLOTS as int)) < i ==> buf@[j] == spec_static_payload(
                    order,
                    frame@,
                )[j],
        decreases p::STATIC_SLOTS - i,
    {
        let w = order.apply(frame.get(i));
        buf.set(i, w[0]);
        buf.set(p::STATIC_SLOTS + i, w[1]);
        buf.set(2 * p::STATIC_SLOTS + i, w[2]);
        proof {
            assert forall|j: int|
                0 <= j < p::STATIC_LEN && (j % (p::STATIC_SLOTS as int)) <= i implies buf@[j] == spec_static_payload(
                order,
                frame@,
            )[j] by {
                if j % (p::STATIC_SLOTS as int) == i {
                    assert(j == i || j == p::STATIC_SLOTS + i || j == 2 * p::STATIC_SLOTS + i);
                }
            }
        }
        i = i + 1;
    }
    assert(buf@ =~= spec_static_payload(order, frame@));
    buf
}

/// Encode a frame for the streaming path: interleaved, 126 slots.
pub fn encode_stream(order: ChannelOrder, frame: &Frame) -> (buf: Vec<u8>)
    ensures
        buf@ == spec_stream_payload(order, frame@),
{
    let mut buf: Vec<u8> = vec![0u8; p::STREAM_LEN];
    let mut i: usize = 0;
    while i < p::STREAM_SLOTS
        invariant
            i <= p::STREAM_SLOTS,
            buf@.len() == p::STREAM_LEN,
            forall|j: int| 0 <= j < 3 * i ==> buf@[j] == spec_stream_payload(order, frame@)[j],
        decreases p::STREAM_SLOTS - i,
    {
        let w = order.apply(frame.get(i));
        buf.set(i * 3, w[0]);
        buf.set(i * 3 + 1, w[1]);
        buf.set(i * 3 + 2, w[2]);
        proof {
            assert forall|j: int| 0 <= j < 3 * (i + 1) implies buf@[j] == spec_stream_payload(order, frame@)[j] by {
                if j >= 3 * i {
                    assert(j / 3 == i as int);
                }
            }
        }
        i = i + 1;
    }
    assert(buf@ =~= spec_stream_payload(order, frame@));
    buf
}

/// The config block inside a read's reply, if the reply is long enough to
/// hold one.
pub open spec fn spec_response_config(resp: Seq<u8>) -> Option<Seq<u8>> {
    if resp.len() >= p::HEADER_LEN + p::CONFIG_LEN {
        Some(resp.subrange(p::HEADER_LEN as int, (p::HEADER_LEN + p::CONFIG_LEN) as int))
    } else {
        None
    }
}

/// The config block inside a read's reply, if the reply is long enough.
pub fn response_config(resp: &[u8]) -> (r: Option<Vec<u8>>)
    ensures
        match r {
            Some(v) => spec_response_config(resp@) == Some(v@),
            None => spec_response_config(resp@) is None,
        },
{
    if resp.len() >= p::HEADER_LEN + p::CONFIG_LEN {
        let mut v: Vec<u8> = Vec::new();
        let mut i: usize = p::HEADER_LEN;
        while i < p::HEADER_LEN + p::CONFIG_LEN
            invariant
                p::HEADER_LEN <= i <= p::HEADER_LEN + p::CONFIG_LEN,
                resp@.len() >= p::HEADER_LEN + p::CONFIG_LEN,
                v@ == resp@.subrange(p::HEADER_LEN as int, i as int),
            decreases p::HEADER_LEN + p::CONFIG_LEN - i,
        {
            v.push(resp[i]);
            i = i + 1;
            assert(v@ =~= resp@.subrange(p::HEADER_LEN as int, i as int));
        }
        Some(v)
    } else {
        None
    }
}

/// Does a reply to a config read identify an AULA board: long enough, and
/// carrying a config block with the signature? Reading is the only safe way
/// to identify hardware; a collection merely accepting a feature report is
/// far too weak a signal.
pub fn confirms_protocol(resp: &[u8]) -> (b: bool)
    ensures
        b == (spec_response_config(resp@) matches Some(cfg) && spec_valid_config(cfg)),
{
    match response_config(resp) {
        Some(cfg) => is_valid_config(cfg.as_slice()),
        None => false,
    }
}

/// The request that reads the config block.
pub fn read_config_packet() -> (pkt: Vec<u8>)
    ensures
        pkt@ == spec_packet(p::cmd::READ_CONFIG, p::ADDR@, p::CONFIG_LEN as u16, None),
{
    build_packet(p::cmd::READ_CONFIG, p::ADDR, p::CONFIG_LEN as u16, None)
}

/// The request that reads the key matrix table.
pub fn read_matrix_packet() -> (pkt: Vec<u8>)
    ensures
        pkt@ == spec_packet(p::cmd::READ_MATRIX, seq![0u8, 0u8, 0u8, 0u8], p::PAYLOAD_LEN as u16, None),
{
    let pkt = build_packet(p::cmd::READ_MATRIX, [0, 0, 0, 0], p::PAYLOAD_LEN as u16, None);
    proof {
        let a: [u8; 4] = [0, 0, 0, 0];
        assert(a@ =~= seq![0u8, 0u8, 0u8, 0u8]);
    }
    pkt
}

/// The key matrix table inside its reply: everything after the header.
pub fn matrix_from_response(resp: &[u8]) -> (m: Vec<u8>)
    ensures
        m@ == (if resp@.len() >= p::HEADER_LEN {
            resp@.skip(p::HEADER_LEN as int)
        } else {
            Seq::empty()
        }),
{
    let mut m: Vec<u8> = Vec::new();
    if resp.len() < p::HEADER_LEN {
        return m;
    }
    let mut i: usize = p::HEADER_LEN;
    while i < resp.len()
        invariant
            p::HEADER_LEN <= i <= resp@.len(),
            m@ == resp@.subrange(p::HEADER_LEN as int, i as int),
        decreases resp@.len() - i,
    {
        m.push(resp[i]);
        i = i + 1;
        assert(m@ =~= resp@.subrange(p::HEADER_LEN as int, i as int));
    }
    assert(m@ =~= resp@.skip(p::HEADER_LEN as int));
    m
}

/// What to do after a config read's reply.
#[derive(Debug)]
pub enum ReadStep {
    /// A valid config block.
    Done(Vec<u8>),
    /// Wait, then read again.
    Retry { sleep_ms: u64 },
    /// Wait, then report the failure: every attempt was glitched.
    Failed { sleep_ms: u64, error: Error },
}

/// A config read in progress: which attempt this is, and the last block that
/// came back, valid or not.
pub struct ConfigRead {
    attempt: usize,
    last: Vec<u8>,
}

/// How long to give the board before reading again: the radio answers more
/// slowly, so it gets proportionally longer before a read counts as glitched.
pub open spec fn spec_read_retry_ms(link: Link) -> u64 {
    if link == Link::Wired {
        20
    } else {
        40
    }
}

impl ConfigRead {
    pub closed spec fn spec_attempt(&self) -> usize {
        self.attempt
    }

    pub closed spec fn spec_last(&self) -> Seq<u8> {
        self.last@
    }

    pub fn new() -> (r: ConfigRead)
        ensures
            r.spec_attempt() == 0,
            r.spec_last().len() == 0,
    {
        ConfigRead { attempt: 0, last: Vec::new() }
    }

    /// Take one reply. A long-enough reply whose block is valid ends the read.
    /// Any other reply costs an attempt: after the fourth, the read fails with
    /// the signature bytes of the last whole block seen (or zeros if none came
    /// back whole); before that, it is retried.
    pub fn on_response(&mut self, resp: &[u8], link: Link) -> (step: ReadStep)
        requires
            old(self).spec_attempt() < CONFIG_READ_ATTEMPTS,
        ensures
            match spec_response_config(resp@) {
                Some(cfg) => if spec_valid_config(cfg) {
                    step matches ReadStep::Done(v) && v@ == cfg
                } else {
                    final(self).spec_last() == cfg
                },
                None => final(self).spec_last() == old(self).spec_last(),
            },
            !(step is Done) ==> final(self).spec_attempt() == old(self).spec_attempt() + 1,
            match step {
                ReadStep::Done(v) => spec_response_config(resp@) == Some(v@) && spec_valid_config(v@),
                ReadStep::Retry { sleep_ms } => final(self).spec_attempt() < CONFIG_READ_ATTEMPTS
                    && sleep_ms == spec_read_retry_ms(link),
                ReadStep::Failed { sleep_ms, error } => final(self).spec_attempt() == CONFIG_READ_ATTEMPTS
                    && sleep_ms == spec_read_retry_ms(link) && match error {
                    Error::BadConfigRead { magic } => magic@ == (if final(self).spec_last().len()
                        == p::CONFIG_LEN {
                        seq![final(self).spec_last()[126], final(self).spec_last()[127]]
                    } else {
                        seq![0u8, 0u8]
                    }),
                    _ => false,
                },
            },
    {
        match response_config(resp) {
            Some(cfg) => {
                if is_valid_config(cfg.as_slice()) {
                    return ReadStep::Done(cfg);
                }
                self.last = cfg;
            },
            None => {},
        }
        self.attempt = self.attempt + 1;
        let sleep_ms: u64 = if link == Link::Wired {
            20
        } else {
            40
        };
        if self.attempt < CONFIG_READ_ATTEMPTS {
            ReadStep::Retry { sleep_ms }
        } else {
            let magic: [u8; 2] = if self.last.len() == p::CONFIG_LEN {
                [self.last[126], self.last[127]]
            } else {
                [0, 0]
            };
            assert(magic@ =~= (if self.last@.len() == p::CONFIG_LEN {
                seq![self.last@[126], self.last@[127]]
            } else {
                seq![0u8, 0u8]
            }));
            ReadStep::Failed { sleep_ms, error: Error::BadConfigRead { magic } }
        }
    }
}

/// A wired board, as the driver tracks it.
pub struct F75 {
    layout: Vec<KeyPos>,
    order: ChannelOrder,
    /// When the last colour write went out, to enforce the minimum gap.
    last_write: Option<u64>,
    min_gap_us: u64,
    /// The last frame actually streamed, so an identical one can be skipped.
    last_frame: Option<Frame>,
    id: DeviceId,
    link: Link,
    /// Says how the board is attached, which is only known when it is opened.
    name: String,
    /// Whether a config write is allowed. False for a device a scan turned up
    /// that nothing has confirmed: streaming to it is volatile and harmless,
    /// where a config write is neither.
    allow_config_write: bool,
}

impl F75 {
    pub closed spec fn spec_layout(&self) -> Seq<KeyPos> {
        self.layout@
    }

    pub closed spec fn spec_order(&self) -> ChannelOrder {
        self.order
    }

    pub closed spec fn spec_last_write(&self) -> Option<u64> {
        self.last_write
    }

    pub closed spec fn spec_min_gap_us(&self) -> u64 {
        self.min_gap_us
    }

    /// The last frame streamed, or `None` when the board's state is not
    /// known to match any frame.
    pub closed spec fn spec_last_frame(&self) -> Option<Seq<Rgb>> {
        match self.last_frame {
            Some(f) => Some(f@),
            None => None,
        }
    }

    pub closed spec fn spec_id(&self) -> DeviceId {
        self.id
    }

    pub closed spec fn spec_link(&self) -> Link {
        self.link
    }

    pub closed spec fn spec_name(&self) -> Seq<char> {
        self.name@
    }

    pub closed spec fn spec_allow_config_write(&self) -> bool {
        self.allow_config_write
    }

    /// The minimum gap stays within what the clamp produces.
    pub closed spec fn wf(&self) -> bool {
        self.min_gap_us <= 1000 * MICROS_PER_MS
    }

    /// The board a candidate describes, as nothing has yet been written to
    /// it. A board that answered with a valid config block, or that is in the
    /// built-in table, has proven what it is and may have its mode changed.
    pub fn new(c: &DeviceCandidate, order: ChannelOrder) -> (k: F75)
        ensures
            k.wf(),
            k.spec_layout().map_values(|k: KeyPos| key_view(k)) == spec_layout(82),
            k.spec_order() == order,
            k.spec_last_write() is None,
            k.spec_min_gap_us() == spec_min_frame_gap_ms(c.link) * MICROS_PER_MS,
            k.spec_last_frame() is None,
            k.spec_id() == c.id,
            k.spec_link() == c.link,
            k.spec_name() == MODEL@ + " ("@ + link_suffix(c.link) + ")"@,
            k.spec_allow_config_write() == (c.confidence == Confidence::Known || c.confirmed),
    {
        let mut v: Vec<char> = Vec::new();
        push_str(&mut v, MODEL);
        push_str(&mut v, " (");
        push_str(&mut v, c.link.suffix());
        push_str(&mut v, ")");
        let name = string_from_chars(&v);
        F75 {
            layout: layout(),
            order,
            last_write: None,
            min_gap_us: p::min_frame_gap_ms(c.link) * MICROS_PER_MS,
            last_frame: None,
            id: c.id,
            link: c.link,
            name,
            allow_config_write: c.confidence == Confidence::Known || c.confirmed,
        }
    }

    pub fn id(&self) -> (id: DeviceId)
        ensures
            id == self.spec_id(),
    {
        self.id
    }

    pub fn link(&self) -> (l: Link)
        ensures
            l == self.spec_link(),
    {
        self.link
    }

    pub fn name(&self) -> (s: &str)
        ensures
            s@ == self.spec_name(),
    {
        self.name.as_str()
    }

    /// Whether this board will accept a lighting-mode change.
    pub fn can_change_mode(&self) -> (b: bool)
        ensures
            b == self.spec_allow_config_write(),
    {
        self.allow_config_write
    }

    pub fn set_channel_order(&mut self, order: ChannelOrder)
        ensures
            final(self).spec_order() == order,
            final(self).spec_layout() == old(self).spec_layout(),
            final(self).spec_last_write() == old(self).spec_last_write(),
            final(self).spec_min_gap_us() == old(self).spec_min_gap_us(),
            final(self).spec_last_frame() == old(self).spec_last_frame(),
            final(self).spec_id() == old(self).spec_id(),
            final(self).spec_link() == old(self).spec_link(),
            final(self).spec_allow_config_write() == old(self).spec_allow_config_write(),
            old(self).wf() ==> final(self).wf(),
    {
        self.order = order;
    }

    /// The streaming path is the narrower of the two; sizing frames to it
    /// means one frame works for both paths.
    pub fn led_count(&self) -> (n: usize)
        ensures
            n == p::STREAM_SLOTS,
    {
        p::STREAM_SLOTS
    }

    pub fn layout(&self) -> (l: &[KeyPos])
        ensures
            l@ == self.spec_layout(),
    {
        self.layout.as_slice()
    }

    pub fn max_fps(&self) -> (fps: u32)
        ensures
            fps == spec_max_fps_for(self.spec_link()),
    {
        p::max_fps_for(self.link)
    }

    /// Ask for a slower frame rate than the link's ceiling.
    pub fn set_max_fps(&mut self, fps: u32)
        ensures
            final(self).wf(),
            final(self).spec_min_gap_us() == spec_clamped_gap(fps, old(self).spec_link()) * MICROS_PER_MS,
            final(self).spec_order() == old(self).spec_order(),
            final(self).spec_layout() == old(self).spec_layout(),
            final(self).spec_last_write() == old(self).spec_last_write(),
            final(self).spec_last_frame() == old(self).spec_last_frame(),
            final(self).spec_id() == old(self).spec_id(),
            final(self).spec_link() == old(self).spec_link(),
            final(self).spec_allow_config_write() == old(self).spec_allow_config_write(),
    {
        proof {
            lemma_clamped_gap_only_slows(fps, self.link);
        }
        self.min_gap_us = clamped_gap(fps, self.link) * MICROS_PER_MS;
    }

    /// Whether an unchanged frame is due to be resent anyway.
    pub fn due_for_keepalive(&self, now_us: u64) -> (d: bool)
        ensures
            d == spec_due(self.spec_last_write(), now_us, KEEPALIVE_US),
    {
        due(self.last_write, now_us, KEEPALIVE_US)
    }

    /// Wait out the rest of the minimum gap; the write counts from after the
    /// wait.
    fn respect_gap(&mut self, now_us: u64) -> (w: u64)
        requires
            now_us <= u64::MAX / 2,
            old(self).wf(),
        ensures
            w == spec_remaining(old(self).spec_last_write(), now_us, old(self).spec_min_gap_us()),
            final(self).spec_last_write() == Some((now_us + w) as u64),
            final(self).spec_order() == old(self).spec_order(),
            final(self).spec_layout() == old(self).spec_layout(),
            final(self).spec_min_gap_us() == old(self).spec_min_gap_us(),
            final(self).spec_last_frame() == old(self).spec_last_frame(),
            final(self).spec_id() == old(self).spec_id(),
            final(self).spec_link() == old(self).spec_link(),
            final(self).spec_name() == old(self).spec_name(),
            final(self).spec_allow_config_write() == old(self).spec_allow_config_write(),
            final(self).wf(),
    {
        let w = remaining(self.last_write, now_us, self.min_gap_us);
        self.last_write = Some(now_us + w);
        w
    }

    /// Decide a static write: wait `.0`, then send `.1`.
    ///
    /// A different command and payload layout from streaming, so whatever the
    /// stream path has recorded no longer describes the board.
    pub fn static_write(&mut self, frame: &Frame, now_us: u64) -> (r: (u64, Vec<u8>))
        requires
            now_us <= u64::MAX / 2,
            old(self).wf(),
        ensures
            r.0 == spec_remaining(old(self).spec_last_write(), now_us, old(self).spec_min_gap_us()),
            r.1@ == spec_packet(
                p::cmd::WRITE_STATIC,
                p::ADDR@,
                p::STATIC_LEN as u16,
                Some(spec_static_payload(old(self).spec_order(), frame@)),
            ),
            final(self).spec_last_write() == Some((now_us + r.0) as u64),
            final(self).spec_last_frame() is None,
            final(self).spec_order() == old(self).spec_order(),
            final(self).spec_min_gap_us() == old(self).spec_min_gap_us(),
            final(self).spec_link() == old(self).spec_link(),
            final(self).spec_id() == old(self).spec_id(),
            final(self).spec_allow_config_write() == old(self).spec_allow_config_write(),
            final(self).wf(),
    {
        self.last_frame = None;
        let w = self.respect_gap(now_us);
        let payload = encode_static(self.order, frame);
        let pkt = build_packet(p::cmd::WRITE_STATIC, p::ADDR, p::STATIC_LEN as u16, Some(payload.as_slice()));
        (w, pkt)
    }

    /// Decide a streamed frame: `None` to skip it, or wait `.0` and send
    /// `.1`, then report it sent with `stream_sent`.
    ///
    /// A frame identical to the last one streamed is skipped unless the
    /// keepalive is due: resending what the board already shows costs key-scan
    /// time and buys nothing, while the keepalive covers the firmware
    /// repainting behind the driver's back.
    pub fn stream_write(&mut self, frame: &Frame, now_us: u64) -> (r: Option<(u64, Vec<u8>)>)
        requires
            now_us <= u64::MAX / 2,
            old(self).wf(),
        ensures
            r is None <==> (!spec_due(old(self).spec_last_write(), now_us, KEEPALIVE_US)
                && old(self).spec_last_frame() == Some(frame@)),
            r is None ==> final(self).spec_last_write() == old(self).spec_last_write(),
            r matches Some(w) ==> {
                &&& w.0 == spec_remaining(old(self).spec_last_write(), now_us, old(self).spec_min_gap_us())
                &&& w.1@ == spec_packet(
                    p::cmd::STREAM,
                    p::ADDR@,
                    p::STREAM_LEN as u16,
                    Some(spec_stream_payload(old(self).spec_order(), frame@)),
                )
                &&& final(self).spec_last_write() == Some((now_us + w.0) as u64)
            },
            final(self).spec_last_frame() == old(self).spec_last_frame(),
            final(self).spec_order() == old(self).spec_order(),
            final(self).spec_min_gap_us() == old(self).spec_min_gap_us(),
            final(self).spec_link() == old(self).spec_link(),
            final(self).spec_id() == old(self).spec_id(),
            final(self).spec_allow_config_write() == old(self).spec_allow_config_write(),
            final(self).wf(),
    {
        let same = match &self.last_frame {
            Some(f) => f.same_as(frame),
            None => false,
        };
        if !self.due_for_keepalive(now_us) && same {
            return None;
        }
        let w = self.respect_gap(now_us);
        let payload = encode_stream(self.order, frame);
        let pkt = build_packet(p::cmd::STREAM, p::ADDR, p::STREAM_LEN as u16, Some(payload.as_slice()));
        Some((w, pkt))
    }

    /// Record that a streamed frame went out.
    pub fn stream_sent(&mut self, frame: &Frame)
        ensures
            final(self).spec_last_frame() == Some(frame@),
            final(self).spec_last_write() == old(self).spec_last_write(),
            final(self).spec_order() == old(self).spec_order(),
            final(self).spec_min_gap_us() == old(self).spec_min_gap_us(),
            final(self).spec_link() == old(self).spec_link(),
            final(self).spec_id() == old(self).spec_id(),
            final(self).spec_allow_config_write() == old(self).spec_allow_config_write(),
            old(self).wf() ==> final(self).wf(),
    {
        self.last_frame = Some(frame.clone());
    }

    /// Decide a config write: the packet to send, or why it is refused.
    ///
    /// The one non-volatile operation in the driver, so it is also the one
    /// that must not run on hardware a scan merely found, and it never writes
    /// a block that fails the signature check.
    pub fn config_write(&self, cfg: &[u8]) -> (r: Result<Vec<u8>, Error>)
        ensures
            match r {
                Err(Error::UnverifiedDevice { id }) => !self.spec_allow_config_write() && id == self.spec_id(),
                Err(Error::RefusedConfigWrite) => self.spec_allow_config_write() && !spec_valid_config(cfg@),
                Ok(pkt) => self.spec_allow_config_write() && spec_valid_config(cfg@) && pkt@ == spec_packet(
                    p::cmd::WRITE_CONFIG,
                    p::ADDR@,
                    p::CONFIG_LEN as u16,
                    Some(cfg@),
                ),
                Err(_) => false,
            },
    {
        if !self.allow_config_write {
            return Err(Error::UnverifiedDevice { id: self.id });
        }
        if !is_valid_config(cfg) {
            return Err(Error::RefusedConfigWrite);
        }
        Ok(build_packet(p::cmd::WRITE_CONFIG, p::ADDR, p::CONFIG_LEN as u16, Some(cfg)))
    }

    /// How long a config write's repaint takes to settle on this link.
    pub fn config_settle_ms(&self) -> (ms: u64)
        ensures
            ms == p::spec_config_settle_ms(self.spec_link()),
    {
        p::config_settle_ms(self.link)
    }

    /// Record a config write whose repaint has settled, at `now_us`. The
    /// repaint wiped whatever was on the board, so the next frame must go
    /// out even if it matches the last one streamed.
    pub fn config_written(&mut self, now_us: u64)
        ensures
            final(self).spec_last_write() == Some(now_us),
            final(self).spec_last_frame() is None,
            final(self).spec_order() == old(self).spec_order(),
            final(self).spec_min_gap_us() == old(self).spec_min_gap_us(),
            final(self).spec_link() == old(self).spec_link(),
            final(self).spec_id() == old(self).spec_id(),
            final(self).spec_allow_config_write() == old(self).spec_allow_config_write(),
            old(self).wf() ==> final(self).wf(),
    {
        self.last_write = Some(now_us);
        self.last_frame = None;
    }
}

} // verus!
