//! AULA 2.4 GHz receiver wire protocol.
//!
//! A different protocol from the wired one, on a different USB device.
//!
//! Only `0x88` (lighting) is ever sent, and it is volatile — it paints and
//! stores nothing. `0x04` carries a 128-byte config block and is decoded but
//! never sent: this link has no known readback, and a config block must never
//! be written without reading it back and validating it first.
//!
//! Frame (HID **output** report, 20 bytes):
//!
//! ```text
//! byte 0      report id, always 0x13
//! byte 1      command family (0x88 = lighting)
//! byte 2      total chunks in this message
//! byte 3      chunk index, 0-based
//! byte 4      16 + payload length in this chunk
//! bytes 5..18 payload, zero padded
//! byte 19     checksum: sum of bytes 0..18, mod 256
//! ```

pub mod cmd;

use vstd::prelude::*;

use crate::color::Rgb;

verus! {

pub const REPORT_ID: u8 = 0x13;

pub const FRAME_LEN: usize = 20;

/// Payload bytes carried by one frame.
pub const CHUNK_PAYLOAD: usize = 14;

/// Largest message, in chunks. The config family reaches 28, so the chunking
/// itself is not limited to the 6 chunks the largest captured lighting
/// message used.
pub const MAX_CHUNKS: usize = 28;

pub const MAX_PAYLOAD: usize = CHUNK_PAYLOAD * MAX_CHUNKS;

/// `byte 4` is the payload length plus this, for the lighting family.
pub const LEN_BIAS: u8 = 16;

/// The length byte of the vendor's idle tick, which carries no payload. It
/// does not fit the length rule, so it is spelled out rather than derived.
pub const IDLE_LEN_BYTE: u8 = 0x23;

/// Sustainable tick period, measured while the vendor driver was animating.
pub const TICK_MS: u64 = 46;

/// Spacing between the chunks of one message: the vendor's measured minimum.
pub const PACKET_GAP_MS: u64 = 13;

/// Resend everything if nothing has been sent for this long. A battery
/// keyboard dims its LEDs when the host stops talking, and the firmware can
/// repaint behind the driver.
pub const KEEPALIVE_MS: u64 = 700;

/// The link's measured capacity, in 20-byte chunks per second.
pub const MAX_CHUNKS_PER_SEC: u64 = 64;

/// Frames one streamed tick may send: a whole message, because a truncated
/// frame leaves keys dark.
pub const STREAM_FRAMES_PER_TICK: usize = MAX_CHUNKS;

/// Frames a one-off full repaint may send.
pub const MAX_FRAMES_PER_TICK: usize = MAX_CHUNKS;

/// Smallest useful group: a colour, a count, and one LED.
pub const MIN_GROUP: usize = 5;

/// One run of LEDs sharing a colour.
#[derive(Debug, PartialEq)]
pub struct Group {
    pub color: Rgb,
    pub leds: Vec<u8>,
}

impl Clone for Group {
    fn clone(&self) -> (g: Self)
        ensures
            g.color == self.color,
            g.leds@ == self.leds@,
    {
        let leds = self.leds.clone();
        assert(leds@ =~= self.leds@);
        Group { color: self.color, leds }
    }
}

/// A group as plain values: its colour and its LED indices.
pub open spec fn gv(g: Group) -> (Rgb, Seq<u8>) {
    (g.color, g.leds@)
}

pub open spec fn gvs(gs: Seq<Group>) -> Seq<(Rgb, Seq<u8>)> {
    gs.map_values(|g: Group| gv(g))
}

/// Bytes a group occupies in a payload: colour, count, then the indices.
pub open spec fn group_cost(g: (Rgb, Seq<u8>)) -> int {
    4 + g.1.len() as int
}

impl Group {
    /// Bytes this group occupies in a payload: colour, count, then the indices.
    pub fn encoded_len(&self) -> (n: usize)
        requires
            self.leds@.len() <= usize::MAX - 4,
        ensures
            n == group_cost(gv(*self)),
    {
        4 + self.leds.len()
    }
}

/// Sum of bytes, as an unbounded integer.
pub open spec fn sum_bytes(s: Seq<u8>) -> int
    decreases s.len(),
{
    if s.len() == 0 {
        0
    } else {
        sum_bytes(s.drop_last()) + s.last()
    }
}

/// Sum of every byte but the last, mod 256.
pub open spec fn checksum_of(body: Seq<u8>) -> u8 {
    (sum_bytes(body) % 256) as u8
}

/// The first 19 bytes of a frame: header, payload, zero padding.
pub open spec fn frame_body(cmd: u8, chunks: u8, index: u8, len_byte: u8, payload: Seq<u8>) -> Seq<u8> {
    seq![REPORT_ID, cmd, chunks, index, len_byte] + payload + Seq::new(
        (CHUNK_PAYLOAD - payload.len()) as nat,
        |i: int| 0u8,
    )
}

/// A frame: its body, then the checksum of the body.
pub open spec fn sealed(body: Seq<u8>) -> Seq<u8> {
    body.push(checksum_of(body))
}

/// A lighting-family frame: the length byte is biased by 16.
pub open spec fn spec_frame(cmd: u8, chunks: u8, index: u8, payload: Seq<u8>) -> Seq<u8> {
    sealed(frame_body(cmd, chunks, index, (LEN_BIAS + payload.len()) as u8, payload))
}

/// A config-family frame: the length byte is the raw payload length.
pub open spec fn spec_raw_frame(cmd: u8, chunks: u8, index: u8, payload: Seq<u8>) -> Seq<u8> {
    sealed(frame_body(cmd, chunks, index, payload.len() as u8, payload))
}

proof fn lemma_sum_push(s: Seq<u8>, b: u8)
    ensures
        sum_bytes(s.push(b)) == sum_bytes(s) + b,
{
    assert(s.push(b).drop_last() =~= s);
}

/// Sum of every byte but the last, mod 256.
pub fn checksum(frame: &[u8]) -> (c: u8)
    requires
        frame@.len() >= FRAME_LEN - 1,
    ensures
        c == checksum_of(frame@.take(FRAME_LEN - 1)),
{
    let mut acc: u8 = 0;
    let mut i: usize = 0;
    while i < FRAME_LEN - 1
        invariant
            i <= FRAME_LEN - 1,
            frame@.len() >= FRAME_LEN - 1,
            acc == sum_bytes(frame@.take(i as int)) % 256,
        decreases FRAME_LEN - 1 - i,
    {
        proof {
            assert(frame@.take(i + 1) =~= frame@.take(i as int).push(frame@[i as int]));
            lemma_sum_push(frame@.take(i as int), frame@[i as int]);
            vstd::arithmetic::div_mod::lemma_add_mod_noop(
                sum_bytes(frame@.take(i as int)),
                frame@[i as int] as int,
                256,
            );
        }
        acc = acc.wrapping_add(frame[i]);
        i = i + 1;
    }
    acc
}

/// Write the header and payload of a frame; the checksum slot stays zero.
fn frame_skeleton(cmd: u8, chunks: u8, index: u8, len_byte: u8, payload: &[u8]) -> (f: [u8; FRAME_LEN])
    requires
        payload@.len() <= CHUNK_PAYLOAD,
    ensures
        f@.take(FRAME_LEN - 1) == frame_body(cmd, chunks, index, len_byte, payload@),
        f@.len() == FRAME_LEN,
{
    let mut f = [0u8; 20];
    f[0] = REPORT_ID;
    f[1] = cmd;
    f[2] = chunks;
    f[3] = index;
    f[4] = len_byte;
    let n = payload.len();
    let mut i: usize = 0;
    while i < n
        invariant
            i <= n,
            n == payload@.len(),
            n <= CHUNK_PAYLOAD,
            f@.len() == FRAME_LEN,
            f@[0] == REPORT_ID,
            f@[1] == cmd,
            f@[2] == chunks,
            f@[3] == index,
            f@[4] == len_byte,
            forall|j: int| 0 <= j < i ==> f@[5 + j] == payload@[j],
            forall|j: int| 5 + i <= j < FRAME_LEN ==> f@[j] == 0,
        decreases n - i,
    {
        f[5 + i] = payload[i];
        i = i + 1;
    }
    assert(f@.take(FRAME_LEN - 1) =~= frame_body(cmd, chunks, index, len_byte, payload@));
    f
}

/// Put the checksum of the first 19 bytes into the last.
fn seal(f: &mut [u8; FRAME_LEN])
    requires
        old(f)@.len() == FRAME_LEN,
    ensures
        final(f)@ == sealed(old(f)@.take(FRAME_LEN - 1)),
{
    let c = checksum(f.as_slice());
    f[FRAME_LEN - 1] = c;
    assert(f@ =~= sealed(old(f)@.take(FRAME_LEN - 1)));
}

/// Build one 20-byte lighting-family frame.
pub fn build_frame(cmd: u8, chunks: u8, index: u8, payload: &[u8]) -> (f: [u8; FRAME_LEN])
    requires
        payload@.len() <= CHUNK_PAYLOAD,
    ensures
        f@ == spec_frame(cmd, chunks, index, payload@),
{
    let mut f = frame_skeleton(cmd, chunks, index, LEN_BIAS + payload.len() as u8, payload);
    seal(&mut f);
    f
}

/// Frame builder for the config family, whose length byte is RAW.
///
/// Only the lighting family biases the length byte. Captured config chunks
/// carry `0x0e` for a full 14-byte payload and `0x02` for the two-byte tail
/// holding the `5A A5` signature. Nothing in this library sends a config
/// frame: there is no readback on this link to validate a write against.
pub fn build_raw_frame(cmd: u8, chunks: u8, index: u8, payload: &[u8]) -> (f: [u8; FRAME_LEN])
    requires
        payload@.len() <= CHUNK_PAYLOAD,
    ensures
        f@ == spec_raw_frame(cmd, chunks, index, payload@),
{
    let mut f = frame_skeleton(cmd, chunks, index, payload.len() as u8, payload);
    seal(&mut f);
    f
}

/// The frame the vendor sends on a tick with no colour change.
///
/// Never sent by this library: its meaning is not verified, and sending it
/// every idle tick made a solid colour flash.
pub fn idle_frame() -> (f: [u8; FRAME_LEN])
    ensures
        f@ == sealed(frame_body(cmd::LIGHTING, 1, 0, IDLE_LEN_BYTE, Seq::empty())),
{
    let empty: [u8; 0] = [];
    let mut f = frame_skeleton(cmd::LIGHTING, 1, 0, IDLE_LEN_BYTE, empty.as_slice());
    seal(&mut f);
    f
}


/// Bytes one group is written as: colour, count, indices.
pub open spec fn group_bytes(g: (Rgb, Seq<u8>)) -> Seq<u8> {
    seq![g.0.r, g.0.g, g.0.b, g.1.len() as u8] + g.1
}

/// Concatenated encodings of a run of groups.
pub open spec fn groups_bytes(gs: Seq<(Rgb, Seq<u8>)>) -> Seq<u8>
    decreases gs.len(),
{
    if gs.len() == 0 {
        Seq::empty()
    } else {
        groups_bytes(gs.drop_last()) + group_bytes(gs.last())
    }
}

/// How many LEDs of a group fit into `room` bytes: the room left after the
/// 4-byte head, the group's size, and the one-byte count field.
pub open spec fn fits_in(room: int, n: int) -> int {
    let a = if room - 4 < n { room - 4 } else { n };
    if a < 255 { a } else { 255 }
}

/// What `encode_groups` sends of `gs`, given `used` bytes already written:
/// empty groups are skipped, a group too big for the remaining room is
/// truncated to a prefix and ends the message, and nothing is started in
/// fewer than `MIN_GROUP` bytes.
pub open spec fn spec_sent(gs: Seq<(Rgb, Seq<u8>)>, budget: int, used: int) -> Seq<(Rgb, Seq<u8>)>
    decreases gs.len(),
{
    if gs.len() == 0 {
        Seq::empty()
    } else if gs[0].1.len() == 0 {
        spec_sent(gs.drop_first(), budget, used)
    } else {
        let room = if budget > used { budget - used } else { 0 };
        if room < MIN_GROUP {
            Seq::empty()
        } else {
            let fits = fits_in(room, gs[0].1.len() as int);
            let g = (gs[0].0, gs[0].1.take(fits));
            if fits < gs[0].1.len() {
                seq![g]
            } else {
                seq![g] + spec_sent(gs.drop_first(), budget, used + 4 + fits)
            }
        }
    }
}

/// Bytes a run of groups occupies in a payload.
pub open spec fn total_cost(gs: Seq<(Rgb, Seq<u8>)>) -> int
    decreases gs.len(),
{
    if gs.len() == 0 {
        0
    } else {
        total_cost(gs.drop_last()) + group_cost(gs.last())
    }
}

/// The bytes of a run of groups are exactly as many as the groups' encoded
/// sizes add up to. With `encode_groups`'s own contract, this is what makes
/// the groups it reports sent describe its payload exactly.
pub proof fn lemma_payload_describes_groups(gs: Seq<(Rgb, Seq<u8>)>)
    ensures
        groups_bytes(gs).len() == total_cost(gs),
    decreases gs.len(),
{
    if gs.len() > 0 {
        lemma_payload_describes_groups(gs.drop_last());
    }
}

proof fn lemma_groups_bytes_push(gs: Seq<(Rgb, Seq<u8>)>, g: (Rgb, Seq<u8>))
    ensures
        groups_bytes(gs.push(g)) == groups_bytes(gs) + group_bytes(g),
{
    assert(gs.push(g).drop_last() =~= gs);
}

/// Encode colour groups into a flat payload, splitting to fit the budget.
///
/// Each group is `[R, G, B, count, index * count]`. A group too big for the
/// remaining room is **truncated**, not skipped: it is a colour plus a list,
/// so any prefix of it is a valid, complete instruction.
///
/// Returns the payload and the groups actually encoded, so the caller knows
/// precisely which LEDs went out.
pub fn encode_groups(groups: &[Group], budget: usize) -> (r: (Vec<u8>, Vec<Group>))
    ensures
        gvs(r.1@) == spec_sent(gvs(groups@), budget as int, 0),
        r.0@ == groups_bytes(gvs(r.1@)),
        r.0@.len() <= budget,
{
    let cap = if budget < MAX_PAYLOAD { budget } else { MAX_PAYLOAD };
    let mut out: Vec<u8> = Vec::with_capacity(cap);
    let mut sent: Vec<Group> = Vec::new();
    let ghost all = gvs(groups@);
    let mut i: usize = 0;
    proof {
        assert(all.skip(0) =~= all);
        assert(gvs(sent@) + spec_sent(all, budget as int, 0) =~= spec_sent(all, budget as int, 0));
    }
    loop
        invariant_except_break
            i <= groups@.len(),
            all == gvs(groups@),
            out@ == groups_bytes(gvs(sent@)),
            out@.len() <= budget,
            gvs(sent@) + spec_sent(all.skip(i as int), budget as int, out@.len() as int) == spec_sent(all, budget as int, 0),
        ensures
            gvs(sent@) == spec_sent(all, budget as int, 0),
            out@ == groups_bytes(gvs(sent@)),
            out@.len() <= budget,
        decreases groups@.len() - i,
    {
        if i >= groups.len() {
            proof {
                assert(all.skip(i as int) =~= Seq::<(Rgb, Seq<u8>)>::empty());
                assert(gvs(sent@) =~= spec_sent(all, budget as int, 0));
            }
            break;
        }
        let g = &groups[i];
        proof {
            assert(all.skip(i as int)[0] == gv(groups@[i as int]));
            assert(all.skip(i as int).drop_first() =~= all.skip(i + 1));
        }
        if g.leds.len() == 0 {
            i = i + 1;
            continue;
        }
        let room = budget.saturating_sub(out.len());
        if room < MIN_GROUP {
            assert(gvs(sent@) =~= spec_sent(all, budget as int, 0));
            break;
        }
        let a = if room - 4 < g.leds.len() { room - 4 } else { g.leds.len() };
        let fits = if a < 255 { a } else { 255 };
        let ghost before = out@;
        let ghost sent_before = gvs(sent@);
        out.push(g.color.r);
        out.push(g.color.g);
        out.push(g.color.b);
        out.push(fits as u8);
        let mut leds: Vec<u8> = Vec::new();
        let mut j: usize = 0;
        while j < fits
            invariant
                j <= fits,
                fits <= g.leds@.len(),
                out@ == before + seq![g.color.r, g.color.g, g.color.b, fits as u8] + g.leds@.take(j as int),
                leds@ == g.leds@.take(j as int),
            decreases fits - j,
        {
            out.push(g.leds[j]);
            leds.push(g.leds[j]);
            j = j + 1;
            proof {
                assert(g.leds@.take(j as int) =~= g.leds@.take(j - 1).push(g.leds@[j - 1]));
            }
        }
        let piece = Group { color: g.color, leds };
        let ghost pv = gv(piece);
        sent.push(piece);
        proof {
            assert(gvs(sent@) =~= sent_before.push(pv));
            lemma_groups_bytes_push(sent_before, pv);
            assert(group_bytes(pv) =~= seq![g.color.r, g.color.g, g.color.b, fits as u8] + g.leds@.take(fits as int));
            assert(out@ =~= groups_bytes(gvs(sent@)));
        }
        if fits < g.leds.len() {
            assert(gvs(sent@) =~= spec_sent(all, budget as int, 0));
            break;
        }
        proof {
            assert(g.leds@.take(fits as int) =~= g.leds@);
        }
        i = i + 1;
    }
    (out, sent)
}

/// Frames needed for `n` payload bytes.
pub open spec fn chunk_count(n: int) -> int {
    (n + CHUNK_PAYLOAD - 1) / CHUNK_PAYLOAD as int
}

/// The `i`th 14-byte slice of a payload; the last one may be shorter.
pub open spec fn piece(p: Seq<u8>, i: int) -> Seq<u8> {
    let lo = i * CHUNK_PAYLOAD;
    let hi = if lo + CHUNK_PAYLOAD < p.len() { lo + CHUNK_PAYLOAD } else { p.len() as int };
    p.subrange(lo, hi)
}

/// The payloads of the first `k` pieces, concatenated.
pub open spec fn joined(p: Seq<u8>, k: int) -> Seq<u8>
    decreases k,
{
    if k <= 0 {
        Seq::empty()
    } else {
        joined(p, k - 1) + piece(p, k - 1)
    }
}

proof fn lemma_joined_prefix(p: Seq<u8>, k: int)
    requires
        0 <= k,
        k * CHUNK_PAYLOAD <= p.len(),
    ensures
        joined(p, k) == p.take(k * CHUNK_PAYLOAD),
    decreases k,
{
    if k > 0 {
        lemma_joined_prefix(p, k - 1);
        assert(p.take((k - 1) * CHUNK_PAYLOAD) + piece(p, k - 1) =~= p.take(k * CHUNK_PAYLOAD));
    }
}

/// Splitting a payload into frames loses nothing and invents nothing: the
/// pieces the frames carry, read back in index order, are the payload.
pub proof fn lemma_chunks_reassemble(p: Seq<u8>)
    ensures
        joined(p, chunk_count(p.len() as int)) == p,
{
    let n = p.len() as int;
    let k = chunk_count(n);
    if k > 0 {
        lemma_joined_prefix(p, k - 1);
        assert(p.take((k - 1) * CHUNK_PAYLOAD) + piece(p, k - 1) =~= p);
    } else {
        assert(p =~= Seq::<u8>::empty());
    }
}

/// Every frame this module builds carries a valid checksum in its last byte,
/// and the checksum covers exactly the 19 bytes before it.
pub proof fn lemma_frame_checksum(cmd: u8, chunks: u8, index: u8, payload: Seq<u8>)
    requires
        payload.len() <= CHUNK_PAYLOAD,
    ensures
        spec_frame(cmd, chunks, index, payload).len() == FRAME_LEN,
        spec_frame(cmd, chunks, index, payload)[FRAME_LEN - 1] == checksum_of(
            spec_frame(cmd, chunks, index, payload).take(FRAME_LEN - 1),
        ),
        spec_raw_frame(cmd, chunks, index, payload).len() == FRAME_LEN,
        spec_raw_frame(cmd, chunks, index, payload)[FRAME_LEN - 1] == checksum_of(
            spec_raw_frame(cmd, chunks, index, payload).take(FRAME_LEN - 1),
        ),
{
    let b = frame_body(cmd, chunks, index, (LEN_BIAS + payload.len()) as u8, payload);
    assert(sealed(b).take(FRAME_LEN - 1) =~= b);
    let r = frame_body(cmd, chunks, index, payload.len() as u8, payload);
    assert(sealed(r).take(FRAME_LEN - 1) =~= r);
}

/// Split a payload into frames: config-family frames when `raw`, else lighting.
fn split_frames(cmd: u8, payload: &[u8], raw: bool) -> (frames: Vec<[u8; FRAME_LEN]>)
    ensures
        frames@.len() == chunk_count(payload@.len() as int),
        forall|i: int|
            0 <= i < frames@.len() ==> #[trigger] frames@[i]@ == if raw {
                spec_raw_frame(cmd, chunk_count(payload@.len() as int) as u8, i as u8, piece(payload@, i))
            } else {
                spec_frame(cmd, chunk_count(payload@.len() as int) as u8, i as u8, piece(payload@, i))
            },
{
    let n = payload.len();
    let count: usize = n / CHUNK_PAYLOAD + if n % CHUNK_PAYLOAD == 0 { 0 } else { 1 };
    assert(count == chunk_count(n as int));
    let total = count as u8;
    let mut frames: Vec<[u8; FRAME_LEN]> = Vec::new();
    let mut i: usize = 0;
    while i < count
        invariant
            i <= count,
            n == payload@.len(),
            count == chunk_count(n as int),
            total == count as u8,
            frames@.len() == i,
            forall|k: int|
                0 <= k < i ==> #[trigger] frames@[k]@ == if raw {
                    spec_raw_frame(cmd, total, k as u8, piece(payload@, k))
                } else {
                    spec_frame(cmd, total, k as u8, piece(payload@, k))
                },
        decreases count - i,
    {
        let lo = i * CHUNK_PAYLOAD;
        let hi = if n - lo > CHUNK_PAYLOAD { lo + CHUNK_PAYLOAD } else { n };
        let part = &payload[lo..hi];
        assert(part@ == piece(payload@, i as int));
        let f = if raw {
            build_raw_frame(cmd, total, i as u8, part)
        } else {
            build_frame(cmd, total, i as u8, part)
        };
        frames.push(f);
        i = i + 1;
    }
    frames
}

/// Split a payload into the lighting-family frames that carry it.
///
/// An empty payload needs no frames. Every frame names the total and its own
/// index; all but the last carry a full 14 bytes.
pub fn chunk(cmd: u8, payload: &[u8]) -> (frames: Vec<[u8; FRAME_LEN]>)
    ensures
        frames@.len() == chunk_count(payload@.len() as int),
        forall|i: int|
            0 <= i < frames@.len() ==> #[trigger] frames@[i]@ == spec_frame(
                cmd,
                chunk_count(payload@.len() as int) as u8,
                i as u8,
                piece(payload@, i),
            ),
{
    split_frames(cmd, payload, false)
}

/// Split a config block into the config-family frames that would carry it.
///
/// Nothing in this library sends them: see the module documentation.
pub fn chunk_config(config: &[u8]) -> (frames: Vec<[u8; FRAME_LEN]>)
    ensures
        frames@.len() == chunk_count(config@.len() as int),
        forall|i: int|
            0 <= i < frames@.len() ==> #[trigger] frames@[i]@ == spec_raw_frame(
                cmd::WRITE_CONFIG,
                chunk_count(config@.len() as int) as u8,
                i as u8,
                piece(config@, i),
            ),
{
    split_frames(cmd::WRITE_CONFIG, config, true)
}

} // verus!
