//! AULA 2.4 GHz receiver driver state.
//!
//! A different device and a different protocol from the wired board:
//!
//! * 20-byte HID output reports, not 520-byte feature reports.
//! * `0x88` is a full-frame command: every lit key must be in the message,
//!   because any key it does not mention is turned off.
//! * A frame costs 4 bytes per distinct colour plus one per lit key, so a
//!   solid board is 84 bytes and colours are what makes a frame expensive.
//! * Colours are snapped to a coarse palette before they get here, so a whole
//!   board fits one message.
//!
//! The LED indices are the same ones the wired protocol uses, so the wired
//! key map applies unchanged. Sending frames and sleeping is the caller's
//! job: this keeps what the board was last sent whole, paces the link, and
//! decides what each paint sends.

pub mod plan;
pub mod protocol;

use vstd::prelude::*;

use crate::color::Rgb;
use crate::device::{color_at, link_suffix, DeviceId, Frame, KeyPos, Link};
use crate::f75::keymap::{layout, spec_layout};
use crate::f75::protocol::STREAM_SLOTS;
use crate::pacing::{due, remaining, spec_due, spec_remaining, MICROS_PER_MS};
use crate::text::{push_str, string_from_chars};
use crate::transport::{indices_where, CollectionInfo, Confidence, DeviceCandidate};

use plan::{
    is_plan, lemma_lit_keys_len, lemma_plan_sends_every_key_once, lemma_sent_total_le, lit_keys, plan,
    total_leds,
};
use protocol as p;
use protocol::{chunk, chunk_count, encode_groups, groups_bytes, gvs, piece, spec_frame, spec_sent, Group};

verus! {

pub const MODEL: &'static str = "AULA F75";

/// The keepalive, in microseconds.
pub const KEEPALIVE_US: u64 = p::KEEPALIVE_MS * MICROS_PER_MS;

/// The receiver's lighting collection, as reported by Windows.
pub const USAGE_PAGE_LIGHTING: u16 = 0xff02;

/// Receivers confirmed to speak this protocol: `3554:fa09` (Compx), by
/// capture.
///
/// Unlike the wired table this cannot be found by probing: the channel has no
/// feature reports, so it is invisible until you either know the id or
/// capture the vendor driver.
pub open spec fn spec_known() -> Seq<DeviceId> {
    seq![DeviceId { vid: 0x3554, pid: 0xfa09 }]
}

pub fn known() -> (k: Vec<DeviceId>)
    ensures
        k@ == spec_known(),
{
    let k = vec![DeviceId::new(0x3554, 0xfa09)];
    assert(k@ =~= spec_known());
    k
}

/// The colour every laid-out key should show, in layout order.
pub open spec fn wanted_colours(layout: Seq<KeyPos>, q: Seq<Rgb>) -> Seq<Rgb> {
    layout.map_values(|k: KeyPos| color_at(q, k.led as int))
}

/// One paint, decided: wait `wait_us`, then send `frames` in order, spaced
/// by the packet gap. `frames` may be empty, when the board has nothing lit:
/// then only the wait applies.
pub struct Paint {
    pub wait_us: u64,
    /// Every lit key, grouped by colour, largest group first.
    pub groups: Vec<Group>,
    /// The groups that fit the message, and the payload that carries them.
    pub sent: Vec<Group>,
    pub payload: Vec<u8>,
    pub frames: Vec<[u8; 20]>,
    /// The colour of every laid-out key, as this paint shows it.
    pub wanted: Vec<Rgb>,
    /// Whether the message carried the whole frame.
    pub complete: bool,
}

/// A keyboard reached through its 2.4 GHz receiver.
pub struct Dongle {
    layout: Vec<KeyPos>,
    id: DeviceId,
    name: String,
    /// The colour of every laid-out key, in layout order, as last sent whole.
    /// Empty means unknown, which forces a full send. Compared all or
    /// nothing: the unit of transmission is the entire frame.
    shown: Vec<Rgb>,
    last_tick: Option<u64>,
    /// When the board was last painted, for the keepalive.
    last_full: Option<u64>,
    tick_us: u64,
    /// Inter-chunk spacing. Defaults to the vendor's measured minimum.
    gap_us: u64,
    /// Chunks the last frame cost, which sets how long the next must wait.
    last_chunks: usize,
}

/// The ceiling the receiver's tick allows.
pub open spec fn spec_dongle_max_fps() -> u32 {
    (1000u64 / p::TICK_MS) as u32
}

/// How long a frame of `chunks` chunks occupies the link at its measured
/// capacity, in microseconds.
pub open spec fn spec_chunk_budget_us(chunks: int) -> int {
    chunks * 1_000_000 / p::MAX_CHUNKS_PER_SEC as int
}

/// How long a frame of `chunks` chunks occupies the link at its measured
/// capacity, in microseconds: the chunk budget is what binds on the radio,
/// not a frame count.
pub fn chunk_budget_us(chunks: usize) -> (us: u64)
    requires
        chunks as int * 1_000_000 <= u64::MAX,
    ensures
        us == spec_chunk_budget_us(chunks as int),
{
    (chunks as u64) * 1_000_000 / p::MAX_CHUNKS_PER_SEC
}

impl Dongle {
    pub closed spec fn spec_layout(&self) -> Seq<KeyPos> {
        self.layout@
    }

    pub closed spec fn spec_id(&self) -> DeviceId {
        self.id
    }

    pub closed spec fn spec_name(&self) -> Seq<char> {
        self.name@
    }

    pub closed spec fn spec_shown(&self) -> Seq<Rgb> {
        self.shown@
    }

    pub closed spec fn spec_last_tick(&self) -> Option<u64> {
        self.last_tick
    }

    pub closed spec fn spec_last_full(&self) -> Option<u64> {
        self.last_full
    }

    pub closed spec fn spec_tick_us(&self) -> u64 {
        self.tick_us
    }

    pub closed spec fn spec_gap_us(&self) -> u64 {
        self.gap_us
    }

    pub closed spec fn spec_last_chunks(&self) -> usize {
        self.last_chunks
    }

    /// The state's own bounds: the pacing values stay within what the setters
    /// allow, and the last message is no longer than a message can be.
    pub closed spec fn wf(&self) -> bool {
        &&& self.tick_us >= p::TICK_MS * MICROS_PER_MS
        &&& self.tick_us <= 1000 * MICROS_PER_MS
        &&& 2 * MICROS_PER_MS <= self.gap_us <= 100 * MICROS_PER_MS
        &&& self.last_chunks <= 255
    }

    /// The receiver described by a candidate, as nothing has yet been sent to
    /// it: the first frame must go out in full.
    pub fn new(c: &DeviceCandidate) -> (d: Dongle)
        ensures
            d.wf(),
            d.spec_id() == c.id,
            d.spec_name() == MODEL@ + " ("@ + link_suffix(Link::Dongle) + ")"@,
            d.spec_layout().map_values(|k: KeyPos| crate::f75::keymap::key_view(k)) == spec_layout(82),
            d.spec_shown().len() == 0,
            d.spec_last_tick() is None,
            d.spec_last_full() is None,
            d.spec_tick_us() == p::TICK_MS * MICROS_PER_MS,
            d.spec_gap_us() == p::PACKET_GAP_MS * MICROS_PER_MS,
            d.spec_last_chunks() == 0,
    {
        let mut v: Vec<char> = Vec::new();
        push_str(&mut v, MODEL);
        push_str(&mut v, " (");
        push_str(&mut v, Link::Dongle.suffix());
        push_str(&mut v, ")");
        let name = string_from_chars(&v);
        Dongle {
            layout: layout(),
            id: c.id,
            name,
            shown: Vec::new(),
            last_tick: None,
            last_full: None,
            tick_us: p::TICK_MS * MICROS_PER_MS,
            gap_us: p::PACKET_GAP_MS * MICROS_PER_MS,
            last_chunks: 0,
        }
    }

    pub fn id(&self) -> (id: DeviceId)
        ensures
            id == self.spec_id(),
    {
        self.id
    }

    pub fn name(&self) -> (s: &str)
        ensures
            s@ == self.spec_name(),
    {
        self.name.as_str()
    }

    /// Matches the wired path, so one frame drives either device.
    pub fn led_count(&self) -> (n: usize)
        ensures
            n == STREAM_SLOTS,
    {
        STREAM_SLOTS
    }

    pub fn layout(&self) -> (l: &[KeyPos])
        ensures
            l@ == self.spec_layout(),
    {
        self.layout.as_slice()
    }

    pub fn max_fps(&self) -> (fps: u32)
        ensures
            fps == spec_dongle_max_fps(),
            fps == 21,
    {
        (1000 / p::TICK_MS) as u32
    }

    /// Override the inter-chunk spacing, for experiments only.
    ///
    /// Clamped to 2..=100 ms: going much below the vendor's measured minimum
    /// risks key-scan starvation, where the board lights perfectly while
    /// dropping keypresses.
    pub fn set_packet_gap_ms(&mut self, ms: u64)
        requires
            old(self).wf(),
        ensures
            final(self).wf(),
            final(self).spec_gap_us() == (if ms < 2 {
                2
            } else if ms > 100 {
                100
            } else {
                ms
            }) * MICROS_PER_MS,
            final(self).spec_tick_us() == old(self).spec_tick_us(),
            final(self).spec_shown() == old(self).spec_shown(),
            final(self).spec_last_tick() == old(self).spec_last_tick(),
            final(self).spec_last_full() == old(self).spec_last_full(),
            final(self).spec_last_chunks() == old(self).spec_last_chunks(),
            final(self).spec_layout() == old(self).spec_layout(),
            final(self).spec_id() == old(self).spec_id(),
    {
        let ms = if ms < 2 {
            2
        } else if ms > 100 {
            100
        } else {
            ms
        };
        self.gap_us = ms * MICROS_PER_MS;
    }

    /// Ask for a slower rate than the tick allows. Only ever slower: the
    /// request is clamped to 1..=max, and the period never drops below the
    /// tick.
    pub fn set_max_fps(&mut self, fps: u32)
        requires
            old(self).wf(),
        ensures
            final(self).wf(),
            final(self).spec_tick_us() == ({
                let f = if fps < 1 {
                    1
                } else if fps > spec_dongle_max_fps() {
                    spec_dongle_max_fps()
                } else {
                    fps
                };
                let period = 1000int / (f as int);
                (if period > p::TICK_MS {
                    period
                } else {
                    p::TICK_MS as int
                }) * MICROS_PER_MS
            }),
            final(self).spec_gap_us() == old(self).spec_gap_us(),
            final(self).spec_shown() == old(self).spec_shown(),
            final(self).spec_last_tick() == old(self).spec_last_tick(),
            final(self).spec_last_full() == old(self).spec_last_full(),
            final(self).spec_last_chunks() == old(self).spec_last_chunks(),
            final(self).spec_layout() == old(self).spec_layout(),
            final(self).spec_id() == old(self).spec_id(),
    {
        let max = self.max_fps();
        let f = if fps < 1 {
            1
        } else if fps > max {
            max
        } else {
            fps
        };
        let period = 1000 / (f as u64);
        let ms = if period > p::TICK_MS {
            period
        } else {
            p::TICK_MS
        };
        self.tick_us = ms * MICROS_PER_MS;
    }

    /// Whether an unchanged board is due a defensive resend.
    pub fn due_for_keepalive(&self, now_us: u64) -> (d: bool)
        ensures
            d == spec_due(self.spec_last_full(), now_us, KEEPALIVE_US),
    {
        due(self.last_full, now_us, KEEPALIVE_US)
    }

    /// How long to wait before the next frame: the longer of the tick and the
    /// last frame's chunk budget, counted from the last tick.
    pub open spec fn spec_rate_wait(&self, now_us: u64) -> u64 {
        let budget = spec_chunk_budget_us(self.spec_last_chunks() as int);
        let wait = if self.spec_tick_us() > budget {
            self.spec_tick_us() as int
        } else {
            budget
        };
        spec_remaining(self.spec_last_tick(), now_us, wait as u64)
    }

    /// Decide a paint of the frame `q`, already snapped to the link's palette.
    ///
    /// Always the whole frame: any key the message does not mention goes
    /// dark. Skipped (`None`, nothing changes) only when not forced, the
    /// whole board already shows this, and no keepalive is due. Otherwise
    /// the wait is taken from the pacing rule and the tick restarts after it;
    /// the groups are packed into at most one message.
    pub fn begin_paint(&mut self, q: &Frame, force: bool, now_us: u64) -> (r: Option<Paint>)
        requires
            old(self).wf(),
            now_us <= u64::MAX / 2,
        ensures
            final(self).wf(),
            final(self).spec_layout() == old(self).spec_layout(),
            final(self).spec_id() == old(self).spec_id(),
            final(self).spec_shown() == old(self).spec_shown(),
            final(self).spec_last_full() == old(self).spec_last_full(),
            final(self).spec_last_chunks() == old(self).spec_last_chunks(),
            final(self).spec_tick_us() == old(self).spec_tick_us(),
            final(self).spec_gap_us() == old(self).spec_gap_us(),
            r is None <==> (!force && old(self).spec_shown() == wanted_colours(old(self).spec_layout(), q@)
                && !spec_due(old(self).spec_last_full(), now_us, KEEPALIVE_US)),
            r is None ==> final(self).spec_last_tick() == old(self).spec_last_tick(),
            r matches Some(pt) ==> {
                &&& pt.wait_us == old(self).spec_rate_wait(now_us)
                &&& final(self).spec_last_tick() == Some((now_us + pt.wait_us) as u64)
                &&& pt.wanted@ == wanted_colours(old(self).spec_layout(), q@)
                &&& is_plan(lit_keys(old(self).spec_layout(), q@), gvs(pt.groups@))
                &&& gvs(pt.sent@) == spec_sent(gvs(pt.groups@), p::MAX_PAYLOAD as int, 0)
                &&& pt.payload@ == groups_bytes(gvs(pt.sent@))
                &&& pt.payload@.len() <= p::MAX_PAYLOAD
                &&& pt.frames@.len() == chunk_count(pt.payload@.len() as int)
                &&& forall|i: int| 0 <= i < pt.frames@.len() ==> #[trigger] pt.frames@[i]@ == spec_frame(
                    p::cmd::LIGHTING,
                    chunk_count(pt.payload@.len() as int) as u8,
                    i as u8,
                    piece(pt.payload@, i),
                )
                &&& pt.complete == (pt.sent@.len() == pt.groups@.len() && total_leds(gvs(pt.sent@))
                    == total_leds(gvs(pt.groups@)))
            },
    {
        let groups = plan(self.layout.as_slice(), q);
        let wanted = wanted_list(self.layout.as_slice(), q);
        if !force && same_colours(&self.shown, &wanted) && !self.due_for_keepalive(now_us) {
            return None;
        }
        let budget = chunk_budget_us(self.last_chunks);
        let wait_for = if self.tick_us > budget {
            self.tick_us
        } else {
            budget
        };
        let wait = remaining(self.last_tick, now_us, wait_for);
        self.last_tick = Some(now_us + wait);
        let (payload, sent) = encode_groups(groups.as_slice(), p::MAX_PAYLOAD);
        let n_keys = self.layout.len();
        proof {
            lemma_plan_sends_every_key_once(lit_keys(self.layout@, q@), gvs(groups@));
            lemma_lit_keys_len(self.layout@, q@);
            lemma_sent_total_le(gvs(groups@), p::MAX_PAYLOAD as int, 0);
        }
        let frames = chunk(p::cmd::LIGHTING, payload.as_slice());
        let complete = sent.len() == groups.len() && led_total(&sent) == led_total(&groups);
        Some(Paint { wait_us: wait, groups, sent, payload, frames, wanted, complete })
    }

    /// Record a paint whose frames all went out, at `now_us`.
    ///
    /// The board state is recorded only if the message carried the whole
    /// frame. If it was truncated, some keys are now dark and the record must
    /// not claim otherwise.
    pub fn finish_paint(&mut self, pt: &Paint, now_us: u64)
        requires
            old(self).wf(),
            pt.frames@.len() <= 255,
        ensures
            final(self).wf(),
            final(self).spec_last_chunks() == pt.frames@.len(),
            final(self).spec_last_full() == Some(now_us),
            final(self).spec_shown() == (if pt.complete {
                pt.wanted@
            } else {
                Seq::empty()
            }),
            final(self).spec_last_tick() == old(self).spec_last_tick(),
            final(self).spec_tick_us() == old(self).spec_tick_us(),
            final(self).spec_gap_us() == old(self).spec_gap_us(),
            final(self).spec_layout() == old(self).spec_layout(),
            final(self).spec_id() == old(self).spec_id(),
    {
        self.last_chunks = pt.frames.len();
        self.last_full = Some(now_us);
        if pt.complete {
            let w = pt.wanted.clone();
            assert(w@ =~= pt.wanted@);
            self.shown = w;
        } else {
            self.shown = Vec::new();
        }
    }

    /// How long to wait before the next chunk of a message, given when the
    /// previous chunk went out: writes are spaced a gap apart, rather than
    /// separated by a full gap of sleep.
    pub fn chunk_wait(&self, prev_us: Option<u64>, now_us: u64) -> (w: u64)
        ensures
            w == spec_remaining(prev_us, now_us, self.spec_gap_us()),
    {
        remaining(prev_us, now_us, self.gap_us)
    }
}

fn wanted_list(layout: &[KeyPos], q: &Frame) -> (w: Vec<Rgb>)
    ensures
        w@ == wanted_colours(layout@, q@),
{
    let mut w: Vec<Rgb> = Vec::new();
    let mut i: usize = 0;
    while i < layout.len()
        invariant
            i <= layout@.len(),
            w@ == layout@.take(i as int).map_values(|k: KeyPos| color_at(q@, k.led as int)),
        decreases layout@.len() - i,
    {
        w.push(q.get(layout[i].led));
        i = i + 1;
        assert(w@ =~= layout@.take(i as int).map_values(|k: KeyPos| color_at(q@, k.led as int)));
    }
    assert(layout@.take(i as int) =~= layout@);
    w
}

fn same_colours(a: &Vec<Rgb>, b: &Vec<Rgb>) -> (e: bool)
    ensures
        e == (a@ == b@),
{
    if a.len() != b.len() {
        return false;
    }
    let mut i: usize = 0;
    while i < a.len()
        invariant
            a@.len() == b@.len(),
            i <= a@.len(),
            forall|j: int| 0 <= j < i ==> a@[j] == b@[j],
        decreases a@.len() - i,
    {
        if a[i] != b[i] {
            return false;
        }
        i = i + 1;
    }
    assert(a@ =~= b@);
    true
}

fn led_total(gs: &Vec<Group>) -> (n: usize)
    requires
        total_leds(gvs(gs@)) <= usize::MAX,
    ensures
        n == total_leds(gvs(gs@)),
{
    let mut n: usize = 0;
    let mut i: usize = 0;
    while i < gs.len()
        invariant
            i <= gs@.len(),
            total_leds(gvs(gs@)) <= usize::MAX,
            n == total_leds(gvs(gs@).take(i as int)),
        decreases gs@.len() - i,
    {
        proof {
            let v = gvs(gs@);
            assert(v.take(i + 1).drop_last() =~= v.take(i as int));
            assert(v.take(i + 1).last() == v[i as int]);
            lemma_total_prefix_le(v, i + 1);
        }
        n = n + gs[i].leds.len();
        i = i + 1;
    }
    assert(gvs(gs@).take(i as int) =~= gvs(gs@));
    n
}

proof fn lemma_total_prefix_le(gs: Seq<(Rgb, Seq<u8>)>, k: int)
    requires
        0 <= k <= gs.len(),
    ensures
        total_leds(gs.take(k)) <= total_leds(gs),
    decreases gs.len() - k,
{
    if k < gs.len() {
        lemma_total_prefix_le(gs, k + 1);
        assert(gs.take(k + 1).drop_last() =~= gs.take(k));
    } else {
        assert(gs.take(k) =~= gs);
    }
}

/// A collection is a receiver's lighting channel: a known or allow-listed id,
/// on the lighting usage page.
pub open spec fn is_receiver_channel(extra: Seq<DeviceId>) -> spec_fn(CollectionInfo) -> bool {
    |c: CollectionInfo| (spec_known().contains(c.id) || extra.contains(c.id)) && c.usage_page == USAGE_PAGE_LIGHTING
}

fn contains_id(ids: &[DeviceId], id: DeviceId) -> (b: bool)
    ensures
        b == ids@.contains(id),
{
    let mut k: usize = 0;
    while k < ids.len()
        invariant
            k <= ids@.len(),
            forall|j: int| 0 <= j < k ==> ids@[j] != id,
        decreases ids@.len() - k,
    {
        if ids[k] == id {
            assert(ids@[k as int] == id);
            return true;
        }
        k = k + 1;
    }
    false
}

/// Find receivers whose lighting channel is present, among the system's
/// collections, in enumeration order.
///
/// Selection is by device id and usage page, not by probing: the channel
/// takes output reports only, and there is nothing safe to probe with.
/// "Confirmed" can only mean "this id is one we have decoded", never "it just
/// answered".
pub fn discover(all: &[CollectionInfo], extra: &[DeviceId]) -> (r: Vec<DeviceCandidate>)
    ensures
        r@.len() == indices_where(all@, is_receiver_channel(extra@), all@.len() as int).len(),
        forall|k: int|
            0 <= k < r@.len() ==> {
                let c = all@[indices_where(all@, is_receiver_channel(extra@), all@.len() as int)[k] as int];
                &&& (#[trigger] r@[k]).id == c.id
                &&& r@[k].link == Link::Dongle
                &&& r@[k].model == MODEL
                &&& r@[k].path@ == c.path@
                &&& r@[k].product@ == c.product@
                &&& r@[k].confidence == Confidence::Known
                &&& r@[k].confirmed == spec_known().contains(c.id)
            },
{
    let k = known();
    let mut r: Vec<DeviceCandidate> = Vec::new();
    let ghost pred = is_receiver_channel(extra@);
    let mut i: usize = 0;
    while i < all.len()
        invariant
            i <= all@.len(),
            k@ == spec_known(),
            pred == is_receiver_channel(extra@),
            r@.len() == indices_where(all@, pred, i as int).len(),
            forall|j: int|
                0 <= j < r@.len() ==> {
                    let c = all@[indices_where(all@, pred, i as int)[j] as int];
                    &&& (#[trigger] r@[j]).id == c.id
                    &&& r@[j].link == Link::Dongle
                    &&& r@[j].model == MODEL
                    &&& r@[j].path@ == c.path@
                    &&& r@[j].product@ == c.product@
                    &&& r@[j].confidence == Confidence::Known
                    &&& r@[j].confirmed == spec_known().contains(c.id)
                },
        decreases all@.len() - i,
    {
        let c = &all[i];
        let in_known = contains_id(k.as_slice(), c.id);
        let ghost before = indices_where(all@, pred, i as int);
        if (in_known || contains_id(extra, c.id)) && c.usage_page == USAGE_PAGE_LIGHTING {
            r.push(DeviceCandidate {
                id: c.id,
                link: Link::Dongle,
                model: MODEL,
                path: c.path.clone(),
                product: c.product.clone(),
                confidence: Confidence::Known,
                confirmed: in_known,
            });
            proof {
                let now = indices_where(all@, pred, i + 1);
                assert(now == before.push(i as usize));
                assert forall|j: int| 0 <= j < r@.len() implies {
                    let c = all@[now[j] as int];
                    &&& (#[trigger] r@[j]).id == c.id
                    &&& r@[j].link == Link::Dongle
                    &&& r@[j].model == MODEL
                    &&& r@[j].path@ == c.path@
                    &&& r@[j].product@ == c.product@
                    &&& r@[j].confidence == Confidence::Known
                    &&& r@[j].confirmed == spec_known().contains(c.id)
                } by {
                    if j < before.len() {
                        assert(now[j] == before[j]);
                    }
                }
            }
        } else {
            proof {
                assert(indices_where(all@, pred, i + 1) == before);
            }
        }
        i = i + 1;
    }
    r
}

} // verus!
