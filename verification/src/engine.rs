//! The render engine's decisions.
//!
//! The engine thread owns the keyboard: it takes commands from the UI,
//! reconnects when the board goes away, renders and streams frames. The
//! thread, the clock, the HID handle and the effects are the caller's; this
//! is the state those steps decide on, in microseconds of a monotonic clock.

use vstd::prelude::*;

use crate::device::DeviceId;
use crate::f75::protocol::MAX_FPS;
use crate::pacing::{due, spec_due, MICROS_PER_MS};

verus! {

/// A radio link times out the occasional write where a cable never would:
/// this many failures in a row count as the board being gone.
pub const WRITE_FAILURES_BEFORE_DISCONNECT: u32 = 3;

/// How often a disconnected engine tries to open a board.
pub const OPEN_RETRY_US: u64 = 2000 * MICROS_PER_MS;

/// How often edited scripts are looked for.
pub const RESCAN_US: u64 = 750 * MICROS_PER_MS;

/// Device ids a "not found" message says were searched: the wired board's
/// known ids, the receivers', and the allow-list.
pub open spec fn spec_searched(allow_len: int) -> int {
    1 + 1 + allow_len
}

pub fn searched(allow_len: usize) -> (n: usize)
    requires
        allow_len <= usize::MAX - 2,
    ensures
        n == spec_searched(allow_len as int),
{
    crate::f75::protocol::known().len() + crate::dongle::known().len() + allow_len
}

/// The failure count after a write, and whether to give up on the board:
/// a success clears the count; a failure adds to it, and the third in a row
/// gives up and starts the count again.
pub open spec fn spec_after_write(failures: u32, ok: bool) -> (u32, bool) {
    if ok {
        (0, false)
    } else if failures + 1 >= WRITE_FAILURES_BEFORE_DISCONNECT {
        (0, true)
    } else {
        ((failures + 1) as u32, false)
    }
}

/// The failure count after a run of writes with these outcomes, from a
/// fresh connection, and whether any of them gave up on the board.
pub open spec fn spec_after_writes(oks: Seq<bool>) -> (u32, bool)
    decreases oks.len(),
{
    if oks.len() == 0 {
        (0, false)
    } else {
        let before = spec_after_writes(oks.drop_last());
        let step = spec_after_write(before.0, oks.last());
        (step.0, before.1 || step.1)
    }
}

/// How many writes at the end of the run failed in a row.
pub open spec fn trailing_failures(oks: Seq<bool>) -> nat
    decreases oks.len(),
{
    if oks.len() == 0 || oks.last() {
        0
    } else {
        trailing_failures(oks.drop_last()) + 1
    }
}

/// The writes at `i`, `i + 1` and `i + 2` all failed.
pub open spec fn three_failures_at(oks: Seq<bool>, i: int) -> bool {
    !oks[i] && !oks[i + 1] && !oks[i + 2]
}

/// No three writes in a row failed.
pub open spec fn no_three_failures_in_a_row(oks: Seq<bool>) -> bool {
    forall|i: int| 0 <= i && i + 2 < oks.len() ==> !#[trigger] three_failures_at(oks, i)
}

proof fn lemma_trailing_failures_fit(oks: Seq<bool>)
    ensures
        trailing_failures(oks) <= oks.len(),
    decreases oks.len(),
{
    if oks.len() > 0 {
        lemma_trailing_failures_fit(oks.drop_last());
    }
}

proof fn lemma_trailing_failures_are_failures(oks: Seq<bool>, k: int)
    requires
        0 <= k < trailing_failures(oks),
    ensures
        !oks[oks.len() - 1 - k],
    decreases oks.len(),
{
    lemma_trailing_failures_fit(oks);
    let p = oks.drop_last();
    assert(oks.len() > 0 && !oks.last() && trailing_failures(oks) == trailing_failures(p) + 1);
    if k > 0 {
        lemma_trailing_failures_are_failures(p, k - 1);
        assert(p[p.len() - 1 - (k - 1)] == oks[oks.len() - 1 - k]);
    }
}

/// A board is never given up on over failures that do not come three in a
/// row: from a fresh connection, such a run of writes never disconnects, and
/// leaves the count at the failures that ended it.
pub proof fn lemma_scattered_failures_keep_the_board(oks: Seq<bool>)
    requires
        no_three_failures_in_a_row(oks),
    ensures
        spec_after_writes(oks) == (trailing_failures(oks) as u32, false),
        trailing_failures(oks) < WRITE_FAILURES_BEFORE_DISCONNECT,
    decreases oks.len(),
{
    if oks.len() > 0 {
        let p = oks.drop_last();
        assert(no_three_failures_in_a_row(p)) by {
            assert forall|i: int| 0 <= i && i + 2 < p.len() implies !#[trigger] three_failures_at(p, i) by {
                assert(!three_failures_at(oks, i));
            }
        }
        lemma_scattered_failures_keep_the_board(p);
        if !oks.last() && trailing_failures(p) >= 2 {
            lemma_trailing_failures_fit(p);
            lemma_trailing_failures_are_failures(p, 0);
            lemma_trailing_failures_are_failures(p, 1);
            let n = oks.len() as int;
            assert(p[n - 2] == oks[n - 2] && p[n - 3] == oks[n - 3]);
            assert(!oks[n - 2] && !oks[n - 3] && !oks[n - 1]);
            assert(three_failures_at(oks, n - 3));
        }
    }
}

/// The third failed write in a row gives up on the board.
pub proof fn lemma_third_failure_in_a_row_disconnects(oks: Seq<bool>)
    requires
        oks.len() >= 3,
        no_three_failures_in_a_row(oks.drop_last()),
        !oks[oks.len() - 1],
        !oks[oks.len() - 2],
        !oks[oks.len() - 3],
    ensures
        spec_after_writes(oks) == (0u32, true),
{
    let p = oks.drop_last();
    lemma_scattered_failures_keep_the_board(p);
    let n = oks.len() as int;
    let q = p.drop_last();
    assert(q.last() == oks[n - 3]);
    assert(p.last() == oks[n - 2]);
    assert(trailing_failures(q) >= 1);
    assert(trailing_failures(p) >= 2);
}

/// What the engine keeps between passes of its loop.
pub struct EngineState {
    /// The effect being rendered.
    pub selected: usize,
    /// Paused means no rendering and no writes: the board holds its frame.
    pub running: bool,
    pub max_fps: u32,
    /// The device the user pinned, if any. Never silently substituted.
    pub pinned: Option<DeviceId>,
    /// Extra ids to treat as known, from settings and from pins.
    pub allow: Vec<DeviceId>,
    /// Writes that have failed in a row.
    pub write_failures: u32,
    pub last_open_attempt: Option<u64>,
    /// False when what is plugged in must be enumerated afresh before the
    /// next open.
    pub enumeration_fresh: bool,
    pub last_rescan: u64,
}

impl EngineState {
    /// The state at start-up: first effect, running, at the cable's ceiling,
    /// nothing enumerated.
    pub fn new(pinned: Option<DeviceId>, allow: Vec<DeviceId>, now_us: u64) -> (s: EngineState)
        ensures
            s.selected == 0,
            s.running,
            s.max_fps == MAX_FPS,
            s.pinned == pinned,
            s.allow@ == allow@,
            s.write_failures == 0,
            s.last_open_attempt is None,
            !s.enumeration_fresh,
            s.last_rescan == now_us,
    {
        EngineState {
            selected: 0,
            running: true,
            max_fps: MAX_FPS,
            pinned,
            allow,
            write_failures: 0,
            last_open_attempt: None,
            enumeration_fresh: false,
            last_rescan: now_us,
        }
    }

    /// Select an effect, if there is one at that index. Returns whether the
    /// selection changed, which restarts the effect's clock and parameters.
    pub fn select_effect(&mut self, i: usize, count: usize) -> (changed: bool)
        ensures
            changed == (i < count),
            final(self).selected == (if i < count {
                i
            } else {
                old(self).selected
            }),
            final(self).running == old(self).running,
            final(self).pinned == old(self).pinned,
            final(self).allow@ == old(self).allow@,
            final(self).write_failures == old(self).write_failures,
            final(self).enumeration_fresh == old(self).enumeration_fresh,
            final(self).last_open_attempt == old(self).last_open_attempt,
    {
        if i < count {
            self.selected = i;
            true
        } else {
            false
        }
    }

    /// Keep the selection in range after the effect list changed length.
    pub fn clamp_selection(&mut self, count: usize)
        ensures
            final(self).selected == (if old(self).selected < (if count > 0 {
                count - 1
            } else {
                0
            }) {
                old(self).selected as int
            } else {
                if count > 0 {
                    count - 1
                } else {
                    0
                }
            }),
            final(self).running == old(self).running,
            final(self).pinned == old(self).pinned,
            final(self).allow@ == old(self).allow@,
            final(self).write_failures == old(self).write_failures,
            final(self).enumeration_fresh == old(self).enumeration_fresh,
            final(self).last_open_attempt == old(self).last_open_attempt,
    {
        let last = if count > 0 {
            count - 1
        } else {
            0
        };
        if self.selected > last {
            self.selected = last;
        }
    }

    /// Pin a device, or unpin with `None`. A pinned id is allow-listed so a
    /// scan treats it as known. The caller drops its handle: the next pass
    /// reconnects to whatever was asked for, after a fresh enumeration.
    pub fn select_device(&mut self, p: Option<DeviceId>)
        ensures
            final(self).pinned == p,
            final(self).allow@ == (match p {
                Some(id) => if old(self).allow@.contains(id) {
                    old(self).allow@
                } else {
                    old(self).allow@.push(id)
                },
                None => old(self).allow@,
            }),
            !final(self).enumeration_fresh,
            final(self).last_open_attempt is None,
            final(self).selected == old(self).selected,
            final(self).running == old(self).running,
            final(self).write_failures == old(self).write_failures,
    {
        self.pinned = p;
        if let Some(id) = p {
            let mut k: usize = 0;
            let mut found = false;
            while k < self.allow.len()
                invariant
                    k <= self.allow@.len(),
                    self.allow@ == old(self).allow@,
                    found == (exists|j: int| 0 <= j < k && self.allow@[j] == id),
                decreases self.allow@.len() - k,
            {
                if self.allow[k] == id {
                    found = true;
                }
                k = k + 1;
            }
            if !found {
                self.allow.push(id);
            }
        }
        self.enumeration_fresh = false;
        self.last_open_attempt = None;
    }

    /// Whether an open is due: the first time, then no more often than every
    /// two seconds. Marks the attempt when it is.
    pub fn open_due(&mut self, now_us: u64) -> (d: bool)
        ensures
            d == (match old(self).last_open_attempt {
                None => true,
                Some(t) => crate::pacing::spec_elapsed(t, now_us) > OPEN_RETRY_US,
            }),
            final(self).last_open_attempt == (if d {
                Some(now_us)
            } else {
                old(self).last_open_attempt
            }),
            final(self).selected == old(self).selected,
            final(self).running == old(self).running,
            final(self).pinned == old(self).pinned,
            final(self).allow@ == old(self).allow@,
            final(self).write_failures == old(self).write_failures,
            final(self).enumeration_fresh == old(self).enumeration_fresh,
    {
        let d = match self.last_open_attempt {
            None => true,
            Some(t) => {
                let elapsed = if now_us >= t {
                    now_us - t
                } else {
                    0
                };
                elapsed > OPEN_RETRY_US
            },
        };
        if d {
            self.last_open_attempt = Some(now_us);
        }
        d
    }

    /// Whether edited scripts are due to be looked for. Marks the look when
    /// they are.
    pub fn rescan_due(&mut self, now_us: u64) -> (d: bool)
        ensures
            d == (crate::pacing::spec_elapsed(old(self).last_rescan, now_us) > RESCAN_US),
            final(self).last_rescan == (if d {
                now_us
            } else {
                old(self).last_rescan
            }),
            final(self).selected == old(self).selected,
            final(self).running == old(self).running,
            final(self).pinned == old(self).pinned,
            final(self).allow@ == old(self).allow@,
            final(self).write_failures == old(self).write_failures,
            final(self).enumeration_fresh == old(self).enumeration_fresh,
            final(self).last_open_attempt == old(self).last_open_attempt,
    {
        let elapsed = if now_us >= self.last_rescan {
            now_us - self.last_rescan
        } else {
            0
        };
        let d = elapsed > RESCAN_US;
        if d {
            self.last_rescan = now_us;
        }
        d
    }

    /// A board was opened and put into per-key mode.
    pub fn connected(&mut self)
        ensures
            final(self).write_failures == 0,
            final(self).selected == old(self).selected,
            final(self).running == old(self).running,
            final(self).pinned == old(self).pinned,
            final(self).allow@ == old(self).allow@,
            final(self).enumeration_fresh == old(self).enumeration_fresh,
            final(self).last_open_attempt == old(self).last_open_attempt,
    {
        self.write_failures = 0;
    }

    /// Opening a chosen board failed: its path went stale between
    /// enumerating and opening, so the next attempt must enumerate afresh.
    pub fn open_failed(&mut self)
        ensures
            !final(self).enumeration_fresh,
            final(self).write_failures == old(self).write_failures,
            final(self).selected == old(self).selected,
            final(self).running == old(self).running,
            final(self).pinned == old(self).pinned,
            final(self).allow@ == old(self).allow@,
            final(self).last_open_attempt == old(self).last_open_attempt,
    {
        self.enumeration_fresh = false;
    }

    /// Record how a frame write went. Returns whether to give up on the
    /// board: only after three failures in a row, since over the radio one
    /// failure is as likely a timed-out write as an unplugged board. Giving
    /// up resets the count and forces a fresh enumeration, because whatever
    /// is plugged in may have changed.
    pub fn frame_written(&mut self, ok: bool) -> (disconnect: bool)
        requires
            old(self).write_failures < WRITE_FAILURES_BEFORE_DISCONNECT,
        ensures
            (final(self).write_failures, disconnect) == spec_after_write(old(self).write_failures, ok),
            final(self).write_failures < WRITE_FAILURES_BEFORE_DISCONNECT,
            final(self).enumeration_fresh == (old(self).enumeration_fresh && !disconnect),
            final(self).selected == old(self).selected,
            final(self).running == old(self).running,
            final(self).pinned == old(self).pinned,
            final(self).allow@ == old(self).allow@,
            final(self).last_open_attempt == old(self).last_open_attempt,
    {
        if ok {
            self.write_failures = 0;
            return false;
        }
        self.write_failures = self.write_failures + 1;
        if self.write_failures >= WRITE_FAILURES_BEFORE_DISCONNECT {
            self.write_failures = 0;
            self.enumeration_fresh = false;
            true
        } else {
            false
        }
    }
}

} // verus!
