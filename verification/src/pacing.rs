//! Write pacing over a monotonic clock, in microseconds.
//!
//! Both links starve the keyboard's key-scanning loop if written faster than
//! the firmware absorbs, so every write is spaced from the one before. The
//! clock is read by the caller; what is decided here is how long to wait.

use vstd::prelude::*;

verus! {

pub const MICROS_PER_MS: u64 = 1000;

/// Time since `prev`, as a monotonic clock reports it: never negative.
pub open spec fn spec_elapsed(prev: u64, now: u64) -> u64 {
    if now >= prev {
        (now - prev) as u64
    } else {
        0
    }
}

/// How much longer to wait so that at least `min` has passed since `prev`.
/// Nothing to wait for before the first write.
pub open spec fn spec_remaining(prev: Option<u64>, now: u64, min: u64) -> u64 {
    match prev {
        None => 0,
        Some(p) => if spec_elapsed(p, now) < min {
            (min - spec_elapsed(p, now)) as u64
        } else {
            0
        },
    }
}

/// How much longer to wait so that at least `min` has passed since `prev`.
pub fn remaining(prev: Option<u64>, now: u64, min: u64) -> (w: u64)
    ensures
        w == spec_remaining(prev, now, min),
        w <= min,
{
    match prev {
        None => 0,
        Some(p) => {
            let elapsed = if now >= p {
                now - p
            } else {
                0
            };
            if elapsed < min {
                min - elapsed
            } else {
                0
            }
        },
    }
}

/// Whether at least `interval` has passed since `prev`; always true when
/// nothing has happened yet.
pub open spec fn spec_due(prev: Option<u64>, now: u64, interval: u64) -> bool {
    match prev {
        None => true,
        Some(p) => spec_elapsed(p, now) >= interval,
    }
}

pub fn due(prev: Option<u64>, now: u64, interval: u64) -> (d: bool)
    ensures
        d == spec_due(prev, now, interval),
{
    match prev {
        None => true,
        Some(p) => {
            let elapsed = if now >= p {
                now - p
            } else {
                0
            };
            elapsed >= interval
        },
    }
}

/// Waiting out the remainder, then checking again, finds nothing left to wait
/// for: a write paced this way is never closer than `min` to the last.
pub proof fn lemma_waiting_is_enough(prev: Option<u64>, now: u64, min: u64)
    requires
        now as int + spec_remaining(prev, now, min) <= u64::MAX,
        prev matches Some(p) ==> p <= now,
    ensures
        spec_remaining(prev, (now + spec_remaining(prev, now, min)) as u64, min) == 0,
        prev matches Some(p) ==> spec_elapsed(p, (now + spec_remaining(prev, now, min)) as u64) >= min,
{
}

} // verus!
