//! Instants on the UTC time line and the interval test used by temporal filters.
use vstd::prelude::*;

verus! {

/// Nanoseconds in one second.
pub const NANOS_PER_SECOND: i128 = 1_000_000_000;

/// An instant: whole seconds since the Unix epoch and a nanosecond fraction.
#[derive(Debug, Clone, Copy, PartialEq, Eq, Structural)]
pub struct Timestamp {
    pub seconds: i64,
    pub nanos: u32,
}

/// The instant as a count of nanoseconds since the epoch.
pub open spec fn total_nanos(t: Timestamp) -> int {
    t.seconds * 1_000_000_000 + t.nanos
}

/// Chronological order of instants: by second, then by fraction.
pub open spec fn instant_le(a: Timestamp, b: Timestamp) -> bool {
    a.seconds < b.seconds || (a.seconds == b.seconds && a.nanos <= b.nanos)
}

/// Whole seconds from `anchor` to `now`, truncated, and zero when `now` is not later.
pub open spec fn elapsed_whole_seconds(anchor: Timestamp, now: Timestamp) -> int {
    let diff = total_nanos(now) - total_nanos(anchor);
    if diff <= 0 {
        0
    } else {
        diff / 1_000_000_000
    }
}

impl Timestamp {
    /// Whether `self` is not later than `other`.
    pub fn not_after(&self, other: &Timestamp) -> (le: bool)
        ensures
            le == instant_le(*self, *other),
    {
        self.seconds < other.seconds || (self.seconds == other.seconds && self.nanos <= other.nanos)
    }
}

/// Whole seconds elapsed from `anchor` to `now`, never negative.
pub fn elapsed_seconds(anchor: Timestamp, now: Timestamp) -> (elapsed: i128)
    ensures
        elapsed == elapsed_whole_seconds(anchor, now),
        elapsed >= 0,
{
    let a: i128 = (anchor.seconds as i128) * NANOS_PER_SECOND + (anchor.nanos as i128);
    let n: i128 = (now.seconds as i128) * NANOS_PER_SECOND + (now.nanos as i128);
    let diff: i128 = n - a;
    if diff <= 0 {
        0
    } else {
        diff / NANOS_PER_SECOND
    }
}

/// A possibly open-ended time interval; a missing bound is unbounded.
#[derive(Debug, Clone, Copy, PartialEq, Eq, Structural)]
pub struct TimeInterval {
    pub start: Option<Timestamp>,
    pub end: Option<Timestamp>,
}

/// Whether a candidate span meets a requested interval. An absent request admits every
/// candidate; a candidate without a start is never admitted by a request; a
/// candidate without an end is the instant at its start.
pub open spec fn spec_interval_overlaps(
    requested: Option<TimeInterval>,
    candidate_start: Option<Timestamp>,
    candidate_end: Option<Timestamp>,
) -> bool {
    match requested {
        None => true,
        Some(req) => match candidate_start {
            None => false,
            Some(cs) => {
                let ce = match candidate_end {
                    Some(e) => e,
                    None => cs,
                };
                (match req.end {
                    None => true,
                    Some(end) => instant_le(cs, end),
                }) && (match req.start {
                    None => true,
                    Some(start) => instant_le(start, ce),
                })
            },
        },
    }
}

/// Whether the candidate span `[candidate_start, candidate_end]` overlaps `requested`.
pub fn interval_overlaps(
    requested: Option<TimeInterval>,
    candidate_start: Option<Timestamp>,
    candidate_end: Option<Timestamp>,
) -> (overlaps: bool)
    ensures
        overlaps == spec_interval_overlaps(requested, candidate_start, candidate_end),
{
    let requested = match requested {
        None => return true,
        Some(r) => r,
    };
    let candidate_start = match candidate_start {
        None => return false,
        Some(s) => s,
    };
    let candidate_end = match candidate_end {
        Some(e) => e,
        None => candidate_start,
    };
    let before_end = match requested.end {
        None => true,
        Some(end) => candidate_start.not_after(&end),
    };
    let after_start = match requested.start {
        None => true,
        Some(start) => start.not_after(&candidate_end),
    };
    before_end && after_start
}

/// A candidate is admitted exactly when the requested interval is absent, or when the
/// candidate has a start and neither lies wholly before the other; widening the
/// request (dropping a bound) never rejects a candidate that was admitted.
pub proof fn widening_request_keeps_candidates(
    start: Option<Timestamp>,
    end: Option<Timestamp>,
    candidate_start: Option<Timestamp>,
    candidate_end: Option<Timestamp>,
)
    requires
        spec_interval_overlaps(
            Some(TimeInterval { start, end }),
            candidate_start,
            candidate_end,
        ),
    ensures
        spec_interval_overlaps(
            Some(TimeInterval { start: None, end }),
            candidate_start,
            candidate_end,
        ),
        spec_interval_overlaps(
            Some(TimeInterval { start, end: None }),
            candidate_start,
            candidate_end,
        ),
        spec_interval_overlaps(None, candidate_start, candidate_end),
{
}

} // verus!
