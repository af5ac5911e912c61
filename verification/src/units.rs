//! Units and thresholds.

use vstd::prelude::*;

verus! {

/// Speeds are held in thousandths of a knot.
pub const SPEED_UNITS_PER_KNOT: i64 = 1000;

/// The speed, in knots, above which an aircraft counts as moving fast.
pub const INTERCEPTOR_MIN_SPEED_KTS: i64 = 350;

/// The speed, in knots, below which an airborne aircraft may be a target.
pub const TARGET_MAX_SPEED_KTS: i64 = 250;

/// The speed, in knots, above which an airborne aircraft may be a target.
pub const TARGET_MIN_SPEED_KTS: i64 = 80;

/// For this many minutes after it was last seen moving fast an aircraft
/// keeps its interceptor status.
pub const INTERCEPTOR_TIMEOUT_MINS: i64 = 3;

/// An aircraft must have been seen moving fast more often than this to be an
/// interceptor.
pub const FAST_COUNT_LATCH: u32 = 10;

/// The number of positions a track remembers.
pub const HISTORY_CAPACITY: usize = 40;

/// Times are held in milliseconds.
pub const MILLIS_PER_MINUTE: i64 = 60_000;

/// Whether a speed in thousandths of a knot is above the interceptor
/// threshold.
pub open spec fn is_fast(speed: int) -> bool {
    speed > INTERCEPTOR_MIN_SPEED_KTS * SPEED_UNITS_PER_KNOT
}

/// Whether a speed in thousandths of a knot lies strictly inside the target
/// band.
pub open spec fn in_target_band(speed: int) -> bool {
    TARGET_MIN_SPEED_KTS * SPEED_UNITS_PER_KNOT < speed < TARGET_MAX_SPEED_KTS
        * SPEED_UNITS_PER_KNOT
}

/// The whole minutes in a span of `millis` milliseconds, a part of a minute
/// being dropped whichever sign the span has.
pub open spec fn whole_minutes(millis: int) -> int {
    if millis >= 0 {
        millis / (MILLIS_PER_MINUTE as int)
    } else {
        -((-millis) / (MILLIS_PER_MINUTE as int))
    }
}

} // verus!
