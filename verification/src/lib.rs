//! Detection of interceptions in aircraft surveillance data.
//!
//! A stream of per-aircraft reports is folded into one [`Ac`] per aircraft: a
//! bounded position history plus the signals by which the aircraft is
//! classified as an interceptor, a target or other traffic. Once per tick the
//! interceptors are paired with the targets that fly close to them.
//!
//! Every quantity is a whole number of a fixed unit, so that every rule is
//! exact: speeds are thousandths of a knot, coordinates are millionths of a
//! degree, altitudes and separations are feet, times are milliseconds since
//! the Unix epoch and durations are milliseconds.

pub mod error;
pub mod geometry;
pub mod index;
pub mod ingest;
pub mod matcher;
pub mod order;
pub mod snapshot;
pub mod track;
pub mod units;

pub use crate::error::{missing_data, Error, MissingField};
pub use crate::geometry::{COORD_UNITS_PER_DEGREE, FEET_PER_DEGREE};
pub use crate::ingest::{is_bzip2_path, next_step, Step};
pub use crate::matcher::{find_interceptions, find_pairs, Interception, InterceptionView};
pub use crate::snapshot::{aircraft_is_on_ground, alt_number, AltitudeOrGround, Position, Snapshot};
pub use crate::track::{Ac, AcView, Class};
pub use crate::units::{
    FAST_COUNT_LATCH, HISTORY_CAPACITY, INTERCEPTOR_MIN_SPEED_KTS, INTERCEPTOR_TIMEOUT_MINS,
    MILLIS_PER_MINUTE, SPEED_UNITS_PER_KNOT, TARGET_MAX_SPEED_KTS, TARGET_MIN_SPEED_KTS,
};
