//! The track of one aircraft: what its reports so far add up to.

use vstd::prelude::*;
use crate::error::{missing_data, reports_missing, Error, MissingField};
use crate::snapshot::{
    aircraft_is_on_ground, alt_number, alt_number_spec, on_ground_spec, Position, Snapshot,
};
use crate::units::{
    in_target_band, is_fast, whole_minutes, FAST_COUNT_LATCH, HISTORY_CAPACITY,
    INTERCEPTOR_MIN_SPEED_KTS, INTERCEPTOR_TIMEOUT_MINS, MILLIS_PER_MINUTE, SPEED_UNITS_PER_KNOT,
    TARGET_MAX_SPEED_KTS, TARGET_MIN_SPEED_KTS,
};

verus! {

/// What a track is taken for.
#[derive(Debug, Clone, Copy, PartialEq, Eq)]
pub enum Class {
    Interceptor,
    Target,
    Other,
}

/// The track of one aircraft.
#[derive(Debug)]
pub struct Ac {
    /// The aircraft's identifier.
    pub hex: String,
    /// The most recent positions with their times, oldest first.
    pub coords: Vec<(i64, Position)>,
    /// The highest ground speed seen, in thousandths of a knot.
    pub max_speed: i64,
    /// The latest ground speed, in thousandths of a knot.
    pub cur_speed: i64,
    /// The latest altitude in feet, 0 on the ground.
    pub cur_alt: i32,
    /// Whether the latest report placed the aircraft on the ground.
    pub is_on_ground: bool,
    /// The last time the aircraft was seen moving faster than
    /// `INTERCEPTOR_MIN_SPEED_KTS`.
    pub time_seen_fast: Option<i64>,
    /// The number of reports in which the aircraft was moving faster than
    /// `INTERCEPTOR_MIN_SPEED_KTS`.
    pub fast_count: u32,
    /// The time of the latest contact.
    pub seen: i64,
}

/// A track as mathematics: sequences and unbounded integers.
pub struct AcView {
    pub hex: Seq<char>,
    pub coords: Seq<(int, Position)>,
    pub max_speed: int,
    pub cur_speed: int,
    pub cur_alt: int,
    pub is_on_ground: bool,
    pub time_seen_fast: Option<int>,
    pub fast_count: nat,
    pub seen: int,
}

impl View for Ac {
    type V = AcView;

    open spec fn view(&self) -> AcView {
        AcView {
            hex: self.hex@,
            coords: self.coords@.map_values(|fix: (i64, Position)| (fix.0 as int, fix.1)),
            max_speed: self.max_speed as int,
            cur_speed: self.cur_speed as int,
            cur_alt: self.cur_alt as int,
            is_on_ground: self.is_on_ground,
            time_seen_fast: match self.time_seen_fast {
                Some(t) => Some(t as int),
                None => None,
            },
            fast_count: self.fast_count as nat,
            seen: self.seen as int,
        }
    }
}

impl AcView {
    /// What every track built from reports satisfies: between 1 and 40
    /// positions, a highest speed that is no less than the latest, and a time
    /// of fast movement exactly when fast movement was counted.
    pub open spec fn wf(self) -> bool {
        &&& 1 <= self.coords.len() <= HISTORY_CAPACITY
        &&& self.max_speed >= self.cur_speed
        &&& (self.fast_count > 0 <==> self.time_seen_fast is Some)
    }

    /// The latest position with its time.
    pub open spec fn cur_coords(self) -> (int, Position) {
        self.coords.last()
    }

    /// The fast-mover rule at `now`: the aircraft was seen fast, fewer than
    /// `INTERCEPTOR_TIMEOUT_MINS` whole minutes ago, more than
    /// `FAST_COUNT_LATCH` times in all, and is not on the ground.
    pub open spec fn is_fast_mover(self, now: int) -> bool {
        &&& self.time_seen_fast matches Some(seen_fast)
        &&& whole_minutes(now - seen_fast) < INTERCEPTOR_TIMEOUT_MINS
        &&& self.fast_count > FAST_COUNT_LATCH
        &&& !self.is_on_ground
    }

    /// The target rule: the latest speed lies strictly between
    /// `TARGET_MIN_SPEED_KTS` and `TARGET_MAX_SPEED_KTS`, off the ground.
    pub open spec fn is_potential_toi(self) -> bool {
        in_target_band(self.cur_speed) && !self.is_on_ground
    }

    /// What the track is taken for at `now`. A fast mover is an interceptor
    /// even while its speed has dropped into the target band.
    pub open spec fn class(self, now: int) -> Class {
        if self.is_fast_mover(now) {
            Class::Interceptor
        } else if self.is_potential_toi() {
            Class::Target
        } else {
            Class::Other
        }
    }
}

/// The last `capacity` items of `history`, or all of it if it has no more.
pub open spec fn keep_latest<T>(history: Seq<T>, capacity: int) -> Seq<T> {
    if history.len() > capacity {
        history.subrange(history.len() - capacity, history.len() as int)
    } else {
        history
    }
}

/// The altitude that a report gives: the geometric one, else the barometric
/// one as a number, else 0.
pub open spec fn altitude_of(snapshot: Snapshot) -> int {
    match snapshot.geometric_altitude {
        Some(feet) => feet as int,
        None => match snapshot.barometric_altitude {
            Some(reading) => alt_number_spec(reading),
            None => 0,
        },
    }
}

/// Whether a report carries a ground speed above the interceptor threshold.
pub open spec fn reports_fast(snapshot: Snapshot) -> bool {
    snapshot.ground_speed matches Some(speed) && is_fast(speed as int)
}

/// The position that a report carries.
pub open spec fn position_of(snapshot: Snapshot) -> Position {
    Position { lon: snapshot.lon->0, lat: snapshot.lat->0 }
}

/// The track `track` after a further report of its aircraft, which carries a
/// position and is processed at `now`.
pub open spec fn updated(track: AcView, now: int, snapshot: Snapshot) -> AcView {
    AcView {
        hex: track.hex,
        coords: keep_latest(
            track.coords.push((now, position_of(snapshot))),
            HISTORY_CAPACITY as int,
        ),
        max_speed: match snapshot.ground_speed {
            Some(speed) => if speed > track.max_speed {
                speed as int
            } else {
                track.max_speed
            },
            None => track.max_speed,
        },
        cur_speed: match snapshot.ground_speed {
            Some(speed) => speed as int,
            None => track.cur_speed,
        },
        cur_alt: altitude_of(snapshot),
        is_on_ground: on_ground_spec(snapshot),
        time_seen_fast: if reports_fast(snapshot) {
            Some(now)
        } else {
            track.time_seen_fast
        },
        fast_count: if reports_fast(snapshot) {
            track.fast_count + 1
        } else {
            track.fast_count
        },
        seen: now,
    }
}

/// The first field, in the order position, ground speed, geometric altitude,
/// time since the position, that `snapshot` lacks and a new track needs.
pub open spec fn first_missing(snapshot: Snapshot) -> Option<MissingField> {
    if snapshot.lon is None || snapshot.lat is None {
        Some(MissingField::Position)
    } else if snapshot.ground_speed is None {
        Some(MissingField::GroundSpeed)
    } else if snapshot.geometric_altitude is None {
        Some(MissingField::GeometricAltitude)
    } else if snapshot.seen_pos is None {
        Some(MissingField::SeenPos)
    } else {
        None
    }
}

/// The track that the first report of an aircraft starts, the report being
/// processed at `now` and lacking nothing. Its one position is dated back to
/// when it was valid, and so is the time it was seen fast; the contact is
/// dated back to when the aircraft was last heard.
pub open spec fn created(now: int, snapshot: Snapshot) -> AcView {
    let position = position_of(snapshot);
    let speed = snapshot.ground_speed->0 as int;
    let fixed_at = now - snapshot.seen_pos->0;
    AcView {
        hex: snapshot.hex@,
        coords: seq![(fixed_at, position)],
        max_speed: speed,
        cur_speed: speed,
        cur_alt: snapshot.geometric_altitude->0 as int,
        is_on_ground: on_ground_spec(snapshot),
        time_seen_fast: if is_fast(speed) { Some(fixed_at) } else { None },
        fast_count: if is_fast(speed) { 1 } else { 0 },
        seen: now - snapshot.seen,
    }
}

impl Ac {
    /// Whether this track satisfies what every track built from reports does.
    pub open spec fn wf(&self) -> bool {
        self@.wf()
    }

    /// Starts a track from the first report of an aircraft, processed at
    /// `now`. A report that lacks the position, the ground speed, the
    /// geometric altitude or the time since the position starts none: the
    /// error names the aircraft and the first of these that is absent.
    ///
    /// The times that the report looks back to must not lie before the
    /// earliest time an `i64` can hold.
    pub fn new(now: i64, aircraft: &Snapshot) -> (made: Result<Ac, Error>)
        requires
            aircraft.seen_pos matches Some(age) ==> now - age >= i64::MIN,
            now - aircraft.seen >= i64::MIN,
        ensures
            match made {
                Ok(ac) => first_missing(*aircraft) is None && ac@ == created(now as int, *aircraft)
                    && ac.wf(),
                Err(error) => first_missing(*aircraft) matches Some(field) && reports_missing(
                    error,
                    aircraft.hex@,
                    field,
                ),
            },
    {
        let (lon, lat) = match (aircraft.lon, aircraft.lat) {
            (Some(lon), Some(lat)) => (lon, lat),
            _ => {
                return Err(missing_data(aircraft.hex.as_str(), MissingField::Position));
            },
        };
        let spd = match aircraft.ground_speed {
            Some(spd) => spd,
            None => {
                return Err(missing_data(aircraft.hex.as_str(), MissingField::GroundSpeed));
            },
        };
        let alt = match aircraft.geometric_altitude {
            Some(alt) => alt,
            None => {
                return Err(missing_data(aircraft.hex.as_str(), MissingField::GeometricAltitude));
            },
        };
        let seen_pos = match aircraft.seen_pos {
            Some(seen_pos) => seen_pos,
            None => {
                return Err(missing_data(aircraft.hex.as_str(), MissingField::SeenPos));
            },
        };
        let fixed_at = back_from(now, seen_pos);
        let is_fast = spd > INTERCEPTOR_MIN_SPEED_KTS * SPEED_UNITS_PER_KNOT;
        let mut coords: Vec<(i64, Position)> = Vec::new();
        coords.push((fixed_at, Position { lon, lat }));
        let ac = Ac {
            hex: aircraft.hex.clone(),
            coords,
            max_speed: spd,
            cur_speed: spd,
            cur_alt: alt,
            is_on_ground: aircraft_is_on_ground(aircraft),
            time_seen_fast: if is_fast {
                Some(fixed_at)
            } else {
                None
            },
            fast_count: if is_fast {
                1
            } else {
                0
            },
            seen: back_from(now, aircraft.seen),
        };
        assert(ac@.coords =~= created(now as int, *aircraft).coords);
        Ok(ac)
    }

    /// Folds a further report of the aircraft, processed at `now`, into the
    /// track. The report must carry a position. The speed, where the report
    /// has one, becomes the latest speed and raises the highest; a fast one is
    /// counted and dated `now`. Altitude and ground status are taken anew from
    /// the report, the contact is dated `now`, and the position joins the
    /// history, from which the oldest entry leaves once there are more than
    /// `HISTORY_CAPACITY`.
    pub fn update(&mut self, now: i64, aircraft: &Snapshot)
        requires
            old(self).wf(),
            aircraft.lon is Some,
            aircraft.lat is Some,
            reports_fast(*aircraft) ==> old(self).fast_count < u32::MAX,
        ensures
            final(self)@ == updated(old(self)@, now as int, *aircraft),
            final(self).wf(),
            final(self).max_speed >= old(self).max_speed,
            final(self).fast_count == old(self).fast_count + (if reports_fast(*aircraft) {
                1int
            } else {
                0int
            }),
    {
        if let Some(spd) = aircraft.ground_speed {
            self.cur_speed = spd;
            if spd > self.max_speed {
                self.max_speed = spd;
            }
            if self.cur_speed > INTERCEPTOR_MIN_SPEED_KTS * SPEED_UNITS_PER_KNOT {
                self.time_seen_fast = Some(now);
                self.fast_count += 1;
            }
        }
        self.cur_alt = match aircraft.geometric_altitude {
            Some(feet) => feet,
            None => match aircraft.barometric_altitude {
                Some(reading) => alt_number(reading),
                None => 0,
            },
        };
        self.is_on_ground = aircraft_is_on_ground(aircraft);
        self.seen = now;
        let position = match (aircraft.lon, aircraft.lat) {
            (Some(lon), Some(lat)) => Position { lon, lat },
            _ => Position { lon: 0, lat: 0 },
        };
        self.coords.push((now, position));
        // Keep the last 40 positions.
        if self.coords.len() > HISTORY_CAPACITY {
            self.coords.remove(0);
        }
        assert(self@.coords =~= updated(old(self)@, now as int, *aircraft).coords);
    }

    /// The latest position with its time.
    pub fn cur_coords(&self) -> (latest: &(i64, Position))
        requires
            self.coords@.len() > 0,
        ensures
            *latest == self.coords@.last(),
            (latest.0 as int, latest.1) == self@.cur_coords(),
    {
        &self.coords[self.coords.len() - 1]
    }

    /// The oldest position that the track remembers, with its time.
    pub fn oldest_coords(&self) -> (oldest: &(i64, Position))
        requires
            self.coords@.len() > 0,
        ensures
            *oldest == self.coords@.first(),
            (oldest.0 as int, oldest.1) == self@.coords.first(),
    {
        &self.coords[0]
    }

    /// Whether the track is a fast mover at `now`.
    pub fn is_fast_mover(&self, now: i64) -> (fast: bool)
        ensures
            fast == self@.is_fast_mover(now as int),
    {
        if let Some(time_seen_fast) = self.time_seen_fast {
            let elapsed: i128 = now as i128 - time_seen_fast as i128;
            let minutes: i128 = if elapsed >= 0 {
                elapsed / (MILLIS_PER_MINUTE as i128)
            } else {
                -((-elapsed) / (MILLIS_PER_MINUTE as i128))
            };
            minutes < INTERCEPTOR_TIMEOUT_MINS as i128 && self.fast_count > FAST_COUNT_LATCH
                && !self.is_on_ground
        } else {
            false
        }
    }

    /// Whether the track may be a target of interest.
    pub fn is_potential_toi(&self) -> (target: bool)
        ensures
            target == self@.is_potential_toi(),
    {
        self.cur_speed > TARGET_MIN_SPEED_KTS * SPEED_UNITS_PER_KNOT && self.cur_speed
            < TARGET_MAX_SPEED_KTS * SPEED_UNITS_PER_KNOT && !self.is_on_ground
    }

    /// What the track is taken for at `now`.
    pub fn class(&self, now: i64) -> (class: Class)
        ensures
            class == self@.class(now as int),
    {
        if self.is_fast_mover(now) {
            Class::Interceptor
        } else if self.is_potential_toi() {
            Class::Target
        } else {
            Class::Other
        }
    }
}

impl Clone for Ac {
    /// A second track with the same contents.
    fn clone(&self) -> (copy: Ac)
        ensures
            copy@ == self@,
            copy.coords@ == self.coords@,
    {
        let mut coords: Vec<(i64, Position)> = Vec::new();
        let mut i: usize = 0;
        while i < self.coords.len()
            invariant
                i <= self.coords@.len(),
                coords@ == self.coords@.take(i as int),
            decreases self.coords@.len() - i,
        {
            let fix = self.coords[i];
            coords.push(fix);
            assert(self.coords@.take(i + 1) =~= self.coords@.take(i as int).push(fix));
            i += 1;
        }
        assert(self.coords@.take(i as int) =~= self.coords@);
        Ac {
            hex: self.hex.clone(),
            coords,
            max_speed: self.max_speed,
            cur_speed: self.cur_speed,
            cur_alt: self.cur_alt,
            is_on_ground: self.is_on_ground,
            time_seen_fast: self.time_seen_fast,
            fast_count: self.fast_count,
            seen: self.seen,
        }
    }
}

/// The track `track` after the reports `reports` of its aircraft, oldest
/// first, each with the time at which it is processed.
pub open spec fn after_updates(track: AcView, reports: Seq<(int, Snapshot)>) -> AcView
    decreases reports.len(),
{
    if reports.len() == 0 {
        track
    } else {
        updated(after_updates(track, reports.drop_last()), reports.last().0, reports.last().1)
    }
}

/// The history entries that `reports` bring, in their order.
pub open spec fn fixes_of(reports: Seq<(int, Snapshot)>) -> Seq<(int, Position)> {
    reports.map_values(|report: (int, Snapshot)| (report.0, position_of(report.1)))
}

/// A track that is well formed stays so under an update.
pub proof fn lemma_update_keeps_wf(track: AcView, now: int, snapshot: Snapshot)
    requires
        track.wf(),
    ensures
        updated(track, now, snapshot).wf(),
{
}

/// After any reports the history is the latest `HISTORY_CAPACITY` entries of
/// what the track held followed by what the reports brought, in that order:
/// it never holds more than `HISTORY_CAPACITY` entries, and the entries that
/// leave are the oldest.
pub proof fn lemma_history_keeps_latest(track: AcView, reports: Seq<(int, Snapshot)>)
    requires
        track.wf(),
    ensures
        after_updates(track, reports).wf(),
        after_updates(track, reports).coords == keep_latest(
            track.coords + fixes_of(reports),
            HISTORY_CAPACITY as int,
        ),
        1 <= after_updates(track, reports).coords.len() <= HISTORY_CAPACITY,
    decreases reports.len(),
{
    if reports.len() == 0 {
        assert(track.coords + fixes_of(reports) =~= track.coords);
    } else {
        let earlier = reports.drop_last();
        lemma_history_keeps_latest(track, earlier);
        let before = track.coords + fixes_of(earlier);
        let fix = (reports.last().0, position_of(reports.last().1));
        assert(track.coords + fixes_of(reports) =~= before.push(fix));
        assert(keep_latest(keep_latest(before, HISTORY_CAPACITY as int).push(fix), HISTORY_CAPACITY as int)
            =~= keep_latest(before.push(fix), HISTORY_CAPACITY as int));
    }
}

/// After `HISTORY_CAPACITY` reports or more the history is exactly what the
/// last `HISTORY_CAPACITY` of them brought, in the order in which they came.
pub proof fn lemma_history_of_long_run(track: AcView, reports: Seq<(int, Snapshot)>)
    requires
        track.wf(),
        reports.len() >= HISTORY_CAPACITY,
    ensures
        after_updates(track, reports).coords == fixes_of(reports).subrange(
            reports.len() - HISTORY_CAPACITY,
            reports.len() as int,
        ),
{
    lemma_history_keeps_latest(track, reports);
    let all = track.coords + fixes_of(reports);
    assert(keep_latest(all, HISTORY_CAPACITY as int) =~= fixes_of(reports).subrange(
        reports.len() - HISTORY_CAPACITY,
        reports.len() as int,
    ));
}

/// The highest speed never falls: after more reports it is no less than after
/// fewer of them.
pub proof fn lemma_max_speed_never_falls(
    track: AcView,
    reports: Seq<(int, Snapshot)>,
    fewer: int,
    more: int,
)
    requires
        0 <= fewer <= more <= reports.len(),
    ensures
        after_updates(track, reports.take(fewer)).max_speed <= after_updates(
            track,
            reports.take(more),
        ).max_speed,
    decreases more - fewer,
{
    if fewer < more {
        lemma_max_speed_never_falls(track, reports, fewer, more - 1);
        assert(reports.take(more).drop_last() =~= reports.take(more - 1));
    }
}

/// The count of fast reports never falls, and one report raises it by exactly
/// one if its ground speed is above the interceptor threshold and leaves it
/// as it is otherwise.
pub proof fn lemma_fast_count_steps(track: AcView, now: int, snapshot: Snapshot)
    ensures
        updated(track, now, snapshot).fast_count == track.fast_count + 1 <==> reports_fast(
            snapshot,
        ),
        updated(track, now, snapshot).fast_count == track.fast_count <==> !reports_fast(snapshot),
{
}

/// A fast mover is never on the ground, and a target never is; a track whose
/// latest report was fast is no target.
pub proof fn lemma_classes(track: AcView, now: int)
    ensures
        track.class(now) == Class::Interceptor <==> track.is_fast_mover(now),
        track.class(now) == Class::Target <==> !track.is_fast_mover(now)
            && track.is_potential_toi(),
        track.class(now) != Class::Other ==> !track.is_on_ground,
        is_fast(track.cur_speed) ==> !track.is_potential_toi(),
{
}

/// The fast-mover status lasts until three minutes have passed since the
/// aircraft was last seen fast, to the millisecond.
pub proof fn lemma_fast_mover_window(track: AcView, now: int)
    ensures
        track.is_fast_mover(now) <==> (track.time_seen_fast matches Some(seen_fast) && now
            - seen_fast < INTERCEPTOR_TIMEOUT_MINS * MILLIS_PER_MINUTE && track.fast_count
            > FAST_COUNT_LATCH && !track.is_on_ground),
{
}

/// The time `age` milliseconds before `now`.
fn back_from(now: i64, age: u64) -> (then: i64)
    requires
        now - age >= i64::MIN,
    ensures
        then == now - age,
{
    let then: i128 = now as i128 - age as i128;
    then as i64
}

} // verus!
