//! One report of one aircraft, as plain values.

use vstd::prelude::*;

verus! {

/// A barometric altitude reading: a number of feet, or the marker that the
/// aircraft reports itself on the ground.
#[derive(Debug, Clone, Copy, PartialEq, Eq)]
pub enum AltitudeOrGround {
    Altitude(i32),
    OnGround,
}

/// A point on the map, in millionths of a degree.
#[derive(Debug, Clone, Copy, PartialEq, Eq)]
pub struct Position {
    pub lon: i32,
    pub lat: i32,
}

/// The state of one aircraft at one observation. Every field but the
/// identifier and `seen` may be absent from a report.
#[derive(Debug, Clone)]
pub struct Snapshot {
    /// The aircraft's identifier, stable over its reports.
    pub hex: String,
    /// Longitude, in millionths of a degree.
    pub lon: Option<i32>,
    /// Latitude, in millionths of a degree.
    pub lat: Option<i32>,
    /// Ground speed, in thousandths of a knot.
    pub ground_speed: Option<i64>,
    /// Geometric altitude, in feet.
    pub geometric_altitude: Option<i32>,
    /// Barometric altitude.
    pub barometric_altitude: Option<AltitudeOrGround>,
    /// Milliseconds since the position was last updated.
    pub seen_pos: Option<u64>,
    /// Milliseconds since the aircraft was last heard from.
    pub seen: u64,
}

/// A barometric reading as a number of feet, the ground being 0.
pub open spec fn alt_number_spec(alt: AltitudeOrGround) -> int {
    match alt {
        AltitudeOrGround::OnGround => 0,
        AltitudeOrGround::Altitude(feet) => feet as int,
    }
}

/// Turns an altitude into a number (where ground is 0).
pub fn alt_number(alt: AltitudeOrGround) -> (feet: i32)
    ensures
        feet == alt_number_spec(alt),
{
    match alt {
        AltitudeOrGround::OnGround => 0,
        AltitudeOrGround::Altitude(feet) => feet,
    }
}

/// The ground rule: the barometric reading is the ground marker, or a
/// geometric altitude is present and below 500 ft.
pub open spec fn on_ground_spec(snapshot: Snapshot) -> bool {
    ||| snapshot.barometric_altitude == Some(AltitudeOrGround::OnGround)
    ||| (snapshot.geometric_altitude matches Some(feet) && feet < 500)
}

/// Checks whether an aircraft seems to be on the ground (or very close to it).
pub fn aircraft_is_on_ground(aircraft: &Snapshot) -> (on_ground: bool)
    ensures
        on_ground == on_ground_spec(*aircraft),
{
    let marked = match aircraft.barometric_altitude {
        Some(AltitudeOrGround::OnGround) => true,
        _ => false,
    };
    let low = match aircraft.geometric_altitude {
        Some(feet) => feet < 500,
        None => false,
    };
    marked || low
}

/// The ground marker decides whatever the geometric altitude is; without it
/// a geometric altitude decides, below 500 ft for the ground; with neither
/// the aircraft is taken as airborne.
pub proof fn lemma_ground_rule(snapshot: Snapshot)
    ensures
        snapshot.barometric_altitude == Some(AltitudeOrGround::OnGround) ==> on_ground_spec(
            snapshot,
        ),
        snapshot.barometric_altitude != Some(AltitudeOrGround::OnGround) ==> (on_ground_spec(
            snapshot,
        ) <==> snapshot.geometric_altitude is Some && snapshot.geometric_altitude->0 < 500),
{
}

} // verus!
