//! What can go wrong, and the text that reports it.

use vstd::prelude::*;
use vstd::string::StringExecFns;

verus! {

/// The errors of this library and of the programs around it.
#[derive(Debug, Clone, PartialEq, Eq)]
pub enum Error {
    /// A source of reports could not be read, decompressed or parsed.
    JsonLoadError(String),
    /// Decoding the sources in parallel failed.
    ParallelMapError(String),
    /// A report lacks a field without which no track can be started. The text
    /// names the aircraft and the field.
    AircraftMissingData(String),
}

/// A field that a track cannot be started without.
#[derive(Debug, Clone, Copy, PartialEq, Eq)]
pub enum MissingField {
    Position,
    GroundSpeed,
    GeometricAltitude,
    SeenPos,
}

/// How the report of a missing field ends.
pub open spec fn missing_field_text(field: MissingField) -> Seq<char> {
    match field {
        MissingField::Position => " is missing position data"@,
        MissingField::GroundSpeed => " is missing ground speed data"@,
        MissingField::GeometricAltitude => " is missing geometric altitude"@,
        MissingField::SeenPos => " is missing seen_pos"@,
    }
}

/// The text that reports that the aircraft `hex` lacks `field`.
pub open spec fn missing_data_text(hex: Seq<char>, field: MissingField) -> Seq<char> {
    "Aircraft "@ + hex + missing_field_text(field)
}

/// Whether `error` reports that the aircraft `hex` lacks `field`.
pub open spec fn reports_missing(error: Error, hex: Seq<char>, field: MissingField) -> bool {
    error matches Error::AircraftMissingData(text) && text@ == missing_data_text(hex, field)
}

/// The error that reports that the aircraft `hex` lacks `field`.
pub fn missing_data(hex: &str, field: MissingField) -> (error: Error)
    ensures
        reports_missing(error, hex@, field),
{
    let tail = match field {
        MissingField::Position => " is missing position data",
        MissingField::GroundSpeed => " is missing ground speed data",
        MissingField::GeometricAltitude => " is missing geometric altitude",
        MissingField::SeenPos => " is missing seen_pos",
    };
    let mut text = String::from_str("Aircraft ");
    text.append(hex);
    text.append(tail);
    Error::AircraftMissingData(text)
}

} // verus!
