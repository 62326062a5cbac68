//! The ways in which a payload of the telemetry source can be malformed.

use vstd::prelude::*;

verus! {

/// Why a payload could not be decoded.
#[derive(Clone, Copy, Debug, PartialEq, Eq, Structural)]
pub enum PayloadError {
    /// The payload cannot be read as JSON.
    InvalidJson,
    /// The payload has no array under `data`.
    ExpectedDataArray,
    /// A zone has no string under `id`.
    ExpectedZoneString,
    /// A vehicle has no string under `id`.
    ExpectedVehicleId,
    /// The attributes of a vehicle are missing or malformed.
    InvalidAttributes,
    /// The time of the last location update cannot be read.
    InvalidTimestamp,
}

impl PayloadError {
    /// The text of the error for a human reader.
    pub open spec fn text(self) -> Seq<char> {
        match self {
            PayloadError::InvalidJson => "invalid json"@,
            PayloadError::ExpectedDataArray => "invalid json, expected data array"@,
            PayloadError::ExpectedZoneString => "invalid json, expected zone string"@,
            PayloadError::ExpectedVehicleId => "invalid json, expected vehicle id string"@,
            PayloadError::InvalidAttributes => "invalid json, expected vehicle attributes"@,
            PayloadError::InvalidTimestamp => "invalid timestamp"@,
        }
    }

    /// Describes the error.
    pub fn message(&self) -> (message: String)
        ensures
            message@ == self.text(),
    {
        match self {
            PayloadError::InvalidJson => "invalid json".to_owned(),
            PayloadError::ExpectedDataArray => "invalid json, expected data array".to_owned(),
            PayloadError::ExpectedZoneString => "invalid json, expected zone string".to_owned(),
            PayloadError::ExpectedVehicleId => "invalid json, expected vehicle id string".to_owned(),
            PayloadError::InvalidAttributes => "invalid json, expected vehicle attributes".to_owned(),
            PayloadError::InvalidTimestamp => "invalid timestamp".to_owned(),
        }
    }
}

} // verus!
