use fleet_reconcile::error::PayloadError;
use fleet_reconcile::instant::parse_instant;
use fleet_reconcile::models::Timestamp;

#[test]
fn parses_utc_instant() {
    assert_eq!(
        parse_instant("2024-01-01T10:05:00Z"),
        Ok(Timestamp { secs: 1_704_103_500, nanos: 0 })
    );
}

#[test]
fn parses_epoch() {
    assert_eq!(parse_instant("1970-01-01T00:00:00Z"), Ok(Timestamp { secs: 0, nanos: 0 }));
}

#[test]
fn parses_fraction_of_a_second() {
    assert_eq!(
        parse_instant("2024-01-01T10:05:00.250Z"),
        Ok(Timestamp { secs: 1_704_103_500, nanos: 250_000_000 })
    );
}

#[test]
fn parses_offset_into_utc() {
    assert_eq!(
        parse_instant("2024-01-01T12:05:00+02:00"),
        Ok(Timestamp { secs: 1_704_103_500, nanos: 0 })
    );
}

#[test]
fn parses_space_as_separator() {
    assert_eq!(
        parse_instant("2024-01-01 10:05:00Z"),
        Ok(Timestamp { secs: 1_704_103_500, nanos: 0 })
    );
}

#[test]
fn parses_instant_before_epoch() {
    assert_eq!(parse_instant("1969-12-31T23:59:59Z"), Ok(Timestamp { secs: -1, nanos: 0 }));
}

#[test]
fn rejects_what_is_no_instant() {
    assert_eq!(parse_instant(""), Err(PayloadError::InvalidTimestamp));
    assert_eq!(parse_instant("yesterday"), Err(PayloadError::InvalidTimestamp));
    assert_eq!(parse_instant("2024-01-01"), Err(PayloadError::InvalidTimestamp));
    assert_eq!(parse_instant("2024-13-01T10:05:00Z"), Err(PayloadError::InvalidTimestamp));
    assert_eq!(parse_instant("2024-01-01T10:05:00"), Err(PayloadError::InvalidTimestamp));
}

#[test]
fn error_messages() {
    assert_eq!(PayloadError::InvalidJson.message(), "invalid json");
    assert_eq!(PayloadError::ExpectedDataArray.message(), "invalid json, expected data array");
    assert_eq!(PayloadError::ExpectedZoneString.message(), "invalid json, expected zone string");
    assert_eq!(
        PayloadError::ExpectedVehicleId.message(),
        "invalid json, expected vehicle id string"
    );
    assert_eq!(
        PayloadError::InvalidAttributes.message(),
        "invalid json, expected vehicle attributes"
    );
    assert_eq!(PayloadError::InvalidTimestamp.message(), "invalid timestamp");
}
