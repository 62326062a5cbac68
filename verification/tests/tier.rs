use fleet_reconcile::error::PayloadError;
use fleet_reconcile::models::{Attr, Log, Timestamp, Vehicle};
use fleet_reconcile::tier::{
    attributes, compose, describe, document, entry_count, vehicle, vehicle_address, vehicle_attributes,
    vehicles, vehicles_address, zones, zones_address, zones_in,
};

fn attr(zone: &str, updated: &str) -> Attr {
    Attr {
        battery_level: 73,
        code: 4711,
        has_helmet: true,
        has_helmet_box: false,
        iot_vendor: "okai".to_string(),
        is_rentable: true,
        last_location_update: updated.to_string(),
        last_state_change: "2023-12-31T08:00:00Z".to_string(),
        lat: 525_200_066,
        licence_plate: "123ABC".to_string(),
        lng: 134_049_540,
        max_speed: 20,
        state: "ACTIVE".to_string(),
        vehicle_type: "escooter".to_string(),
        zone_id: zone.to_string(),
    }
}

fn expected_vehicle(uuid: &str, zone: &str) -> Vehicle {
    Vehicle {
        uuid: uuid.to_string(),
        code: 4711,
        max_speed: 20,
        has_box: false,
        has_helmet: true,
        zone: zone.to_string(),
        kind: "escooter".to_string(),
        vendor: "okai".to_string(),
        license_plate: "123ABC".to_string(),
    }
}

fn expected_log(uuid: &str, secs: i64) -> Log {
    Log {
        vehicle_uuid: uuid.to_string(),
        time: Timestamp { secs, nanos: 0 },
        lat: 525_200_066,
        lng: 134_049_540,
        battery: 73,
        rentable: true,
        state: "ACTIVE".to_string(),
    }
}

const LISTING: &str = r#"{"data":[
    {"id":"v1","type":"vehicle","attributes":{"state":"ACTIVE"}},
    {"id":"v2","type":"vehicle","attributes":{"state":"ACTIVE"}}
]}"#;

#[test]
fn zones_are_listed_in_order() {
    assert_eq!(
        zones(r#"{"data":[{"id":"BERLIN","type":"zone"},{"id":"PARIS"},{"id":""}]}"#),
        Ok(vec!["BERLIN".to_string(), "PARIS".to_string(), "".to_string()])
    );
}

#[test]
fn no_zones() {
    assert_eq!(zones(r#"{"data":[]}"#), Ok(vec![]));
}

#[test]
fn zones_need_json() {
    assert_eq!(zones("<html>"), Err(PayloadError::InvalidJson));
    assert_eq!(zones(""), Err(PayloadError::InvalidJson));
    assert_eq!(zones(r#"{"data":[{"id":"BERLIN"}]"#), Err(PayloadError::InvalidJson));
}

#[test]
fn zones_need_a_data_array() {
    assert_eq!(zones("{}"), Err(PayloadError::ExpectedDataArray));
    assert_eq!(zones(r#"{"data":{"id":"BERLIN"}}"#), Err(PayloadError::ExpectedDataArray));
    assert_eq!(zones(r#"{"Data":[]}"#), Err(PayloadError::ExpectedDataArray));
    assert_eq!(zones("[]"), Err(PayloadError::ExpectedDataArray));
    assert_eq!(zones("null"), Err(PayloadError::ExpectedDataArray));
}

#[test]
fn zones_need_string_ids() {
    assert_eq!(
        zones(r#"{"data":[{"id":"BERLIN"},{"id":7}]}"#),
        Err(PayloadError::ExpectedZoneString)
    );
    assert_eq!(zones(r#"{"data":[{"name":"BERLIN"}]}"#), Err(PayloadError::ExpectedZoneString));
    assert_eq!(zones(r#"{"data":["BERLIN"]}"#), Err(PayloadError::ExpectedZoneString));
}

#[test]
fn zones_of_a_document() {
    let doc = document(r#"{"data":[{"id":"ROME"}]}"#).unwrap();
    assert_eq!(zones_in(&doc), Ok(vec!["ROME".to_string()]));
}

#[test]
fn document_is_what_serde_json_reads() {
    let doc = document(r#"{"data":[{"id":"v1","attributes":{"code":5}}]}"#).unwrap();
    let expected: serde_json::Value =
        serde_json::from_str(r#"{"data":[{"id":"v1","attributes":{"code":5}}]}"#).unwrap();
    assert_eq!(doc, expected);
    assert_eq!(document("{"), Err(PayloadError::InvalidJson));
}

#[test]
fn entries_are_counted() {
    assert_eq!(entry_count(&document(LISTING).unwrap()), Ok(2));
    assert_eq!(entry_count(&document(r#"{"data":[]}"#).unwrap()), Ok(0));
    assert_eq!(
        entry_count(&document(r#"{"data":"none"}"#).unwrap()),
        Err(PayloadError::ExpectedDataArray)
    );
}

#[test]
fn attributes_are_handed_out_for_decoding() {
    let doc = document(r#"{"data":[{"id":"v1","attributes":{"code":5}},{"id":"v2"}]}"#).unwrap();
    let first: serde_json::Value = serde_json::from_str(r#"{"code":5}"#).unwrap();
    assert_eq!(attributes(&doc, 0), Some(&first));
    assert_eq!(attributes(&doc, 1), Some(&serde_json::Value::Null));
    assert_eq!(attributes(&doc, 2), None);
    assert_eq!(attributes(&document("{}").unwrap(), 0), None);
}

#[test]
fn attributes_of_a_single_vehicle() {
    let doc = document(r#"{"data":{"id":"v1","attributes":{"code":5}}}"#).unwrap();
    let expected: serde_json::Value = serde_json::from_str(r#"{"code":5}"#).unwrap();
    assert_eq!(vehicle_attributes(&doc), &expected);
    assert_eq!(vehicle_attributes(&document("{}").unwrap()), &serde_json::Value::Null);
}

#[test]
fn vehicles_and_logs_are_listed_in_order() {
    let doc = document(LISTING).unwrap();
    let attrs =
        vec![Some(attr("BERLIN", "2024-01-01T10:05:00Z")), Some(attr("PARIS", "2024-01-01T10:00:00Z"))];
    assert_eq!(
        vehicles(&doc, &attrs),
        Ok((
            vec![expected_vehicle("v1", "BERLIN"), expected_vehicle("v2", "PARIS")],
            vec![expected_log("v1", 1_704_103_500), expected_log("v2", 1_704_103_200)],
        ))
    );
}

#[test]
fn empty_listing() {
    let doc = document(r#"{"data":[]}"#).unwrap();
    assert_eq!(vehicles(&doc, &vec![]), Ok((vec![], vec![])));
    assert_eq!(vehicles(&doc, &vec![None]), Ok((vec![], vec![])));
}

#[test]
fn listing_needs_a_data_array() {
    let doc = document(r#"{"data":null}"#).unwrap();
    assert_eq!(vehicles(&doc, &vec![]), Err(PayloadError::ExpectedDataArray));
}

#[test]
fn listing_needs_string_ids() {
    let doc = document(r#"{"data":[{"id":"v1"},{"id":null}]}"#).unwrap();
    let attrs =
        vec![Some(attr("BERLIN", "2024-01-01T10:05:00Z")), Some(attr("BERLIN", "2024-01-01T10:05:00Z"))];
    assert_eq!(vehicles(&doc, &attrs), Err(PayloadError::ExpectedVehicleId));
}

#[test]
fn listing_needs_attributes_for_every_entry() {
    let doc = document(LISTING).unwrap();
    let one = vec![Some(attr("BERLIN", "2024-01-01T10:05:00Z"))];
    assert_eq!(vehicles(&doc, &one), Err(PayloadError::InvalidAttributes));
    let undecoded = vec![Some(attr("BERLIN", "2024-01-01T10:05:00Z")), None];
    assert_eq!(vehicles(&doc, &undecoded), Err(PayloadError::InvalidAttributes));
}

#[test]
fn listing_needs_readable_times() {
    let doc = document(LISTING).unwrap();
    let attrs = vec![Some(attr("BERLIN", "2024-01-01T10:05:00Z")), Some(attr("BERLIN", "noon"))];
    assert_eq!(vehicles(&doc, &attrs), Err(PayloadError::InvalidTimestamp));
}

#[test]
fn first_malformed_entry_decides_the_error() {
    let doc = document(r#"{"data":[{"id":"v1"},{"id":2},{"id":"v3"}]}"#).unwrap();
    let attrs = vec![Some(attr("BERLIN", "noon")), None, None];
    assert_eq!(vehicles(&doc, &attrs), Err(PayloadError::InvalidTimestamp));
    let attrs = vec![Some(attr("BERLIN", "2024-01-01T10:05:00Z")), None, None];
    assert_eq!(vehicles(&doc, &attrs), Err(PayloadError::ExpectedVehicleId));
    let doc = document(r#"{"data":[{"id":"v1"},{"id":"v2"},{"id":3}]}"#).unwrap();
    assert_eq!(vehicles(&doc, &attrs), Err(PayloadError::InvalidAttributes));
}

#[test]
fn id_is_looked_at_before_attributes() {
    let doc = document(r#"{"data":[{"attributes":{}}]}"#).unwrap();
    assert_eq!(vehicles(&doc, &vec![None]), Err(PayloadError::ExpectedVehicleId));
}

#[test]
fn single_vehicle() {
    let doc = document(r#"{"data":{"id":"v9","attributes":{}}}"#).unwrap();
    let given = attr("ROME", "2024-01-01T10:05:00.5Z");
    let mut log = expected_log("v9", 1_704_103_500);
    log.time.nanos = 500_000_000;
    assert_eq!(vehicle(&doc, Some(&given)), Ok((expected_vehicle("v9", "ROME"), log)));
}

#[test]
fn single_vehicle_errors() {
    let given = attr("ROME", "2024-01-01T10:05:00Z");
    let no_id = document(r#"{"data":{"attributes":{}}}"#).unwrap();
    assert_eq!(vehicle(&no_id, Some(&given)), Err(PayloadError::ExpectedVehicleId));
    let listing = document(LISTING).unwrap();
    assert_eq!(vehicle(&listing, Some(&given)), Err(PayloadError::ExpectedVehicleId));
    let doc = document(r#"{"data":{"id":"v9"}}"#).unwrap();
    assert_eq!(vehicle(&doc, None), Err(PayloadError::InvalidAttributes));
    assert_eq!(
        vehicle(&doc, Some(&attr("ROME", "10 o'clock"))),
        Err(PayloadError::InvalidTimestamp)
    );
}

#[test]
fn attributes_describe_a_vehicle_and_a_log() {
    assert_eq!(
        describe("v1", &attr("BERLIN", "2024-01-01T10:05:00Z")),
        Ok((expected_vehicle("v1", "BERLIN"), expected_log("v1", 1_704_103_500)))
    );
    assert_eq!(describe("v1", &attr("BERLIN", "")), Err(PayloadError::InvalidTimestamp));
}

#[test]
fn address_of_the_zones() {
    assert_eq!(zones_address(), "https://platform.tier-services.io/v1/zone?type=root");
}

#[test]
fn address_of_the_vehicles_of_a_zone() {
    assert_eq!(
        vehicles_address("BERLIN"),
        Some("https://platform.tier-services.io/v2/vehicle?zoneId=BERLIN".to_string())
    );
    assert_eq!(
        vehicles_address(""),
        Some("https://platform.tier-services.io/v2/vehicle?zoneId=".to_string())
    );
}

#[test]
fn zone_id_is_encoded_in_the_address() {
    assert_eq!(
        vehicles_address("a b&c=d/e"),
        Some("https://platform.tier-services.io/v2/vehicle?zoneId=a+b%26c%3Dd%2Fe".to_string())
    );
}

#[test]
fn address_of_a_single_vehicle() {
    assert_eq!(
        vehicle_address("1f0c-77"),
        "https://platform.tier-services.io/v1/vehicle/1f0c-77"
    );
    assert_eq!(vehicle_address(""), "https://platform.tier-services.io/v1/vehicle/");
}

#[test]
fn attributes_and_a_time_compose_a_vehicle_and_a_log() {
    let given = attr("BERLIN", "unread");
    let (vehicle, log) = compose("v1", &given, Timestamp { secs: 42, nanos: 7 });
    assert_eq!(vehicle, expected_vehicle("v1", "BERLIN"));
    let mut expected = expected_log("v1", 42);
    expected.time.nanos = 7;
    assert_eq!(log, expected);
}
