use fleet_reconcile::actions::{
    add_logs, add_vehicles, latest_log, push_bool, push_decimal, push_degrees, push_log_row,
    push_natural, push_padded, push_vehicle_row, StatementError,
};
use fleet_reconcile::models::{Log, Timestamp, Vehicle};

fn vehicle(uuid: &str, code: i32) -> Vehicle {
    Vehicle {
        uuid: uuid.to_string(),
        code,
        max_speed: 25,
        has_box: true,
        has_helmet: false,
        zone: "BERLIN".to_string(),
        kind: "escooter".to_string(),
        vendor: "okai".to_string(),
        license_plate: "123ABC".to_string(),
    }
}

fn log(uuid: &str, secs: i64, lat: i32, lng: i32) -> Log {
    Log {
        vehicle_uuid: uuid.to_string(),
        time: Timestamp { secs, nanos: 0 },
        lat,
        lng,
        battery: 87,
        rentable: true,
        state: "ACTIVE".to_string(),
    }
}

fn decimal(n: i32) -> String {
    let mut out = String::new();
    push_decimal(&mut out, n);
    out
}

fn degrees(e7: i32) -> String {
    let mut out = String::new();
    push_degrees(&mut out, e7);
    out
}

#[test]
fn no_vehicles_need_no_statement() {
    assert_eq!(add_vehicles(&vec![]), None);
}

#[test]
fn one_vehicle_statement() {
    assert_eq!(
        add_vehicles(&vec![vehicle("v1", 123)]),
        Some(
            "INSERT INTO vehicles (uuid, code, max_speed, has_box, has_helmet, zone, kind, vendor, license_plate) VALUES ('v1', 123, 25, true, false, 'BERLIN', 'escooter', 'okai', '123ABC') ON DUPLICATE KEY UPDATE uuid = uuid"
                .to_string()
        )
    );
}

#[test]
fn vehicles_are_separated_by_commas() {
    assert_eq!(
        add_vehicles(&vec![vehicle("v1", 1), vehicle("v2", -2), vehicle("v3", 0)]),
        Some(
            "INSERT INTO vehicles (uuid, code, max_speed, has_box, has_helmet, zone, kind, vendor, license_plate) VALUES ('v1', 1, 25, true, false, 'BERLIN', 'escooter', 'okai', '123ABC'),('v2', -2, 25, true, false, 'BERLIN', 'escooter', 'okai', '123ABC'),('v3', 0, 25, true, false, 'BERLIN', 'escooter', 'okai', '123ABC') ON DUPLICATE KEY UPDATE uuid = uuid"
                .to_string()
        )
    );
}

#[test]
fn upsert_leaves_stored_vehicles_untouched() {
    let statement = add_vehicles(&vec![vehicle("v1", 1)]).unwrap();
    assert!(statement.ends_with(" ON DUPLICATE KEY UPDATE uuid = uuid"));
}

#[test]
fn no_logs_need_no_statement() {
    assert_eq!(add_logs(&vec![]), Ok(None));
}

#[test]
fn one_log_statement() {
    assert_eq!(
        add_logs(&vec![log("v1", 1_704_103_500, 100_001_000, -5_000_000)]),
        Ok(Some(
            "INSERT INTO logs (vehicle_uuid, time, lat, lng, battery, rentable, state) VALUES ('v1', '2024-01-01 10:05:00', 10.0001000, -0.5000000, 87, true, 'ACTIVE')"
                .to_string()
        ))
    );
}

#[test]
fn logs_are_separated_by_commas_and_none_is_left_out() {
    let same = log("v1", 0, 0, 0);
    assert_eq!(
        add_logs(&vec![same.clone(), same, log("v2", 86_399, 525_200_066, 134_049_540)]),
        Ok(Some(
            "INSERT INTO logs (vehicle_uuid, time, lat, lng, battery, rentable, state) VALUES ('v1', '1970-01-01 00:00:00', 0.0000000, 0.0000000, 87, true, 'ACTIVE'),('v1', '1970-01-01 00:00:00', 0.0000000, 0.0000000, 87, true, 'ACTIVE'),('v2', '1970-01-01 23:59:59', 52.5200066, 13.4049540, 87, true, 'ACTIVE')"
                .to_string()
        ))
    );
}

#[test]
fn fraction_of_a_second_is_not_written() {
    let mut entry = log("v1", 1_704_103_500, 0, 0);
    entry.time.nanos = 999_999_999;
    let statement = add_logs(&vec![entry]).unwrap().unwrap();
    assert!(statement.contains("'2024-01-01 10:05:00'"));
}

#[test]
fn instant_out_of_range_cannot_be_written() {
    assert_eq!(
        add_logs(&vec![log("v1", 0, 0, 0), log("v2", i64::MAX, 0, 0)]),
        Err(StatementError::UnwritableInstant)
    );
    let mut entry = log("v1", 0, 0, 0);
    entry.time.nanos = 2_000_000_000;
    assert_eq!(add_logs(&vec![entry]), Err(StatementError::UnwritableInstant));
}

#[test]
fn latest_log_statement() {
    assert_eq!(
        latest_log(),
        "SELECT vehicle_uuid, MAX(time) AS time, lat, lng, battery, rentable, state FROM logs WHERE vehicle_uuid = ? HAVING time IS NOT NULL LIMIT 1"
    );
}

#[test]
fn decimal_numbers() {
    assert_eq!(decimal(0), "0");
    assert_eq!(decimal(7), "7");
    assert_eq!(decimal(10), "10");
    assert_eq!(decimal(-1), "-1");
    assert_eq!(decimal(1_234_567_890), "1234567890");
    assert_eq!(decimal(i32::MAX), "2147483647");
    assert_eq!(decimal(i32::MIN), "-2147483648");
    for n in [-100_000, -99, -10, 9, 99, 100, 101, 65_535, 1_000_000] {
        assert_eq!(decimal(n), n.to_string());
    }
}

#[test]
fn natural_and_padded_numbers() {
    let mut out = "x".to_string();
    push_natural(&mut out, 0);
    push_natural(&mut out, u64::MAX);
    assert_eq!(out, "x018446744073709551615");
    let mut out = String::new();
    push_padded(&mut out, 42, 7);
    push_padded(&mut out, 123_456, 3);
    push_padded(&mut out, 9, 0);
    push_padded(&mut out, 0, 2);
    assert_eq!(out, "000004245600");
}

#[test]
fn degrees_have_seven_decimal_places() {
    assert_eq!(degrees(0), "0.0000000");
    assert_eq!(degrees(1), "0.0000001");
    assert_eq!(degrees(-1), "-0.0000001");
    assert_eq!(degrees(100_000_000), "10.0000000");
    assert_eq!(degrees(100_001_000), "10.0001000");
    assert_eq!(degrees(-1_799_999_999), "-179.9999999");
    assert_eq!(degrees(i32::MAX), "214.7483647");
    assert_eq!(degrees(i32::MIN), "-214.7483648");
}

#[test]
fn degrees_agree_with_float_formatting() {
    for e7 in [525_200_066, -134_049_540, 5, -50_000_000, 899_999_999] {
        let expected = format!("{:.7}", e7 as f64 / 1e7);
        assert_eq!(degrees(e7), expected);
    }
}

#[test]
fn truth_values() {
    let mut out = String::new();
    push_bool(&mut out, true);
    push_bool(&mut out, false);
    assert_eq!(out, "truefalse");
}

#[test]
fn row_of_a_vehicle() {
    let mut out = "VALUES ".to_string();
    push_vehicle_row(&mut out, &vehicle("a-1", -5));
    assert_eq!(out, "VALUES ('a-1', -5, 25, true, false, 'BERLIN', 'escooter', 'okai', '123ABC')");
}

#[test]
fn row_of_a_log_takes_the_time_as_written() {
    let mut out = String::new();
    let mut entry = log("a-1", 0, -900_000_000, 1_800_000_000);
    entry.rentable = false;
    entry.battery = 0;
    push_log_row(&mut out, &entry, "noon");
    assert_eq!(out, "('a-1', 'noon', -90.0000000, 180.0000000, 0, false, 'ACTIVE')");
}
