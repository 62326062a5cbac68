//! The statements by which vehicles and logs reach the store.
//!
//! Nothing here talks to a database: each function yields the text of one SQL
//! statement, or `None` where there is nothing to do. Numbers are written in
//! decimal; a coordinate, held in units of 1e-7 degrees, is written as degrees
//! with seven decimal places.

use vstd::prelude::*;
use crate::instant::{formatted_instant, write_utc};
use crate::models::{logs_view, vehicles_view, Log, LogView, Vehicle, VehicleView};

verus! {

// ---------------------------------------------------------------------------
// Numbers as text
// ---------------------------------------------------------------------------

/// The character of a decimal digit.
pub open spec fn digit_char(digit: int) -> char {
    if digit == 0 {
        '0'
    } else if digit == 1 {
        '1'
    } else if digit == 2 {
        '2'
    } else if digit == 3 {
        '3'
    } else if digit == 4 {
        '4'
    } else if digit == 5 {
        '5'
    } else if digit == 6 {
        '6'
    } else if digit == 7 {
        '7'
    } else if digit == 8 {
        '8'
    } else {
        '9'
    }
}

/// A natural number in decimal, without leading zeros.
pub open spec fn natural_text(n: nat) -> Seq<char>
    decreases n,
{
    if n < 10 {
        seq![digit_char(n as int)]
    } else {
        natural_text(n / 10).push(digit_char((n % 10) as int))
    }
}

/// The last `width` decimal digits of a natural number, with leading zeros.
pub open spec fn padded_text(n: nat, width: nat) -> Seq<char>
    decreases width,
{
    if width == 0 {
        Seq::empty()
    } else {
        padded_text(n / 10, (width - 1) as nat).push(digit_char((n % 10) as int))
    }
}

/// An integer in decimal, with a minus sign if it is negative.
pub open spec fn decimal_text(n: int) -> Seq<char> {
    if n < 0 {
        seq!['-'] + natural_text((-n) as nat)
    } else {
        natural_text(n as nat)
    }
}

/// A coordinate held in units of 1e-7 degrees, written as degrees: an optional
/// minus sign, the whole degrees, a point, and seven decimal places.
pub open spec fn degrees_text(e7: int) -> Seq<char> {
    let magnitude = if e7 < 0 {
        (-e7) as nat
    } else {
        e7 as nat
    };
    let sign = if e7 < 0 {
        seq!['-']
    } else {
        Seq::empty()
    };
    sign + natural_text(magnitude / 10_000_000) + seq!['.'] + padded_text(magnitude % 10_000_000, 7)
}

/// A truth value as the word `true` or `false`.
pub open spec fn bool_text(value: bool) -> Seq<char> {
    if value {
        "true"@
    } else {
        "false"@
    }
}

fn digit(value: u64) -> (text: &'static str)
    requires
        value < 10,
    ensures
        text@ == seq![digit_char(value as int)],
{
    proof {
        reveal_strlit("0");
        reveal_strlit("1");
        reveal_strlit("2");
        reveal_strlit("3");
        reveal_strlit("4");
        reveal_strlit("5");
        reveal_strlit("6");
        reveal_strlit("7");
        reveal_strlit("8");
        reveal_strlit("9");
    }
    let text = if value == 0 {
        "0"
    } else if value == 1 {
        "1"
    } else if value == 2 {
        "2"
    } else if value == 3 {
        "3"
    } else if value == 4 {
        "4"
    } else if value == 5 {
        "5"
    } else if value == 6 {
        "6"
    } else if value == 7 {
        "7"
    } else if value == 8 {
        "8"
    } else {
        "9"
    };
    assert(text@ =~= seq![digit_char(value as int)]);
    text
}

/// Appends a natural number in decimal.
pub fn push_natural(out: &mut String, n: u64)
    ensures
        final(out)@ == old(out)@ + natural_text(n as nat),
    decreases n,
{
    if n >= 10 {
        push_natural(out, n / 10);
    }
    out.append(digit(n % 10));
    assert(out@ =~= old(out)@ + natural_text(n as nat));
}

/// Appends the last `width` decimal digits of a natural number.
pub fn push_padded(out: &mut String, n: u64, width: u32)
    ensures
        final(out)@ == old(out)@ + padded_text(n as nat, width as nat),
    decreases width,
{
    if width > 0 {
        push_padded(out, n / 10, width - 1);
        out.append(digit(n % 10));
    }
    assert(out@ =~= old(out)@ + padded_text(n as nat, width as nat));
}

/// Appends an integer in decimal.
pub fn push_decimal(out: &mut String, n: i32)
    ensures
        final(out)@ == old(out)@ + decimal_text(n as int),
{
    if n < 0 {
        proof {
            reveal_strlit("-");
        }
        out.append("-");
        push_natural(out, (-(n as i64)) as u64);
        assert(out@ =~= old(out)@ + decimal_text(n as int));
    } else {
        push_natural(out, n as u64);
    }
}

/// Appends a coordinate, held in units of 1e-7 degrees, as degrees.
pub fn push_degrees(out: &mut String, e7: i32)
    ensures
        final(out)@ == old(out)@ + degrees_text(e7 as int),
{
    proof {
        reveal_strlit("-");
        reveal_strlit(".");
    }
    let magnitude: u64 = if e7 < 0 {
        out.append("-");
        (-(e7 as i64)) as u64
    } else {
        e7 as u64
    };
    push_natural(out, magnitude / 10_000_000);
    out.append(".");
    push_padded(out, magnitude % 10_000_000, 7);
    assert(out@ =~= old(out)@ + degrees_text(e7 as int));
}

/// Appends `true` or `false`.
pub fn push_bool(out: &mut String, value: bool)
    ensures
        final(out)@ == old(out)@ + bool_text(value),
{
    if value {
        out.append("true");
    } else {
        out.append("false");
    }
}

// ---------------------------------------------------------------------------
// Statements
// ---------------------------------------------------------------------------

/// The layout in which the store takes an instant.
pub open spec fn time_layout() -> Seq<char> {
    "%Y-%m-%d %H:%M:%S"@
}

/// The row of values that stands for a vehicle.
pub open spec fn vehicle_row(vehicle: VehicleView) -> Seq<char> {
    "('"@ + vehicle.uuid + "', "@ + decimal_text(vehicle.code) + ", "@ + decimal_text(
        vehicle.max_speed,
    ) + ", "@ + bool_text(vehicle.has_box) + ", "@ + bool_text(vehicle.has_helmet) + ", '"@
        + vehicle.zone + "', '"@ + vehicle.kind + "', '"@ + vehicle.vendor + "', '"@
        + vehicle.license_plate + "')"@
}

/// The row of values that stands for a log whose instant is written as `time`.
pub open spec fn log_row(log: LogView, time: Seq<char>) -> Seq<char> {
    "('"@ + log.vehicle_uuid + "', '"@ + time + "', "@ + degrees_text(log.lat) + ", "@
        + degrees_text(log.lng) + ", "@ + decimal_text(log.battery) + ", "@ + bool_text(
        log.rentable,
    ) + ", '"@ + log.state + "')"@
}

/// The rows of the first `n` vehicles, separated by commas.
pub open spec fn vehicle_rows(vehicles: Seq<VehicleView>, n: int) -> Seq<char>
    decreases n,
{
    if n <= 0 {
        Seq::empty()
    } else if n == 1 {
        vehicle_row(vehicles[0])
    } else {
        vehicle_rows(vehicles, n - 1) + ","@ + vehicle_row(vehicles[n - 1])
    }
}

/// The written instant of a log, if it can be written.
pub open spec fn log_time(log: LogView) -> Option<Seq<char>> {
    formatted_instant(log.time.secs as int, log.time.nanos as int, time_layout())
}

/// The rows of the first `n` logs, separated by commas, or `None` if the
/// instant of one of them cannot be written.
pub open spec fn log_rows(logs: Seq<LogView>, n: int) -> Option<Seq<char>>
    decreases n,
{
    if n <= 0 {
        Some(Seq::empty())
    } else {
        match (log_rows(logs, n - 1), log_time(logs[n - 1])) {
            (Some(before), Some(time)) => Some(
                if n == 1 {
                    log_row(logs[0], time)
                } else {
                    before + ","@ + log_row(logs[n - 1], time)
                },
            ),
            _ => None,
        }
    }
}

/// The statement that inserts the given vehicles where they are absent and
/// leaves the stored ones untouched.
pub open spec fn vehicles_statement(vehicles: Seq<VehicleView>) -> Seq<char> {
    "INSERT INTO vehicles (uuid, code, max_speed, has_box, has_helmet, zone, kind, vendor, license_plate) VALUES "@
        + vehicle_rows(vehicles, vehicles.len() as int) + " ON DUPLICATE KEY UPDATE uuid = uuid"@
}

/// The statement that appends rows of logs.
pub open spec fn logs_statement(rows: Seq<char>) -> Seq<char> {
    "INSERT INTO logs (vehicle_uuid, time, lat, lng, battery, rentable, state) VALUES "@ + rows
}

/// The statement that asks for the most recent log of one vehicle, whose uuid
/// is its only parameter.
pub open spec fn latest_log_statement() -> Seq<char> {
    "SELECT vehicle_uuid, MAX(time) AS time, lat, lng, battery, rentable, state FROM logs WHERE vehicle_uuid = ? HAVING time IS NOT NULL LIMIT 1"@
}

/// Why a statement cannot be written.
#[derive(Clone, Copy, Debug, PartialEq, Eq, Structural)]
pub enum StatementError {
    /// The instant of a log is outside the range that can be written.
    UnwritableInstant,
}

/// Appends the row of values that stands for a vehicle.
pub fn push_vehicle_row(out: &mut String, vehicle: &Vehicle)
    ensures
        final(out)@ == old(out)@ + vehicle_row(vehicle@),
{
    let ghost before = out@;
    let ghost v = vehicle@;
    out.append("('");
    out.append(vehicle.uuid.as_str());
    out.append("', ");
    push_decimal(out, vehicle.code);
    out.append(", ");
    push_decimal(out, vehicle.max_speed);
    out.append(", ");
    push_bool(out, vehicle.has_box);
    out.append(", ");
    push_bool(out, vehicle.has_helmet);
    out.append(", '");
    out.append(vehicle.zone.as_str());
    out.append("', '");
    out.append(vehicle.kind.as_str());
    out.append("', '");
    out.append(vehicle.vendor.as_str());
    out.append("', '");
    out.append(vehicle.license_plate.as_str());
    out.append("')");
    assert(out@ =~= before + vehicle_row(v));
}

/// Appends the row of values that stands for a log whose instant is written
/// as `time`.
pub fn push_log_row(out: &mut String, log: &Log, time: &str)
    ensures
        final(out)@ == old(out)@ + log_row(log@, time@),
{
    let ghost before = out@;
    out.append("('");
    out.append(log.vehicle_uuid.as_str());
    out.append("', '");
    out.append(time);
    out.append("', ");
    push_degrees(out, log.lat);
    out.append(", ");
    push_degrees(out, log.lng);
    out.append(", ");
    push_decimal(out, log.battery);
    out.append(", ");
    push_bool(out, log.rentable);
    out.append(", '");
    out.append(log.state.as_str());
    out.append("')");
    assert(out@ =~= before + log_row(log@, time@));
}

/// The statement that upserts `vehicles`, or `None` where there are none.
pub fn add_vehicles(vehicles: &Vec<Vehicle>) -> (statement: Option<String>)
    ensures
        vehicles.len() == 0 ==> statement is None,
        vehicles.len() > 0 ==> statement is Some && statement->0@ == vehicles_statement(
            vehicles_view(vehicles@),
        ),
{
    if vehicles.len() == 0 {
        return None;
    }
    let ghost views = vehicles_view(vehicles@);
    let mut rows = String::new();
    let mut i: usize = 0;
    while i < vehicles.len()
        invariant
            i <= vehicles.len(),
            views == vehicles_view(vehicles@),
            rows@ == vehicle_rows(views, i as int),
        decreases vehicles.len() - i,
    {
        if i > 0 {
            rows.append(",");
        }
        push_vehicle_row(&mut rows, &vehicles[i]);
        assert(rows@ =~= vehicle_rows(views, i as int + 1));
        i += 1;
    }
    let mut statement = String::new();
    statement.append(
        "INSERT INTO vehicles (uuid, code, max_speed, has_box, has_helmet, zone, kind, vendor, license_plate) VALUES ",
    );
    statement.append(rows.as_str());
    statement.append(" ON DUPLICATE KEY UPDATE uuid = uuid");
    assert(statement@ =~= vehicles_statement(views));
    Some(statement)
}

/// The statement that appends `logs`, or `None` where there are none. No log
/// is left out and none is written twice: the caller alone decides what is
/// persisted. Fails if the instant of a log cannot be written.
pub fn add_logs(logs: &Vec<Log>) -> (statement: Result<Option<String>, StatementError>)
    ensures
        match log_rows(logs_view(logs@), logs.len() as int) {
            None => statement == Err::<Option<String>, StatementError>(
                StatementError::UnwritableInstant,
            ),
            Some(rows) => if logs.len() == 0 {
                statement == Ok::<Option<String>, StatementError>(None)
            } else {
                &&& statement is Ok
                &&& statement->Ok_0 is Some
                &&& statement->Ok_0->0@ == logs_statement(rows)
            },
        },
{
    if logs.len() == 0 {
        return Ok(None);
    }
    let ghost views = logs_view(logs@);
    let mut rows = String::new();
    let mut i: usize = 0;
    while i < logs.len()
        invariant
            i <= logs.len(),
            views == logs_view(logs@),
            log_rows(views, i as int) == Some(rows@),
        decreases logs.len() - i,
    {
        let time = match write_utc(logs[i].time, "%Y-%m-%d %H:%M:%S") {
            Some(time) => time,
            None => {
                proof {
                    lemma_unwritable_stays(views, i as int + 1, logs.len() as int);
                }
                return Err(StatementError::UnwritableInstant);
            },
        };
        if i > 0 {
            rows.append(",");
        }
        push_log_row(&mut rows, &logs[i], time.as_str());
        assert(log_rows(views, i as int + 1) == Some(rows@)) by {
            assert(views[i as int] == logs[i as int]@);
            assert(rows@ =~= log_rows(views, i as int + 1)->0);
        }
        i += 1;
    }
    let mut statement = String::new();
    statement.append("INSERT INTO logs (vehicle_uuid, time, lat, lng, battery, rentable, state) VALUES ");
    statement.append(rows.as_str());
    assert(statement@ =~= logs_statement(rows@));
    Ok(Some(statement))
}

/// The statement that asks the store for the most recent log of one vehicle.
pub fn latest_log() -> (statement: String)
    ensures
        statement@ == latest_log_statement(),
{
    "SELECT vehicle_uuid, MAX(time) AS time, lat, lng, battery, rentable, state FROM logs WHERE vehicle_uuid = ? HAVING time IS NOT NULL LIMIT 1".to_owned()
}

/// Once the instant of a log cannot be written, no longer prefix has rows.
proof fn lemma_unwritable_stays(logs: Seq<LogView>, n: int, m: int)
    requires
        0 <= n <= m,
        log_rows(logs, n) is None,
    ensures
        log_rows(logs, m) is None,
    decreases m - n,
{
    if n < m {
        lemma_unwritable_stays(logs, n, m - 1);
    }
}

} // verus!
