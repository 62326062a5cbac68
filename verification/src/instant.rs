//! Instants as text: reading a timestamp as the telemetry source writes it,
//! and writing one in a given layout. Both are the work of `chrono`.

use vstd::prelude::*;
use crate::error::PayloadError;
use crate::models::Timestamp;
use std::fmt::Write;

verus! {

#[verifier::external_type_specification]
#[verifier::external_body]
pub struct ExChronoParseError(chrono::ParseError);

/// The instant that `chrono` reads from `text` as a UTC date and time, as
/// seconds and nanoseconds since the Unix epoch, or `None` where it reads none.
pub uninterp spec fn parsed_instant(text: Seq<char>) -> Option<(int, int)>;

/// The text that `chrono` writes for the instant `secs`, `nanos` in the
/// strftime layout `layout`, or `None` where the instant is outside the range
/// that `chrono` represents or the layout cannot be written.
pub uninterp spec fn formatted_instant(secs: int, nanos: int, layout: Seq<char>) -> Option<
    Seq<char>,
>;

/// Calls `str::parse::<chrono::DateTime<chrono::Utc>>`, which accepts a
/// relaxed form of RFC 3339, and hands the instant back as `timestamp()` and
/// `timestamp_subsec_nanos()` give it. The contract claims only that the
/// outcome is the one named by [`parsed_instant`] for this text.
#[verifier::external_body]
fn read_utc(text: &str) -> (parsed: Result<Timestamp, chrono::ParseError>)
    ensures
        match parsed {
            Ok(instant) => parsed_instant(text@) == Some((instant.secs as int, instant.nanos as int)),
            Err(_) => parsed_instant(text@) is None,
        },
{
    match text.parse::<chrono::DateTime<chrono::Utc>>() {
        Ok(at) => Ok(Timestamp { secs: at.timestamp(), nanos: at.timestamp_subsec_nanos() }),
        Err(error) => Err(error),
    }
}

/// Calls `chrono::DateTime::from_timestamp` and writes what
/// `chrono::DateTime::format` gives for `layout`. The contract claims only
/// that the outcome is the one named by [`formatted_instant`]: `None` where
/// `from_timestamp` returns `None` or the writing fails.
#[verifier::external_body]
pub(crate) fn write_utc(instant: Timestamp, layout: &str) -> (written: Option<String>)
    ensures
        match written {
            Some(text) => formatted_instant(instant.secs as int, instant.nanos as int, layout@)
                == Some(text@),
            None => formatted_instant(instant.secs as int, instant.nanos as int, layout@) is None,
        },
{
    let at = chrono::DateTime::from_timestamp(instant.secs, instant.nanos)?;
    let mut text = String::new();
    match write!(text, "{}", at.format(layout)) {
        Ok(()) => Some(text),
        Err(_) => None,
    }
}

/// Reads an instant from text, as the telemetry source writes it.
pub fn parse_instant(text: &str) -> (parsed: Result<Timestamp, PayloadError>)
    ensures
        match parsed_instant(text@) {
            Some((secs, nanos)) => parsed is Ok && parsed->Ok_0.secs == secs && parsed->Ok_0.nanos
                == nanos,
            None => parsed == Err::<Timestamp, PayloadError>(PayloadError::InvalidTimestamp),
        },
{
    match read_utc(text) {
        Ok(instant) => Ok(instant),
        Err(_) => Err(PayloadError::InvalidTimestamp),
    }
}

} // verus!
