//! Asking the telemetry source and decoding what it sends.
//!
//! Nothing here goes over the network: the addresses to ask are written here,
//! and the payloads that come back are decoded here.
//!
//! A payload is a JSON document. Reading the document is the work of
//! `serde_json`, whose values are spoken of here by what they hold; what is
//! looked for in a document, in which order, and what is made of it is decided
//! here. The attributes of a vehicle are handed in already
//! decoded, one entry per vehicle of the document, `None` where they could not
//! be decoded.

use vstd::prelude::*;
use crate::error::PayloadError;
use crate::instant::{parse_instant, parsed_instant};
use crate::models::{
    logs_view, vehicles_view, Attr, AttrView, Log, LogView, Timestamp, Vehicle, VehicleView,
};

verus! {

#[verifier::external_type_specification]
#[verifier::external_body]
pub struct ExJsonValue(serde_json::Value);

#[verifier::external_type_specification]
#[verifier::external_body]
pub struct ExJsonError(serde_json::Error);

/// What a JSON value is. The value of a number is left out.
pub enum Json {
    Null,
    Bool(bool),
    Number,
    Text(Seq<char>),
    Array(Seq<Json>),
    Object(Map<Seq<char>, Json>),
}

/// What a `serde_json::Value` holds.
pub uninterp spec fn json_content(value: serde_json::Value) -> Json;

/// What the document holds that `serde_json` reads from `text`, or `None`
/// where it reads none.
pub uninterp spec fn json_document(text: Seq<char>) -> Option<Json>;

/// What the elements of a list of `serde_json::Value`s hold.
pub open spec fn json_contents(values: Seq<serde_json::Value>) -> Seq<Json> {
    values.map_values(|value: serde_json::Value| json_content(value))
}

/// What a JSON value holds under `key`: the member of that name if the value
/// is an object that has one, and otherwise null.
pub open spec fn member_of(value: Json, key: Seq<char>) -> Json {
    match value {
        Json::Object(members) => if members.contains_key(key) {
            members[key]
        } else {
            Json::Null
        },
        _ => Json::Null,
    }
}

/// The elements of a JSON value that is an array, and `None` for any other.
pub open spec fn items_of(value: Json) -> Option<Seq<Json>> {
    match value {
        Json::Array(items) => Some(items),
        _ => None,
    }
}

/// The text of a JSON value that is a string, and `None` for any other.
pub open spec fn text_of(value: Json) -> Option<Seq<char>> {
    match value {
        Json::Text(text) => Some(text),
        _ => None,
    }
}

/// Calls `serde_json::from_str::<serde_json::Value>`. The contract claims only
/// that the outcome is the one named by [`json_document`] for this text.
#[verifier::external_body]
fn read_document(text: &str) -> (read: Result<serde_json::Value, serde_json::Error>)
    ensures
        match read {
            Ok(document) => json_document(text@) == Some(json_content(document)),
            Err(_) => json_document(text@) is None,
        },
{
    serde_json::from_str::<serde_json::Value>(text)
}

/// Indexes a `serde_json::Value` by a string, which never fails: an object
/// gives its member of that name, and a value that is no object, or has no
/// such member, gives null.
#[verifier::external_body]
fn member<'a>(value: &'a serde_json::Value, key: &str) -> (found: &'a serde_json::Value)
    ensures
        json_content(*found) == member_of(json_content(*value), key@),
{
    &value[key]
}

/// Calls `serde_json::Value::as_array`: an array gives its elements, any other
/// value nothing.
#[verifier::external_body]
fn elements<'a>(value: &'a serde_json::Value) -> (found: Option<&'a Vec<serde_json::Value>>)
    ensures
        match found {
            Some(items) => items_of(json_content(*value)) == Some(json_contents(items@)),
            None => items_of(json_content(*value)) is None,
        },
{
    value.as_array()
}

/// Calls `serde_json::Value::as_str`: a string gives its text, any other value
/// nothing.
#[verifier::external_body]
fn string<'a>(value: &'a serde_json::Value) -> (found: Option<&'a str>)
    ensures
        match found {
            Some(text) => text_of(json_content(*value)) == Some(text@),
            None => text_of(json_content(*value)) is None,
        },
{
    value.as_str()
}

/// The absolute URL that the `url` crate, as `reqwest` hands it on, makes of
/// `base` with the query parameter `key`=`value` appended, or `None` where it
/// cannot read `base` as an absolute URL.
pub uninterp spec fn url_with_parameter(base: Seq<char>, key: Seq<char>, value: Seq<char>) -> Option<
    Seq<char>,
>;

/// Calls `reqwest::Url::parse_with_params` with a single parameter and hands
/// the URL back as text. The contract claims only that the outcome is the one
/// named by [`url_with_parameter`].
#[verifier::external_body]
fn address_with(base: &str, key: &str, value: &str) -> (address: Option<String>)
    ensures
        match address {
            Some(text) => url_with_parameter(base@, key@, value@) == Some(text@),
            None => url_with_parameter(base@, key@, value@) is None,
        },
{
    match reqwest::Url::parse_with_params(base, &[(key, value)]) {
        Ok(url) => Some(String::from(url)),
        Err(_) => None,
    }
}

// ---------------------------------------------------------------------------
// Where to ask
// ---------------------------------------------------------------------------

/// The address that lists the zones.
pub fn zones_address() -> (address: String)
    ensures
        address@ == "https://platform.tier-services.io/v1/zone?type=root"@,
{
    "https://platform.tier-services.io/v1/zone?type=root".to_owned()
}

/// The address that lists the vehicles of a zone, if the zone id can be put
/// into one.
pub fn vehicles_address(zone: &str) -> (address: Option<String>)
    ensures
        match url_with_parameter(
            "https://platform.tier-services.io/v2/vehicle"@,
            "zoneId"@,
            zone@,
        ) {
            Some(text) => address is Some && address->0@ == text,
            None => address is None,
        },
{
    address_with("https://platform.tier-services.io/v2/vehicle", "zoneId", zone)
}

/// The address that reports a single vehicle.
pub fn vehicle_address(uuid: &str) -> (address: String)
    ensures
        address@ == "https://platform.tier-services.io/v1/vehicle/"@ + uuid@,
{
    let mut address = "https://platform.tier-services.io/v1/vehicle/".to_owned();
    address.append(uuid);
    address
}

// ---------------------------------------------------------------------------
// What a document means
// ---------------------------------------------------------------------------

/// The entries of a listing: the array under `data`, if there is one.
pub open spec fn data_of(document: Json) -> Option<Seq<Json>> {
    items_of(member_of(document, "data"@))
}

/// The identifier of an entry: the string under `id`, if there is one.
pub open spec fn id_of(entry: Json) -> Option<Seq<char>> {
    text_of(member_of(entry, "id"@))
}

/// The vehicle that an identifier and attributes describe.
pub open spec fn vehicle_of(id: Seq<char>, attr: AttrView) -> VehicleView {
    VehicleView {
        uuid: id,
        code: attr.code,
        max_speed: attr.max_speed,
        has_box: attr.has_helmet_box,
        has_helmet: attr.has_helmet,
        zone: attr.zone_id,
        kind: attr.vehicle_type,
        vendor: attr.iot_vendor,
        license_plate: attr.licence_plate,
    }
}

/// The log that an identifier and attributes describe, observed at `time`.
pub open spec fn log_of(id: Seq<char>, attr: AttrView, time: Timestamp) -> LogView {
    LogView {
        vehicle_uuid: id,
        time,
        lat: attr.lat,
        lng: attr.lng,
        battery: attr.battery_level,
        rentable: attr.is_rentable,
        state: attr.state,
    }
}

/// The vehicle and the log that attributes describe under an identifier: the
/// log is observed at the time of the last location update, which has to be
/// readable.
pub open spec fn described(id: Seq<char>, attr: AttrView) -> Result<
    (VehicleView, LogView),
    PayloadError,
> {
    match parsed_instant(attr.last_location_update) {
        None => Err(PayloadError::InvalidTimestamp),
        Some((secs, nanos)) => Ok(
            (
                vehicle_of(id, attr),
                log_of(id, attr, Timestamp { secs: secs as i64, nanos: nanos as u32 }),
            ),
        ),
    }
}

/// The vehicle and the log of one entry. The identifier is looked at first,
/// then the attributes, then the time.
pub open spec fn record_of(entry: Json, attr: Option<AttrView>) -> Result<
    (VehicleView, LogView),
    PayloadError,
> {
    match id_of(entry) {
        None => Err(PayloadError::ExpectedVehicleId),
        Some(id) => match attr {
            None => Err(PayloadError::InvalidAttributes),
            Some(attr) => described(id, attr),
        },
    }
}

/// The attributes handed in for the entry at `i`: none where the list is too
/// short.
pub open spec fn attr_at(attrs: Seq<Option<AttrView>>, i: int) -> Option<AttrView> {
    if 0 <= i < attrs.len() {
        attrs[i]
    } else {
        None
    }
}

/// The vehicles and logs of the first `n` entries, or the error of the first
/// entry among them that has one.
pub open spec fn records_of(
    entries: Seq<Json>,
    attrs: Seq<Option<AttrView>>,
    n: int,
) -> Result<Seq<(VehicleView, LogView)>, PayloadError>
    decreases n,
{
    if n <= 0 {
        Ok(Seq::empty())
    } else {
        match records_of(entries, attrs, n - 1) {
            Err(error) => Err(error),
            Ok(before) => match record_of(entries[n - 1], attr_at(attrs, n - 1)) {
                Err(error) => Err(error),
                Ok(record) => Ok(before.push(record)),
            },
        }
    }
}

/// The zone ids of the first `n` entries, or `None` if one of them has no id.
pub open spec fn ids_of(entries: Seq<Json>, n: int) -> Option<Seq<Seq<char>>>
    decreases n,
{
    if n <= 0 {
        Some(Seq::empty())
    } else {
        match (ids_of(entries, n - 1), id_of(entries[n - 1])) {
            (Some(before), Some(id)) => Some(before.push(id)),
            _ => None,
        }
    }
}

/// The zones that a document lists.
pub open spec fn zones_of(document: Json) -> Result<Seq<Seq<char>>, PayloadError> {
    match data_of(document) {
        None => Err(PayloadError::ExpectedDataArray),
        Some(entries) => match ids_of(entries, entries.len() as int) {
            None => Err(PayloadError::ExpectedZoneString),
            Some(ids) => Ok(ids),
        },
    }
}

/// The vehicles and logs that a document lists, given the attributes of its
/// entries.
pub open spec fn vehicles_of(document: Json, attrs: Seq<Option<AttrView>>) -> Result<
    Seq<(VehicleView, LogView)>,
    PayloadError,
> {
    match data_of(document) {
        None => Err(PayloadError::ExpectedDataArray),
        Some(entries) => records_of(entries, attrs, entries.len() as int),
    }
}

/// The vehicle and log that a document about a single vehicle holds under
/// `data`, given its attributes.
pub open spec fn vehicle_of_document(document: Json, attr: Option<AttrView>) -> Result<
    (VehicleView, LogView),
    PayloadError,
> {
    record_of(member_of(document, "data"@), attr)
}

/// The contents of a list of texts.
pub open spec fn texts_view(texts: Seq<String>) -> Seq<Seq<char>> {
    texts.map_values(|text: String| text@)
}

/// The vehicles of a list of records.
pub open spec fn vehicles_in(records: Seq<(VehicleView, LogView)>) -> Seq<VehicleView> {
    Seq::new(records.len(), |i: int| records[i].0)
}

/// The logs of a list of records.
pub open spec fn logs_in(records: Seq<(VehicleView, LogView)>) -> Seq<LogView> {
    Seq::new(records.len(), |i: int| records[i].1)
}

/// The contents of a list of optional attributes.
pub open spec fn attrs_view(attrs: Seq<Option<Attr>>) -> Seq<Option<AttrView>> {
    attrs.map_values(
        |attr: Option<Attr>|
            match attr {
                Some(attr) => Some(attr@),
                None => None,
            },
    )
}

/// Once an entry has an error, every longer prefix has that error.
proof fn lemma_error_stays(
    entries: Seq<Json>,
    attrs: Seq<Option<AttrView>>,
    n: int,
    m: int,
)
    requires
        0 <= n <= m,
        records_of(entries, attrs, n) is Err,
    ensures
        records_of(entries, attrs, m) == records_of(entries, attrs, n),
    decreases m - n,
{
    if n < m {
        lemma_error_stays(entries, attrs, n, m - 1);
    }
}

/// Once an entry has no id, no longer prefix has ids throughout.
proof fn lemma_missing_id_stays(entries: Seq<Json>, n: int, m: int)
    requires
        0 <= n <= m,
        ids_of(entries, n) is None,
    ensures
        ids_of(entries, m) is None,
    decreases m - n,
{
    if n < m {
        lemma_missing_id_stays(entries, n, m - 1);
    }
}

// ---------------------------------------------------------------------------
// Decoding
// ---------------------------------------------------------------------------

/// Reads a payload as a JSON document.
pub fn document(content: &str) -> (read: Result<serde_json::Value, PayloadError>)
    ensures
        match json_document(content@) {
            Some(document) => read is Ok && json_content(read->Ok_0) == document,
            None => read is Err && read->Err_0 == PayloadError::InvalidJson,
        },
{
    match read_document(content) {
        Ok(document) => Ok(document),
        Err(_) => Err(PayloadError::InvalidJson),
    }
}

/// The number of entries that a document lists.
pub fn entry_count(document: &serde_json::Value) -> (count: Result<usize, PayloadError>)
    ensures
        match data_of(json_content(*document)) {
            Some(entries) => count == Ok::<usize, PayloadError>(entries.len() as usize),
            None => count == Err::<usize, PayloadError>(PayloadError::ExpectedDataArray),
        },
{
    match elements(member(document, "data")) {
        Some(entries) => Ok(entries.len()),
        None => Err(PayloadError::ExpectedDataArray),
    }
}

/// What the entry at `index` of a listing holds under `attributes`, for the
/// caller to decode; `None` where the document lists no such entry.
pub fn attributes<'a>(document: &'a serde_json::Value, index: usize) -> (found: Option<
    &'a serde_json::Value,
>)
    ensures
        match data_of(json_content(*document)) {
            Some(entries) => if index < entries.len() {
                found is Some && json_content(*found->0) == member_of(
                    entries[index as int],
                    "attributes"@,
                )
            } else {
                found is None
            },
            None => found is None,
        },
{
    match elements(member(document, "data")) {
        Some(entries) => if index < entries.len() {
            Some(member(&entries[index], "attributes"))
        } else {
            None
        },
        None => None,
    }
}

/// What a document about a single vehicle holds under `data` and then
/// `attributes`, for the caller to decode.
pub fn vehicle_attributes<'a>(document: &'a serde_json::Value) -> (found: &'a serde_json::Value)
    ensures
        json_content(*found) == member_of(
            member_of(json_content(*document), "data"@),
            "attributes"@,
        ),
{
    member(member(document, "data"), "attributes")
}

/// The zone ids that a document lists, in its order.
pub fn zones_in(document: &serde_json::Value) -> (zones: Result<Vec<String>, PayloadError>)
    ensures
        match zones_of(json_content(*document)) {
            Ok(ids) => zones is Ok && texts_view(zones->Ok_0@) == ids,
            Err(error) => zones is Err && zones->Err_0 == error,
        },
{
    let entries = match elements(member(document, "data")) {
        Some(entries) => entries,
        None => {
            return Err(PayloadError::ExpectedDataArray);
        },
    };
    let mut zones: Vec<String> = Vec::new();
    let mut i: usize = 0;
    assert(texts_view(zones@) =~= Seq::<Seq<char>>::empty());
    while i < entries.len()
        invariant
            i <= entries.len(),
            data_of(json_content(*document)) == Some(json_contents(entries@)),
            ids_of(json_contents(entries@), i as int) == Some(texts_view(zones@)),
        decreases entries.len() - i,
    {
        match string(member(&entries[i], "id")) {
            Some(id) => {
                let zone = id.to_owned();
                assert(texts_view(zones@.push(zone)) =~= texts_view(zones@).push(zone@));
                zones.push(zone);
            },
            None => {
                proof {
                    lemma_missing_id_stays(
                        json_contents(entries@),
                        i as int + 1,
                        entries.len() as int,
                    );
                }
                return Err(PayloadError::ExpectedZoneString);
            },
        }
        i += 1;
    }
    Ok(zones)
}

/// The zone ids that a payload lists, in its order.
pub fn zones(content: &str) -> (zones: Result<Vec<String>, PayloadError>)
    ensures
        match json_document(content@) {
            None => zones is Err && zones->Err_0 == PayloadError::InvalidJson,
            Some(document) => match zones_of(document) {
                Ok(ids) => zones is Ok && texts_view(zones->Ok_0@) == ids,
                Err(error) => zones is Err && zones->Err_0 == error,
            },
        },
{
    match document(content) {
        Ok(document) => zones_in(&document),
        Err(error) => Err(error),
    }
}

/// The vehicle and the log that attributes describe under an identifier, the
/// log observed at `time`.
pub fn compose(id: &str, attr: &Attr, time: Timestamp) -> (record: (Vehicle, Log))
    ensures
        record.0@ == vehicle_of(id@, attr@),
        record.1@ == log_of(id@, attr@, time),
{
    let vehicle = Vehicle {
        uuid: id.to_owned(),
        code: attr.code,
        max_speed: attr.max_speed,
        has_box: attr.has_helmet_box,
        has_helmet: attr.has_helmet,
        zone: attr.zone_id.clone(),
        kind: attr.vehicle_type.clone(),
        vendor: attr.iot_vendor.clone(),
        license_plate: attr.licence_plate.clone(),
    };
    let log = Log {
        vehicle_uuid: id.to_owned(),
        time,
        lat: attr.lat,
        lng: attr.lng,
        battery: attr.battery_level,
        rentable: attr.is_rentable,
        state: attr.state.clone(),
    };
    (vehicle, log)
}

/// The vehicle and the log that attributes describe under an identifier, the
/// log observed at the time of the last location update.
pub fn describe(id: &str, attr: &Attr) -> (record: Result<(Vehicle, Log), PayloadError>)
    ensures
        match described(id@, attr@) {
            Ok((vehicle, log)) => record is Ok && record->Ok_0.0@ == vehicle && record->Ok_0.1@ == log,
            Err(error) => record is Err && record->Err_0 == error,
        },
{
    match parse_instant(attr.last_location_update.as_str()) {
        Ok(time) => Ok(compose(id, attr, time)),
        Err(error) => Err(error),
    }
}

/// The vehicle and the log of one entry, given its attributes.
fn record(entry: &serde_json::Value, attr: Option<&Attr>) -> (record: Result<
    (Vehicle, Log),
    PayloadError,
>)
    ensures
        match record_of(
            json_content(*entry),
            match attr {
                Some(attr) => Some(attr@),
                None => None,
            },
        ) {
            Ok((vehicle, log)) => record is Ok && record->Ok_0.0@ == vehicle && record->Ok_0.1@ == log,
            Err(error) => record is Err && record->Err_0 == error,
        },
{
    let id = match string(member(entry, "id")) {
        Some(id) => id,
        None => {
            return Err(PayloadError::ExpectedVehicleId);
        },
    };
    match attr {
        Some(attr) => describe(id, attr),
        None => Err(PayloadError::InvalidAttributes),
    }
}

/// The vehicles and logs that a document lists, in its order, given the
/// attributes of its entries. The first entry that is malformed decides the
/// error.
pub fn vehicles(document: &serde_json::Value, attrs: &Vec<Option<Attr>>) -> (listed: Result<
    (Vec<Vehicle>, Vec<Log>),
    PayloadError,
>)
    ensures
        match vehicles_of(json_content(*document), attrs_view(attrs@)) {
            Ok(records) => {
                &&& listed is Ok
                &&& vehicles_view(listed->Ok_0.0@) == vehicles_in(records)
                &&& logs_view(listed->Ok_0.1@) == logs_in(records)
            },
            Err(error) => listed is Err && listed->Err_0 == error,
        },
{
    let entries = match elements(member(document, "data")) {
        Some(entries) => entries,
        None => {
            return Err(PayloadError::ExpectedDataArray);
        },
    };
    let mut vehicles: Vec<Vehicle> = Vec::new();
    let mut logs: Vec<Log> = Vec::new();
    let ghost mut records: Seq<(VehicleView, LogView)> = Seq::empty();
    let ghost given = attrs_view(attrs@);
    let mut i: usize = 0;
    assert(vehicles_view(vehicles@) =~= vehicles_in(records));
    assert(logs_view(logs@) =~= logs_in(records));
    while i < entries.len()
        invariant
            i <= entries.len(),
            data_of(json_content(*document)) == Some(json_contents(entries@)),
            given == attrs_view(attrs@),
            records_of(json_contents(entries@), given, i as int) == Ok::<Seq<(VehicleView, LogView)>, PayloadError>(
                records,
            ),
            vehicles_view(vehicles@) == vehicles_in(records),
            logs_view(logs@) == logs_in(records),
        decreases entries.len() - i,
    {
        let attr = if i < attrs.len() {
            attrs[i].as_ref()
        } else {
            None
        };
        match record(&entries[i], attr) {
            Ok((vehicle, log)) => {
                proof {
                    let longer = records.push((vehicle@, log@));
                    assert(vehicles_view(vehicles@).len() == records.len());
                    assert(logs_view(logs@).len() == records.len());
                    assert forall|k: int| 0 <= k < longer.len() implies vehicles_view(
                        vehicles@.push(vehicle),
                    )[k] == vehicles_in(longer)[k] && logs_view(logs@.push(log))[k] == logs_in(
                        longer,
                    )[k] by {
                        if k < records.len() {
                            assert(vehicles_view(vehicles@)[k] == vehicles_in(records)[k]);
                            assert(logs_view(logs@)[k] == logs_in(records)[k]);
                        }
                    }
                    assert(vehicles_view(vehicles@.push(vehicle)) =~= vehicles_in(longer));
                    assert(logs_view(logs@.push(log)) =~= logs_in(longer));
                    records = longer;
                }
                vehicles.push(vehicle);
                logs.push(log);
            },
            Err(error) => {
                proof {
                    lemma_error_stays(
                        json_contents(entries@),
                        given,
                        i as int + 1,
                        entries.len() as int,
                    );
                }
                return Err(error);
            },
        }
        i += 1;
    }
    Ok((vehicles, logs))
}

/// The vehicle and the log that a document about a single vehicle holds,
/// given its attributes.
pub fn vehicle(document: &serde_json::Value, attr: Option<&Attr>) -> (found: Result<
    (Vehicle, Log),
    PayloadError,
>)
    ensures
        match vehicle_of_document(
            json_content(*document),
            match attr {
                Some(attr) => Some(attr@),
                None => None,
            },
        ) {
            Ok((vehicle, log)) => found is Ok && found->Ok_0.0@ == vehicle && found->Ok_0.1@ == log,
            Err(error) => found is Err && found->Err_0 == error,
        },
{
    record(member(document, "data"), attr)
}

} // verus!
