//! The entities that the reconciliation works on.
//!
//! Coordinates are fixed-point: a latitude or longitude is held as a whole
//! number of 1e-7 degrees. Instants are held as seconds and nanoseconds since
//! the Unix epoch.

use vstd::prelude::*;

verus! {

/// An instant on the UTC time line.
///
/// `secs` counts the non-leap seconds since 1970-01-01T00:00:00Z and `nanos` the
/// nanoseconds past that second. Two instants are the same exactly when both
/// fields agree.
#[derive(Clone, Copy, Debug, PartialEq, Eq, Structural)]
pub struct Timestamp {
    pub secs: i64,
    pub nanos: u32,
}

/// The static identity record of one physical fleet unit.
#[derive(Debug, PartialEq, Eq)]
pub struct Vehicle {
    pub uuid: String,
    pub code: i32,
    pub max_speed: i32,
    pub has_box: bool,
    pub has_helmet: bool,
    pub zone: String,
    pub kind: String,
    pub vendor: String,
    pub license_plate: String,
}

/// The mathematical content of a [`Vehicle`].
pub struct VehicleView {
    pub uuid: Seq<char>,
    pub code: int,
    pub max_speed: int,
    pub has_box: bool,
    pub has_helmet: bool,
    pub zone: Seq<char>,
    pub kind: Seq<char>,
    pub vendor: Seq<char>,
    pub license_plate: Seq<char>,
}

impl View for Vehicle {
    type V = VehicleView;

    open spec fn view(&self) -> VehicleView {
        VehicleView {
            uuid: self.uuid@,
            code: self.code as int,
            max_speed: self.max_speed as int,
            has_box: self.has_box,
            has_helmet: self.has_helmet,
            zone: self.zone@,
            kind: self.kind@,
            vendor: self.vendor@,
            license_plate: self.license_plate@,
        }
    }
}

impl Clone for Vehicle {
    fn clone(&self) -> (res: Self)
        ensures
            res@ == self@,
    {
        Vehicle {
            uuid: self.uuid.clone(),
            code: self.code,
            max_speed: self.max_speed,
            has_box: self.has_box,
            has_helmet: self.has_helmet,
            zone: self.zone.clone(),
            kind: self.kind.clone(),
            vendor: self.vendor.clone(),
            license_plate: self.license_plate.clone(),
        }
    }
}

/// One timestamped telemetry observation of a vehicle.
///
/// `lat` and `lng` are in units of 1e-7 degrees.
#[derive(Debug, PartialEq, Eq)]
pub struct Log {
    pub vehicle_uuid: String,
    pub time: Timestamp,
    pub lat: i32,
    pub lng: i32,
    pub battery: i32,
    pub rentable: bool,
    pub state: String,
}

/// The mathematical content of a [`Log`].
pub struct LogView {
    pub vehicle_uuid: Seq<char>,
    pub time: Timestamp,
    pub lat: int,
    pub lng: int,
    pub battery: int,
    pub rentable: bool,
    pub state: Seq<char>,
}

impl View for Log {
    type V = LogView;

    open spec fn view(&self) -> LogView {
        LogView {
            vehicle_uuid: self.vehicle_uuid@,
            time: self.time,
            lat: self.lat as int,
            lng: self.lng as int,
            battery: self.battery as int,
            rentable: self.rentable,
            state: self.state@,
        }
    }
}

impl Clone for Log {
    fn clone(&self) -> (res: Self)
        ensures
            res@ == self@,
    {
        Log {
            vehicle_uuid: self.vehicle_uuid.clone(),
            time: self.time,
            lat: self.lat,
            lng: self.lng,
            battery: self.battery,
            rentable: self.rentable,
            state: self.state.clone(),
        }
    }
}

/// The attributes of one vehicle as the telemetry source reports them.
///
/// `lat` and `lng` are in units of 1e-7 degrees; the two instants are still
/// text.
#[derive(Debug, PartialEq, Eq)]
pub struct Attr {
    pub battery_level: i32,
    pub code: i32,
    pub has_helmet: bool,
    pub has_helmet_box: bool,
    pub iot_vendor: String,
    pub is_rentable: bool,
    pub last_location_update: String,
    pub last_state_change: String,
    pub lat: i32,
    pub licence_plate: String,
    pub lng: i32,
    pub max_speed: i32,
    pub state: String,
    pub vehicle_type: String,
    pub zone_id: String,
}

/// The mathematical content of an [`Attr`].
pub struct AttrView {
    pub battery_level: int,
    pub code: int,
    pub has_helmet: bool,
    pub has_helmet_box: bool,
    pub iot_vendor: Seq<char>,
    pub is_rentable: bool,
    pub last_location_update: Seq<char>,
    pub last_state_change: Seq<char>,
    pub lat: int,
    pub licence_plate: Seq<char>,
    pub lng: int,
    pub max_speed: int,
    pub state: Seq<char>,
    pub vehicle_type: Seq<char>,
    pub zone_id: Seq<char>,
}

impl View for Attr {
    type V = AttrView;

    open spec fn view(&self) -> AttrView {
        AttrView {
            battery_level: self.battery_level as int,
            code: self.code as int,
            has_helmet: self.has_helmet,
            has_helmet_box: self.has_helmet_box,
            iot_vendor: self.iot_vendor@,
            is_rentable: self.is_rentable,
            last_location_update: self.last_location_update@,
            last_state_change: self.last_state_change@,
            lat: self.lat as int,
            licence_plate: self.licence_plate@,
            lng: self.lng as int,
            max_speed: self.max_speed as int,
            state: self.state@,
            vehicle_type: self.vehicle_type@,
            zone_id: self.zone_id@,
        }
    }
}

/// The contents of a list of vehicles, element by element.
pub open spec fn vehicles_view(vehicles: Seq<Vehicle>) -> Seq<VehicleView> {
    vehicles.map_values(|vehicle: Vehicle| vehicle@)
}

/// The contents of a list of logs, element by element.
pub open spec fn logs_view(logs: Seq<Log>) -> Seq<LogView> {
    logs.map_values(|l: Log| l@)
}

/// Copies a list of logs.
pub fn clone_logs(logs: &Vec<Log>) -> (res: Vec<Log>)
    ensures
        logs_view(res@) == logs_view(logs@),
{
    let mut res: Vec<Log> = Vec::new();
    let mut i: usize = 0;
    while i < logs.len()
        invariant
            i <= logs.len(),
            res.len() == i,
            forall|k: int| 0 <= k < i ==> #[trigger] res[k]@ == logs[k]@,
        decreases logs.len() - i,
    {
        res.push(logs[i].clone());
        i += 1;
    }
    assert(logs_view(res@) =~= logs_view(logs@));
    res
}

} // verus!
