//! A schedule applied to a route part, with changes between two stations.
use std::path::PathBuf;
use vstd::prelude::*;

verus! {

/// The schedule file to apply, the stop times at the first and last station, and the
/// changes between stations.
#[derive(PartialEq, Debug)]
pub struct ApplySchedule {
    pub path: PathBuf,
    pub first_stop_time: Option<i64>,
    pub last_stop_time: Option<i64>,
    pub modifications: Vec<ScheduleModificationBetween>,
}

/// A change of the schedule from the station `first_betriebsstelle` to the station
/// `last_betriebsstelle`.
#[derive(PartialEq, Debug)]
pub struct ScheduleModificationBetween {
    pub first_betriebsstelle: String,
    pub last_betriebsstelle: String,
    pub modification: ScheduleModification,
}

/// The kinds of change.
#[derive(PartialEq, Debug)]
pub enum ScheduleModification {
    RecalculateDrivingTimes(RecalculateDrivingTimes),
    SetTotalDrivingTime(SetTotalDrivingTime),
}

/// Driving times recalculated for the given pass and arrival.
#[derive(PartialEq, Debug)]
pub struct RecalculateDrivingTimes {
    pub pass: String,
    pub arrival: String,
}

/// The whole driving time between the two stations, in seconds.
#[derive(PartialEq, Debug)]
pub struct SetTotalDrivingTime {
    pub total_driving_time: i64,
}

} // verus!
