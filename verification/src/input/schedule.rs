//! A schedule: driving and stop times from station to station.
use vstd::prelude::*;

verus! {

/// Which time of a schedule entry stays as it was when the schedule is applied.
#[derive(PartialEq, Eq, Debug, Clone, Copy)]
pub enum TimeFix {
    Ankunft,
    Abfahrt,
}

/// The times at one station: the driving time from the previous station, and the time
/// to stop here, as seconds.
#[derive(PartialEq, Eq, Debug, Clone)]
pub struct ScheduleEntry {
    pub betriebsstelle: String,
    pub driving_time: i64,
    pub stop_time: Option<i64>,
    pub time_fix: Option<TimeFix>,
}

/// The entries of a schedule, in the order of the stations.
#[derive(PartialEq, Eq, Debug, Clone)]
pub struct Schedule {
    pub entries: Vec<ScheduleEntry>,
}

} // verus!
