//! The configuration of a timetable to generate.
use vstd::prelude::*;

verus! {

/// How the vehicles are regrouped at the start of a route part, where not by default.
#[derive(PartialEq, Eq, Debug, Clone, Copy)]
pub enum NonDefaultFahrzeugVerbandAktion {
    ZugDrehen,
    Fueherstandswechsel,
}

/// How the vehicles are regrouped at the start of a route part, and the distance to
/// the signal at which the train turns (as the bits of its `f32`).
#[derive(PartialEq, Eq, Debug, Clone, Copy)]
pub struct StartFahrzeugVerbandAktion {
    pub aktion: NonDefaultFahrzeugVerbandAktion,
    pub wende_signal_abstand: u32,
}

/// Which time of a route part is fixed: its first departure or its last arrival.
#[derive(PartialEq, Eq, Debug, Clone, Copy)]
pub enum RouteTimeFixType {
    StartAbf,
    EndAnk,
}

/// A time fix of a route part: the fixed time becomes `value`.
#[derive(PartialEq, Eq, Debug, Clone, Copy)]
pub struct RouteTimeFix {
    pub fix_type: RouteTimeFixType,
    pub value: i64,
}

} // verus!

verus! {

/// A timetable to generate: where to write it, the timetable whose track modules and
/// coordinates it takes, and its trains.
#[derive(PartialEq, Debug)]
pub struct FahrplanConfig {
    /// Path where to place the generated .fpn file
    pub generate_at: std::path::PathBuf,
    /// Path to .fpn file to use for Streckenmodule and UTM data
    pub generate_from: std::path::PathBuf,
    pub zuege: Vec<ZugConfig>,
}

/// A train to generate.
#[derive(PartialEq, Debug)]
pub struct ZugConfig {
    pub nummer: String,
    pub gattung: String,
    pub meta_data: Option<MetaDataConfig>,
    pub route: RouteConfig,
    pub rolling_stock: crate::input::rolling_stock_config::RollingStockConfig,
    pub copy_delay_config: Option<crate::input::copy_delay_config::CopyDelayConfig>,
}

/// The train file whose descriptive data a train takes.
#[derive(PartialEq, Debug)]
pub struct MetaDataConfig {
    pub path: std::path::PathBuf,
}

/// The parts of a route, in order.
#[derive(PartialEq, Debug)]
pub struct RouteConfig {
    pub parts: Vec<RoutePart>,
}

/// A part of a route: where it comes from, and what is done to its times.
#[derive(PartialEq, Debug)]
pub struct RoutePart {
    pub source: RoutePartSource,
    pub time_fix: Option<RouteTimeFix>,
    pub apply_schedule: Option<ApplySchedule>,
    pub start_fahrzeug_verband_aktion: Option<StartFahrzeugVerbandAktion>,
}

/// Where a route part comes from: a train file, or the configuration of a train by its
/// number.
#[derive(PartialEq, Debug)]
pub enum RoutePartSource {
    TrainFileByPath { path: std::path::PathBuf },
    TrainConfigByNummer { nummer: String },
}

/// The schedule file to apply to a route part.
#[derive(PartialEq, Debug)]
pub struct ApplySchedule {
    pub path: std::path::PathBuf,
}

} // verus!
