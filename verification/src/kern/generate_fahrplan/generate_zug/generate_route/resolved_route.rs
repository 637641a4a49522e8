//! A route assembled from parts of other trains' timetables.
use crate::input::fahrplan_config::StartFahrzeugVerbandAktion;
use crate::zusi::{FahrplanEintrag, FahrplanZeile};
use vstd::prelude::*;

verus! {

/// How the train is placed at the start of its route. The values that Zusi stores as
/// floating-point numbers are held as the bits of their `f32`.
#[derive(Debug, Clone, PartialEq)]
pub struct RouteStartData {
    pub aufgleis_fahrstrasse: String,
    /// The value of Zusi's `StandortModus`.
    pub standort_modus: i32,
    /// The bits of the `f32`.
    pub start_vorschubweg: u32,
    /// The bits of the `f32`.
    pub speed_anfang: u32,
    /// The bits of the `f32`.
    pub km_start: Option<u32>,
    pub gnt_spalte: Option<bool>,
    pub fahrzeug_verband_aktion: Option<StartFahrzeugVerbandAktion>,
}

/// A route: how it starts, its timetable entries and timetable-book lines, and the
/// least braking percentage ("Mindestbremshundertstel", as the bits of the `f32`).
#[derive(Debug, Clone, PartialEq)]
pub struct ResolvedRoute {
    pub start_data: RouteStartData,
    pub fahrplan_eintraege: Vec<FahrplanEintrag>,
    pub fahrplan_zeilen: Vec<FahrplanZeile>,
    pub mindest_bremshundertstel: u32,
}

/// A part of a route, which knows whether its times are fixed.
#[derive(Debug, Clone, PartialEq)]
pub struct ResolvedRoutePart {
    pub start_data: RouteStartData,
    pub fahrplan_eintraege: Vec<FahrplanEintrag>,
    pub has_time_fix: bool,
    pub fahrplan_zeilen: Vec<FahrplanZeile>,
    pub mindest_bremshundertstel: u32,
}

impl ResolvedRoutePart {
    /// A part without a time fix.
    pub fn new(start_data: RouteStartData, fahrplan_eintraege: Vec<FahrplanEintrag>, fahrplan_zeilen: Vec<FahrplanZeile>, mindest_bremshundertstel: u32) -> (r: Self)
        ensures
            r == (ResolvedRoutePart { start_data, fahrplan_eintraege, has_time_fix: false, fahrplan_zeilen, mindest_bremshundertstel }),
    {
        ResolvedRoutePart { start_data, fahrplan_eintraege, has_time_fix: false, fahrplan_zeilen, mindest_bremshundertstel }
    }
}

impl ResolvedRoute {
    /// The route of a part: the part without its time fix.
    pub fn from_part(part: ResolvedRoutePart) -> (r: Self)
        ensures
            r == (ResolvedRoute {
                start_data: part.start_data,
                fahrplan_eintraege: part.fahrplan_eintraege,
                fahrplan_zeilen: part.fahrplan_zeilen,
                mindest_bremshundertstel: part.mindest_bremshundertstel,
            }),
    {
        ResolvedRoute {
            start_data: part.start_data,
            fahrplan_eintraege: part.fahrplan_eintraege,
            fahrplan_zeilen: part.fahrplan_zeilen,
            mindest_bremshundertstel: part.mindest_bremshundertstel,
        }
    }
}

} // verus!
