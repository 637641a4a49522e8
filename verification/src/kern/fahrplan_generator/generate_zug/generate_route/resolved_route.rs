//! A route retrieved from train files.
use crate::zusi::FahrplanEintrag;
use vstd::prelude::*;

verus! {

/// A route: the route ("Fahrstraße") on which the train is placed, and its timetable
/// entries.
#[derive(Debug, Clone, PartialEq)]
pub struct ResolvedRoute {
    pub aufgleis_fahrstrasse: String,
    pub fahrplan_eintraege: Vec<FahrplanEintrag>,
}

/// A part of a route, which knows whether its times are fixed.
#[derive(Debug, Clone, PartialEq)]
pub struct ResolvedRoutePart {
    pub aufgleis_fahrstrasse: String,
    pub fahrplan_eintraege: Vec<FahrplanEintrag>,
    pub has_time_fix: bool,
}

impl ResolvedRoutePart {
    /// A part without a time fix.
    pub fn new(aufgleis_fahrstrasse: String, fahrplan_eintraege: Vec<FahrplanEintrag>) -> (r: Self)
        ensures
            r == (ResolvedRoutePart { aufgleis_fahrstrasse, fahrplan_eintraege, has_time_fix: false }),
    {
        ResolvedRoutePart { aufgleis_fahrstrasse, fahrplan_eintraege, has_time_fix: false }
    }
}

impl ResolvedRoute {
    /// The route of a part: the part without its time fix.
    pub fn from_part(part: ResolvedRoutePart) -> (r: Self)
        ensures
            r == (ResolvedRoute { aufgleis_fahrstrasse: part.aufgleis_fahrstrasse, fahrplan_eintraege: part.fahrplan_eintraege }),
    {
        ResolvedRoute { aufgleis_fahrstrasse: part.aufgleis_fahrstrasse, fahrplan_eintraege: part.fahrplan_eintraege }
    }
}

} // verus!
