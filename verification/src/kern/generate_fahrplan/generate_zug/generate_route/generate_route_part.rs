//! Makes a part of a route ready to be joined: its schedule, its time fix and its
//! timetable book.
use crate::input::fahrplan_config::{StartFahrzeugVerbandAktion, RouteTimeFix, RouteTimeFixType};
use crate::input::schedule::{Schedule, ScheduleEntry};
use crate::kern::generate_fahrplan::generate_zug::generate_route::resolved_route::ResolvedRoutePart;
use crate::kern::schedules::apply::{apply_schedule_checked, apply_schedule_progress, ApplyScheduleError, ScheduleProgress};
use crate::kern::schedules::update_buchfahrplan::{update_buchfahrplan, update_buchfahrplan_result, UpdateBuchfahrplanError};
use crate::kern::shared::helpers::delay_fahrplan_eintraege;
use crate::zeit::in_range;
use crate::zusi::{eintraege_wf, shift_eintrag, shift_eintraege, shift_eintraege_defined, FahrplanEintrag, FahrplanZeile};
use vstd::prelude::*;

verus! {

/// Why a route part could not be made ready.
#[derive(Debug, Clone, PartialEq, Eq)]
pub enum GenerateRoutePartError {
    /// The part has no timetable entry.
    EmptyRoutePart,
    /// The schedule could not be applied to the part.
    CouldNotApplySchedule { error: ApplyScheduleError },
    /// The entry that the time fix names lacks the time that it fixes.
    CouldNotApplyTimeFix,
    /// The timetable book of the part could not take the new times.
    UpdateBuchfahrplanError { error: UpdateBuchfahrplanError },
}

/// What making a part ready gives.
pub enum RoutePartOutcome {
    /// A date-time would leave the range of date-times.
    OutOfRange,
    /// It failed with this error.
    Failed(GenerateRoutePartError),
    /// The entries, whether they have a time fix, and the timetable-book lines.
    Ready(Seq<FahrplanEintrag>, bool, Seq<FahrplanZeile>),
}

/// How far the entries must move for the time fix to hold: the fixed time minus the
/// first departure, or minus the last arrival; `None` where that time is missing.
pub open spec fn time_fix_diff(es: Seq<FahrplanEintrag>, fix: RouteTimeFix) -> Option<int> {
    if es.len() == 0 {
        None
    } else {
        let t = match fix.fix_type {
            RouteTimeFixType::StartAbf => es[0].abfahrt,
            RouteTimeFixType::EndAnk => es.last().ankunft,
        };
        match t {
            Some(t) => Some(fix.value - t),
            None => None,
        }
    }
}

/// The entries after the schedule, if one is given, was applied.
pub open spec fn scheduled(es: Seq<FahrplanEintrag>, schedule: Option<Seq<ScheduleEntry>>) -> Option<Result<Seq<FahrplanEintrag>, GenerateRoutePartError>> {
    match schedule {
        None => Some(Ok(es)),
        Some(s) => match apply_schedule_progress(es, s) {
            ScheduleProgress::Running(es1, _, _, _, _) => Some(Ok(es1)),
            ScheduleProgress::Failed(_, e) => Some(Err(GenerateRoutePartError::CouldNotApplySchedule { error: e })),
            ScheduleProgress::OutOfRange => None,
        },
    }
}

/// The entries and whether they have a time fix, after the time fix, if one is given,
/// was applied.
pub open spec fn time_fixed(es: Seq<FahrplanEintrag>, has_time_fix: bool, time_fix: Option<RouteTimeFix>) -> Option<Result<(Seq<FahrplanEintrag>, bool), GenerateRoutePartError>> {
    match time_fix {
        None => Some(Ok((es, has_time_fix))),
        Some(f) => match time_fix_diff(es, f) {
            None => Some(Err(GenerateRoutePartError::CouldNotApplyTimeFix)),
            Some(d) => match shift_eintraege(es, d) {
                Some(es2) => Some(Ok((es2, true))),
                None => None,
            },
        },
    }
}

/// What making the part ready gives: an empty part fails; else the schedule is applied,
/// then the time fix moves all entries, then the timetable book, where the part has one,
/// takes the new times.
pub open spec fn route_part_outcome(
    es: Seq<FahrplanEintrag>,
    has_time_fix: bool,
    zeilen: Seq<FahrplanZeile>,
    schedule: Option<Seq<ScheduleEntry>>,
    time_fix: Option<RouteTimeFix>,
) -> RoutePartOutcome {
    if es.len() == 0 {
        RoutePartOutcome::Failed(GenerateRoutePartError::EmptyRoutePart)
    } else {
        match scheduled(es, schedule) {
            None => RoutePartOutcome::OutOfRange,
            Some(Err(e)) => RoutePartOutcome::Failed(e),
            Some(Ok(es1)) => match time_fixed(es1, has_time_fix, time_fix) {
                None => RoutePartOutcome::OutOfRange,
                Some(Err(e)) => RoutePartOutcome::Failed(e),
                Some(Ok((es2, fix))) => if zeilen.len() == 0 {
                    RoutePartOutcome::Ready(es2, fix, zeilen)
                } else {
                    match update_buchfahrplan_result(es2, zeilen) {
                        (zs, Ok(())) => RoutePartOutcome::Ready(es2, fix, zs),
                        (_, Err(e)) => RoutePartOutcome::Failed(GenerateRoutePartError::UpdateBuchfahrplanError { error: e }),
                    }
                },
            },
        }
    }
}

/// A time fix holds once the part is ready: its first departure, or its last arrival,
/// is the fixed time, and the part counts as fixed.
pub proof fn lemma_time_fix_holds(
    es: Seq<FahrplanEintrag>,
    has_time_fix: bool,
    zeilen: Seq<FahrplanZeile>,
    schedule: Option<Seq<ScheduleEntry>>,
    fix: RouteTimeFix,
)
    requires
        in_range(fix.value as int),
        route_part_outcome(es, has_time_fix, zeilen, schedule, Some(fix)) is Ready,
    ensures
        ({
            let ready = route_part_outcome(es, has_time_fix, zeilen, schedule, Some(fix));
            &&& ready->Ready_0.len() > 0
            &&& ready->Ready_1
            &&& fix.fix_type == RouteTimeFixType::StartAbf ==> ready->Ready_0[0].abfahrt == Some(fix.value)
            &&& fix.fix_type == RouteTimeFixType::EndAnk ==> ready->Ready_0.last().ankunft == Some(fix.value)
        }),
{
    let es1 = scheduled(es, schedule).unwrap()->Ok_0;
    let d = time_fix_diff(es1, fix).unwrap();
    let es2 = shift_eintraege(es1, d).unwrap();
    assert(shift_eintrag(es1[0], d) is Some);
    assert(shift_eintrag(es1[es1.len() - 1], d) is Some);
    assert(es2[0] == shift_eintrag(es1[0], d).unwrap());
    assert(es2.last() == shift_eintrag(es1[es1.len() - 1], d).unwrap());
}

/// The schedules of a part as a sequence, where one is given.
pub open spec fn schedule_entries(schedule: Option<&Schedule>) -> Option<Seq<ScheduleEntry>> {
    match schedule {
        Some(s) => Some(s.entries@),
        None => None,
    }
}

/// Makes a retrieved route part ready, as `route_part_outcome` says, and sets how the
/// vehicles are regrouped at its start; `None` where a date-time would leave the range
/// of date-times.
pub fn generate_route_part_checked(
    route_part: ResolvedRoutePart,
    schedule: Option<&Schedule>,
    time_fix: Option<RouteTimeFix>,
    start_fahrzeug_verband_aktion: Option<StartFahrzeugVerbandAktion>,
) -> (r: Option<Result<ResolvedRoutePart, GenerateRoutePartError>>)
    requires
        eintraege_wf(route_part.fahrplan_eintraege@),
        time_fix matches Some(f) ==> in_range(f.value as int),
    ensures
        match route_part_outcome(
            route_part.fahrplan_eintraege@,
            route_part.has_time_fix,
            route_part.fahrplan_zeilen@,
            schedule_entries(schedule),
            time_fix,
        ) {
            RoutePartOutcome::Ready(es, fix, zs) => r matches Some(Ok(part))
                && part.fahrplan_eintraege@ == es
                && part.has_time_fix == fix
                && part.fahrplan_zeilen@ == zs
                && part.mindest_bremshundertstel == route_part.mindest_bremshundertstel
                && part.start_data.fahrzeug_verband_aktion == start_fahrzeug_verband_aktion
                && part.start_data.aufgleis_fahrstrasse == route_part.start_data.aufgleis_fahrstrasse
                && part.start_data.standort_modus == route_part.start_data.standort_modus
                && part.start_data.start_vorschubweg == route_part.start_data.start_vorschubweg
                && part.start_data.speed_anfang == route_part.start_data.speed_anfang
                && part.start_data.km_start == route_part.start_data.km_start
                && part.start_data.gnt_spalte == route_part.start_data.gnt_spalte
                && eintraege_wf(es),
            RoutePartOutcome::Failed(e) => r == Some(Err::<ResolvedRoutePart, GenerateRoutePartError>(e)),
            RoutePartOutcome::OutOfRange => r is None,
        },
{
    let mut part = route_part;
    if part.fahrplan_eintraege.len() == 0 {
        return Some(Err(GenerateRoutePartError::EmptyRoutePart));
    }
    let ghost es0 = part.fahrplan_eintraege@;
    if let Some(s) = schedule {
        match apply_schedule_checked(&mut part.fahrplan_eintraege, s) {
            Some(Ok(())) => {},
            Some(Err(error)) => {
                return Some(Err(GenerateRoutePartError::CouldNotApplySchedule { error }));
            },
            None => {
                return None;
            },
        }
    }
    let ghost es1 = part.fahrplan_eintraege@;
    assert(scheduled(es0, schedule_entries(schedule)) == Some(Ok::<Seq<FahrplanEintrag>, GenerateRoutePartError>(es1)));
    if let Some(fix) = time_fix {
        let len = part.fahrplan_eintraege.len();
        let time = if len == 0 {
            None
        } else {
            match fix.fix_type {
                RouteTimeFixType::StartAbf => part.fahrplan_eintraege[0].abfahrt,
                RouteTimeFixType::EndAnk => part.fahrplan_eintraege[len - 1].ankunft,
            }
        };
        match time {
            None => {
                return Some(Err(GenerateRoutePartError::CouldNotApplyTimeFix));
            },
            Some(t) => {
                proof {
                    if es1.len() > 0 {
                        assert(es1[0].wf());
                        assert(es1[es1.len() - 1].wf());
                    }
                }
                if !shift_eintraege_defined(&part.fahrplan_eintraege, fix.value - t) {
                    return None;
                }
                delay_fahrplan_eintraege(&mut part.fahrplan_eintraege, fix.value - t);
                part.has_time_fix = true;
            },
        }
    }
    if part.fahrplan_zeilen.len() > 0 {
        match update_buchfahrplan(&part.fahrplan_eintraege, &mut part.fahrplan_zeilen) {
            Ok(()) => {},
            Err(error) => {
                return Some(Err(GenerateRoutePartError::UpdateBuchfahrplanError { error }));
            },
        }
    }
    part.start_data.fahrzeug_verband_aktion = start_fahrzeug_verband_aktion;
    Some(Ok(part))
}


/// Makes a retrieved route part ready, as `generate_route_part_checked` does, where its
/// date-times stay in range.
pub fn generate_route_part(
    route_part: ResolvedRoutePart,
    schedule: Option<&Schedule>,
    time_fix: Option<RouteTimeFix>,
    start_fahrzeug_verband_aktion: Option<StartFahrzeugVerbandAktion>,
) -> (r: Result<ResolvedRoutePart, GenerateRoutePartError>)
    requires
        eintraege_wf(route_part.fahrplan_eintraege@),
        time_fix matches Some(f) ==> in_range(f.value as int),
        !(route_part_outcome(
            route_part.fahrplan_eintraege@,
            route_part.has_time_fix,
            route_part.fahrplan_zeilen@,
            schedule_entries(schedule),
            time_fix,
        ) is OutOfRange),
    ensures
        match route_part_outcome(
            route_part.fahrplan_eintraege@,
            route_part.has_time_fix,
            route_part.fahrplan_zeilen@,
            schedule_entries(schedule),
            time_fix,
        ) {
            RoutePartOutcome::Ready(es, fix, zs) => r matches Ok(part)
                && part.fahrplan_eintraege@ == es
                && part.has_time_fix == fix
                && part.fahrplan_zeilen@ == zs
                && part.mindest_bremshundertstel == route_part.mindest_bremshundertstel
                && part.start_data.fahrzeug_verband_aktion == start_fahrzeug_verband_aktion
                && part.start_data.aufgleis_fahrstrasse == route_part.start_data.aufgleis_fahrstrasse
                && part.start_data.standort_modus == route_part.start_data.standort_modus
                && part.start_data.start_vorschubweg == route_part.start_data.start_vorschubweg
                && part.start_data.speed_anfang == route_part.start_data.speed_anfang
                && part.start_data.km_start == route_part.start_data.km_start
                && part.start_data.gnt_spalte == route_part.start_data.gnt_spalte
                && eintraege_wf(es),
            RoutePartOutcome::Failed(e) => r == Err::<ResolvedRoutePart, GenerateRoutePartError>(e),
            RoutePartOutcome::OutOfRange => false,
        },
{
    match generate_route_part_checked(route_part, schedule, time_fix, start_fahrzeug_verband_aktion) {
        Some(r) => r,
        // The requires rules this out.
        None => Err(GenerateRoutePartError::EmptyRoutePart),
    }
}

} // verus!
