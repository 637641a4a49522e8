use zusi_fahrplan_generator::input::fahrplan_config::{
    NonDefaultFahrzeugVerbandAktion, RouteTimeFix, RouteTimeFixType, StartFahrzeugVerbandAktion,
};
use zusi_fahrplan_generator::input::schedule::{Schedule, ScheduleEntry};
use zusi_fahrplan_generator::kern::fahrplan_generator::generate_zug::generate_route::generate_route as generate_whole_route;
use zusi_fahrplan_generator::kern::fahrplan_generator::generate_zug::generate_route::resolved_route::ResolvedRoute as WholeRoute;
use zusi_fahrplan_generator::kern::fahrplan_generator::generate_zug::generate_route::GenerateRouteError as WholeRouteError;
use zusi_fahrplan_generator::kern::generate_fahrplan::generate_zug::generate_route::generate_route_part::{
    generate_route_part, generate_route_part_checked, GenerateRoutePartError,
};
use zusi_fahrplan_generator::kern::generate_fahrplan::generate_zug::generate_route::merge_routes::MergeRoutePartsError;
use zusi_fahrplan_generator::kern::generate_fahrplan::generate_zug::generate_route::resolved_route::{
    ResolvedRoute, ResolvedRoutePart, RouteStartData,
};
use zusi_fahrplan_generator::kern::generate_fahrplan::generate_zug::generate_route::{generate_route, generate_route_checked, GenerateRouteError};
use zusi_fahrplan_generator::kern::schedules::apply::ApplyScheduleError;
use zusi_fahrplan_generator::kern::schedules::update_buchfahrplan::UpdateBuchfahrplanError;
use zusi_fahrplan_generator::zusi::{FahrplanAbfahrt, FahrplanAnkunft, FahrplanEintrag, FahrplanName, FahrplanZeile};

fn dt(y: i32, mo: u8, d: u8, h: u8, mi: u8, s: u8) -> i64 {
    let date = time::Date::from_calendar_date(y, time::Month::try_from(mo).unwrap(), d).unwrap();
    let t = time::Time::from_hms(h, mi, s).unwrap();
    time::PrimitiveDateTime::new(date, t).assume_utc().unix_timestamp()
}

fn at(h: u8, mi: u8, s: u8) -> Option<i64> {
    Some(dt(2020, 9, 9, h, mi, s))
}

fn eintrag(betriebsstelle: &str, ankunft: Option<i64>, abfahrt: Option<i64>) -> FahrplanEintrag {
    FahrplanEintrag { betriebsstelle: betriebsstelle.into(), ankunft, abfahrt, fahrplan_signal_eintraege: vec![] }
}

fn zeile(name: &str, ankunft: Option<i64>, abfahrt: Option<i64>) -> FahrplanZeile {
    FahrplanZeile {
        fahrplan_regelgleis_gegengleis: 1,
        fahrplan_name: Some(FahrplanName { fahrplan_name_text: name.into() }),
        fahrplan_ankunft: ankunft.map(|ankunft| FahrplanAnkunft { ankunft }),
        fahrplan_abfahrt: abfahrt.map(|abfahrt| FahrplanAbfahrt { abfahrt }),
    }
}

fn start(aufgleis_fahrstrasse: &str) -> RouteStartData {
    RouteStartData {
        aufgleis_fahrstrasse: aufgleis_fahrstrasse.into(),
        standort_modus: 0,
        start_vorschubweg: 0,
        speed_anfang: 0,
        km_start: None,
        gnt_spalte: None,
        fahrzeug_verband_aktion: None,
    }
}

fn part(aufgleis_fahrstrasse: &str, fahrplan_eintraege: Vec<FahrplanEintrag>, has_time_fix: bool) -> ResolvedRoutePart {
    ResolvedRoutePart {
        start_data: start(aufgleis_fahrstrasse),
        fahrplan_eintraege,
        has_time_fix,
        fahrplan_zeilen: vec![],
        mindest_bremshundertstel: 0,
    }
}

#[test]
fn test_cannot_generate_route_with_empty_route_parts() {
    assert_eq!(generate_route(vec![]).unwrap_err(), GenerateRouteError::NoRouteParts);
}

#[test]
fn test_generate_route_of_three_parts() {
    let parts = vec![
        part("X -> A", vec![eintrag("XDorf", None, at(7, 0, 0)), eintrag("ADorf", at(7, 10, 0), at(7, 11, 0))], false),
        part("A -> B", vec![eintrag("ADorf", at(9, 0, 0), at(9, 2, 0)), eintrag("BDorf", None, at(9, 20, 0))], true),
        part("B -> C", vec![eintrag("BDorf", None, at(5, 0, 0)), eintrag("CDorf", at(5, 30, 0), None)], false),
    ];
    let route = generate_route(parts).unwrap();
    assert_eq!(
        route,
        ResolvedRoute {
            start_data: start("X -> A"),
            fahrplan_eintraege: vec![
                eintrag("XDorf", None, at(8, 50, 0)),
                eintrag("ADorf", at(9, 0, 0), at(9, 2, 0)),
                eintrag("BDorf", None, at(9, 20, 0)),
                eintrag("CDorf", at(9, 50, 0), None),
            ],
            fahrplan_zeilen: vec![],
            mindest_bremshundertstel: 0,
        },
    );
}

#[test]
fn test_cannot_generate_route_with_two_time_fixes() {
    let parts = vec![
        part("X -> A", vec![eintrag("ADorf", None, at(7, 11, 0))], true),
        part("A -> B", vec![eintrag("ADorf", None, at(9, 2, 0))], true),
    ];
    assert_eq!(
        generate_route(parts).unwrap_err(),
        GenerateRouteError::MergeRoutePartsError { error: MergeRoutePartsError::MoreThanOneTimeFix },
    );
}

#[test]
fn test_cannot_generate_route_with_non_consecutive_parts() {
    let parts = vec![
        part("X -> A", vec![eintrag("ADorf", None, at(7, 11, 0))], false),
        part("B -> C", vec![eintrag("BDorf", None, at(9, 2, 0))], false),
        part("C -> D", vec![eintrag("CDorf", None, at(9, 2, 0))], true),
    ];
    assert_eq!(
        generate_route(parts).unwrap_err(),
        GenerateRouteError::MergeRoutePartsError { error: MergeRoutePartsError::NonConsecutiveRouteParts },
    );
}

#[test]
fn test_generate_whole_route() {
    let routes = vec![
        WholeRoute { aufgleis_fahrstrasse: "X -> A".into(), fahrplan_eintraege: vec![eintrag("XDorf", None, at(7, 0, 0)), eintrag("ADorf", None, at(7, 10, 0))] },
        WholeRoute { aufgleis_fahrstrasse: "A -> B".into(), fahrplan_eintraege: vec![eintrag("ADorf", None, at(8, 0, 0)), eintrag("BDorf", at(8, 5, 0), None)] },
    ];
    assert_eq!(
        generate_whole_route(routes).unwrap(),
        WholeRoute {
            aufgleis_fahrstrasse: "X -> A".into(),
            fahrplan_eintraege: vec![eintrag("XDorf", None, at(7, 0, 0)), eintrag("ADorf", None, at(7, 10, 0)), eintrag("BDorf", at(7, 15, 0), None)],
        },
    );
    assert_eq!(generate_whole_route(vec![]).unwrap_err(), WholeRouteError::NoRouteParts);
    let apart = vec![
        WholeRoute { aufgleis_fahrstrasse: "X -> A".into(), fahrplan_eintraege: vec![eintrag("ADorf", None, at(7, 10, 0))] },
        WholeRoute { aufgleis_fahrstrasse: "B -> C".into(), fahrplan_eintraege: vec![eintrag("BDorf", None, at(8, 0, 0))] },
    ];
    assert_eq!(generate_whole_route(apart).unwrap_err(), WholeRouteError::RoutePartsCanNotBeMerged);
}

#[test]
fn test_generate_route_part_with_time_fix_and_buchfahrplan() {
    let mut route_part = part("X -> A", vec![
        eintrag("XDorf", None, at(7, 0, 0)),
        eintrag("ADorf", at(7, 10, 0), at(7, 11, 0)),
    ], false);
    route_part.fahrplan_zeilen = vec![zeile("XDorf", None, at(1, 0, 0)), zeile("ADorf", at(1, 10, 0), at(1, 11, 0))];
    let fix = RouteTimeFix { fix_type: RouteTimeFixType::EndAnk, value: at(12, 0, 0).unwrap() };

    let aktion = StartFahrzeugVerbandAktion { aktion: NonDefaultFahrzeugVerbandAktion::ZugDrehen, wende_signal_abstand: 0 };
    let ready = generate_route_part(route_part, None, Some(fix), Some(aktion)).unwrap();

    assert!(ready.has_time_fix);
    assert_eq!(ready.fahrplan_eintraege, vec![eintrag("XDorf", None, at(11, 50, 0)), eintrag("ADorf", at(12, 0, 0), at(12, 1, 0))]);
    assert_eq!(ready.fahrplan_zeilen, vec![zeile("XDorf", None, at(11, 50, 0)), zeile("ADorf", at(12, 0, 0), at(12, 1, 0))]);
    assert_eq!(ready.start_data.fahrzeug_verband_aktion, Some(aktion));
    assert_eq!(ready.start_data.aufgleis_fahrstrasse, "X -> A");
}

#[test]
fn test_generate_route_part_with_schedule_and_start_time_fix() {
    let route_part = part("X -> A", vec![
        eintrag("XDorf", None, at(7, 0, 0)),
        eintrag("ADorf", at(7, 10, 0), at(7, 11, 0)),
    ], false);
    let schedule = Schedule {
        entries: vec![
            ScheduleEntry { betriebsstelle: "XDorf".into(), driving_time: 0, stop_time: None, time_fix: None },
            ScheduleEntry { betriebsstelle: "ADorf".into(), driving_time: 5 * 60, stop_time: Some(30), time_fix: None },
        ],
    };
    let fix = RouteTimeFix { fix_type: RouteTimeFixType::StartAbf, value: at(8, 0, 0).unwrap() };

    let ready = generate_route_part(route_part, Some(&schedule), Some(fix), None).unwrap();

    assert_eq!(ready.fahrplan_eintraege, vec![eintrag("XDorf", None, at(8, 0, 0)), eintrag("ADorf", at(8, 5, 0), at(8, 5, 30))]);
    assert!(ready.has_time_fix);
}

#[test]
fn test_generate_route_part_errors() {
    assert_eq!(
        generate_route_part(part("X", vec![], false), None, None, None).unwrap_err(),
        GenerateRoutePartError::EmptyRoutePart,
    );

    let without_departure = part("X", vec![eintrag("XDorf", at(7, 0, 0), None)], false);
    let fix = RouteTimeFix { fix_type: RouteTimeFixType::StartAbf, value: at(8, 0, 0).unwrap() };
    assert_eq!(
        generate_route_part(without_departure, None, Some(fix), None).unwrap_err(),
        GenerateRoutePartError::CouldNotApplyTimeFix,
    );

    let schedule = Schedule {
        entries: vec![ScheduleEntry { betriebsstelle: "XDorf".into(), driving_time: 0, stop_time: Some(10), time_fix: None }],
    };
    let no_stop = part("X", vec![eintrag("XDorf", None, at(7, 0, 0))], false);
    assert_eq!(
        generate_route_part(no_stop, Some(&schedule), None, None).unwrap_err(),
        GenerateRoutePartError::CouldNotApplySchedule {
            error: ApplyScheduleError::CannotApplyStopTime { betriebsstelle: "XDorf".into() },
        },
    );

    let mut other_book = part("X", vec![eintrag("XDorf", None, at(7, 0, 0))], false);
    other_book.fahrplan_zeilen = vec![zeile("YDorf", None, at(7, 0, 0))];
    assert_eq!(
        generate_route_part(other_book, None, None, None).unwrap_err(),
        GenerateRoutePartError::UpdateBuchfahrplanError { error: UpdateBuchfahrplanError::RelatedEntriesMustBeEqual },
    );
}

#[test]
fn test_generate_route_part_checked_time_fix_out_of_range() {
    let route_part = part("X -> A", vec![
        eintrag("XDorf", None, at(7, 0, 0)),
        eintrag("ADorf", at(7, 10, 0), at(7, 11, 0)),
    ], false);
    let fix = RouteTimeFix { fix_type: RouteTimeFixType::StartAbf, value: dt(9999, 12, 31, 23, 55, 0) };
    assert!(generate_route_part_checked(route_part, None, Some(fix), None).is_none());
}

#[test]
fn test_generate_route_part_checked_in_range() {
    let route_part = part("X -> A", vec![
        eintrag("XDorf", None, at(7, 0, 0)),
        eintrag("ADorf", at(7, 10, 0), at(7, 11, 0)),
    ], false);
    let fix = RouteTimeFix { fix_type: RouteTimeFixType::StartAbf, value: at(8, 0, 0).unwrap() };
    let ready = generate_route_part_checked(route_part, None, Some(fix), None).unwrap().unwrap();
    assert_eq!(ready.fahrplan_eintraege, vec![eintrag("XDorf", None, at(8, 0, 0)), eintrag("ADorf", at(8, 10, 0), at(8, 11, 0))]);
}

#[test]
fn test_generate_route_checked_out_of_range() {
    let parts = vec![
        part("X -> A", vec![eintrag("XDorf", None, Some(dt(9999, 12, 31, 22, 0, 0))), eintrag("ADorf", Some(dt(9999, 12, 31, 23, 0, 0)), Some(dt(9999, 12, 31, 23, 1, 0)))], false),
        part("A -> B", vec![eintrag("ADorf", at(9, 0, 0), at(9, 2, 0)), eintrag("BDorf", None, Some(dt(2020, 9, 10, 9, 0, 0)))], false),
    ];
    assert!(generate_route_checked(parts).is_none());
}

#[test]
fn test_generate_route_checked_of_two_parts() {
    let parts = vec![
        part("X -> A", vec![eintrag("XDorf", None, at(7, 0, 0)), eintrag("ADorf", at(7, 10, 0), at(7, 11, 0))], false),
        part("A -> B", vec![eintrag("ADorf", at(9, 0, 0), at(9, 2, 0)), eintrag("BDorf", None, at(9, 20, 0))], false),
    ];
    let route = generate_route_checked(parts).unwrap().unwrap();
    assert_eq!(
        route.fahrplan_eintraege,
        vec![eintrag("XDorf", None, at(7, 0, 0)), eintrag("ADorf", at(7, 10, 0), at(7, 12, 0)), eintrag("BDorf", None, at(7, 30, 0))],
    );
}
