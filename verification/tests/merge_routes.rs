use zusi_fahrplan_generator::kern::fahrplan_generator::generate_zug::generate_route::merge_routes::{
    merge_routes as merge_whole_routes, RoutesCanNotBeMerged,
};
use zusi_fahrplan_generator::kern::fahrplan_generator::generate_zug::generate_route::resolved_route::ResolvedRoute as WholeRoute;
use zusi_fahrplan_generator::kern::generate_fahrplan::generate_zug::generate_route::merge_routes::{
    can_merge, get_time_diff_for_merge, merge_routes, MergeRoutePartsError, NoTimes,
};
use zusi_fahrplan_generator::kern::generate_fahrplan::generate_zug::generate_route::resolved_route::{
    ResolvedRoutePart, RouteStartData,
};
use zusi_fahrplan_generator::zusi::{FahrplanEintrag, FahrplanSignalEintrag};

fn dt(y: i32, mo: u8, d: u8, h: u8, mi: u8, s: u8) -> i64 {
    let date = time::Date::from_calendar_date(y, time::Month::try_from(mo).unwrap(), d).unwrap();
    let t = time::Time::from_hms(h, mi, s).unwrap();
    time::PrimitiveDateTime::new(date, t).assume_utc().unix_timestamp()
}

fn at(h: u8, mi: u8, s: u8) -> Option<i64> {
    Some(dt(2020, 9, 9, h, mi, s))
}

fn eintrag(betriebsstelle: &str, ankunft: Option<i64>, abfahrt: Option<i64>, signale: &[&str]) -> FahrplanEintrag {
    FahrplanEintrag {
        betriebsstelle: betriebsstelle.into(),
        ankunft,
        abfahrt,
        fahrplan_signal_eintraege: signale.iter().map(|s| FahrplanSignalEintrag { fahrplan_signal: (*s).into() }).collect(),
    }
}

fn start(aufgleis_fahrstrasse: &str) -> RouteStartData {
    RouteStartData {
        aufgleis_fahrstrasse: aufgleis_fahrstrasse.into(),
        standort_modus: 0,
        start_vorschubweg: 0,
        speed_anfang: 0,
        km_start: None,
        gnt_spalte: None,
        fahrzeug_verband_aktion: None,
    }
}

fn part(aufgleis_fahrstrasse: &str, fahrplan_eintraege: Vec<FahrplanEintrag>, has_time_fix: bool) -> ResolvedRoutePart {
    ResolvedRoutePart {
        start_data: start(aufgleis_fahrstrasse),
        fahrplan_eintraege,
        has_time_fix,
        fahrplan_zeilen: vec![],
        mindest_bremshundertstel: 0,
    }
}

#[test]
fn merge_routes_test_merge_routes_by_abfahrt() {
    let current = part("X -> A", vec![
        eintrag("XDorf", None, at(7, 39, 30), &[]),
        eintrag("ADorf", None, at(7, 49, 10), &["E"]),
        eintrag("ADorf", None, at(7, 49, 20), &["A", "B"]),
    ], false);
    let new = part("A -> B", vec![
        eintrag("ADorf", None, at(8, 49, 20), &["A", "B"]),
        eintrag("BDorf", None, at(8, 56, 30), &[]),
        eintrag("CDorf", None, None, &[]),
    ], false);
    let expected = part("X -> A", vec![
        eintrag("XDorf", None, at(7, 39, 30), &[]),
        eintrag("ADorf", None, at(7, 49, 10), &["E"]),
        eintrag("ADorf", None, at(7, 49, 20), &["A", "B"]),
        eintrag("BDorf", None, at(7, 56, 30), &[]),
        eintrag("CDorf", None, None, &[]),
    ], false);

    assert_eq!(merge_routes(current, new).unwrap(), expected);
}

#[test]
fn test_merge_routes_by_abfahrt_current_has_time_fix() {
    let current = part("X -> A", vec![
        eintrag("XDorf", None, at(7, 39, 30), &[]),
        eintrag("ADorf", None, at(7, 49, 20), &[]),
    ], true);
    let new = part("A -> B", vec![
        eintrag("ADorf", None, at(8, 48, 20), &[]),
        eintrag("BDorf", None, at(8, 56, 30), &[]),
    ], false);
    let expected = part("X -> A", vec![
        eintrag("XDorf", None, at(7, 39, 30), &[]),
        eintrag("ADorf", None, at(7, 49, 20), &[]),
        eintrag("BDorf", None, at(7, 57, 30), &[]),
    ], true);

    assert_eq!(merge_routes(current, new).unwrap(), expected);
}

#[test]
fn test_merge_routes_by_abfahrt_new_has_time_fix() {
    let current = part("X -> A", vec![
        eintrag("XDorf", None, at(7, 39, 30), &[]),
        eintrag("ADorf", None, at(7, 49, 20), &[]),
    ], false);
    let new = part("A -> B", vec![
        eintrag("ADorf", None, at(8, 48, 20), &[]),
        eintrag("BDorf", None, at(8, 56, 30), &[]),
    ], true);
    let expected = part("X -> A", vec![
        eintrag("XDorf", None, at(8, 38, 30), &[]),
        eintrag("ADorf", None, at(8, 48, 20), &[]),
        eintrag("BDorf", None, at(8, 56, 30), &[]),
    ], true);

    assert_eq!(merge_routes(current, new).unwrap(), expected);
}

#[test]
fn merge_routes_test_merge_routes_by_ankunft() {
    let current = part("X -> A", vec![
        eintrag("XDorf", None, at(7, 39, 30), &[]),
        eintrag("ADorf", None, at(7, 47, 10), &["E"]),
        eintrag("ADorf", at(7, 47, 20), at(7, 49, 20), &["A", "B"]),
    ], false);
    let new = part("A -> B", vec![
        eintrag("ADorf", at(8, 48, 20), at(8, 49, 20), &["A", "B"]),
        eintrag("BDorf", None, at(8, 56, 30), &[]),
        eintrag("CDorf", None, None, &[]),
    ], false);
    let expected = part("X -> A", vec![
        eintrag("XDorf", None, at(7, 39, 30), &[]),
        eintrag("ADorf", None, at(7, 47, 10), &["E"]),
        eintrag("ADorf", at(7, 47, 20), at(7, 48, 20), &["A", "B"]),
        eintrag("BDorf", None, at(7, 55, 30), &[]),
        eintrag("CDorf", None, None, &[]),
    ], false);

    assert_eq!(merge_routes(current, new).unwrap(), expected);
}

#[test]
fn test_merge_routes_by_ankunft_current_has_time_fix() {
    let current = part("X -> A", vec![
        eintrag("XDorf", None, at(7, 39, 30), &[]),
        eintrag("ADorf", at(7, 47, 20), at(7, 49, 20), &[]),
    ], true);
    let new = part("A -> B", vec![
        eintrag("ADorf", at(8, 48, 20), at(8, 49, 20), &[]),
        eintrag("BDorf", None, at(8, 56, 30), &[]),
    ], false);
    let expected = part("X -> A", vec![
        eintrag("XDorf", None, at(7, 39, 30), &[]),
        eintrag("ADorf", at(7, 47, 20), at(7, 48, 20), &[]),
        eintrag("BDorf", None, at(7, 55, 30), &[]),
    ], true);

    assert_eq!(merge_routes(current, new).unwrap(), expected);
}

#[test]
fn test_merge_routes_by_ankunft_new_has_time_fix() {
    let current = part("X -> A", vec![
        eintrag("XDorf", None, at(7, 39, 30), &[]),
        eintrag("ADorf", at(7, 47, 20), at(7, 49, 20), &[]),
    ], false);
    let new = part("A -> B", vec![
        eintrag("ADorf", at(8, 48, 20), at(8, 49, 20), &[]),
        eintrag("BDorf", None, at(8, 56, 30), &[]),
    ], true);
    let expected = part("X -> A", vec![
        eintrag("XDorf", None, at(8, 40, 30), &[]),
        eintrag("ADorf", at(8, 48, 20), at(8, 49, 20), &[]),
        eintrag("BDorf", None, at(8, 56, 30), &[]),
    ], true);

    assert_eq!(merge_routes(current, new).unwrap(), expected);
}

#[test]
fn test_cannot_merge_non_consecutive_routes() {
    let current = part("X -> A", vec![
        eintrag("XDorf", None, at(7, 39, 30), &[]),
        eintrag("ADorf", None, at(7, 47, 10), &["E"]),
        eintrag("ADorf", at(7, 47, 20), at(7, 49, 20), &["A", "B"]),
    ], false);
    let new = part("A -> B", vec![
        eintrag("ADorf", None, at(8, 49, 20), &["A", "B"]),
        eintrag("BDorf", None, at(8, 56, 30), &[]),
        eintrag("CDorf", None, None, &[]),
    ], false);

    assert_eq!(merge_routes(current, new).unwrap_err(), MergeRoutePartsError::NonConsecutiveRouteParts);
}

#[test]
fn test_cannot_merge_routes_that_both_have_time_fix() {
    let current = part("X -> A", vec![eintrag("ADorf", None, at(7, 47, 20), &[])], true);
    let new = part("A -> B", vec![eintrag("ADorf", None, at(8, 47, 20), &[])], true);

    assert_eq!(merge_routes(current, new).unwrap_err(), MergeRoutePartsError::MoreThanOneTimeFix);
}

#[test]
fn merge_routes_test_can_merge() {
    assert!(can_merge(
        &eintrag("ADorf", None, at(7, 49, 30), &["A", "B"]),
        &eintrag("ADorf", None, at(7, 49, 40), &["A", "B"]),
    ));
    assert!(!can_merge(
        &eintrag("ADorf", None, at(7, 49, 30), &["A", "B"]),
        &eintrag("ADorf", None, at(7, 49, 40), &["B", "A"]),
    ));
    assert!(!can_merge(
        &eintrag("ADorf", None, at(7, 49, 30), &["A", "B"]),
        &eintrag("BDorf", None, at(7, 49, 40), &["A", "B"]),
    ));
    assert!(!can_merge(
        &eintrag("ADorf", None, at(7, 49, 30), &["A", "B"]),
        &eintrag("ADorf", None, at(7, 49, 40), &["A"]),
    ));

    assert!(can_merge(
        &eintrag("ADorf", at(7, 49, 10), at(7, 49, 30), &[]),
        &eintrag("ADorf", at(7, 49, 20), at(7, 49, 50), &[]),
    ));
    assert!(can_merge(
        &eintrag("ADorf", None, at(7, 49, 30), &[]),
        &eintrag("ADorf", None, at(7, 49, 50), &[]),
    ));

    assert!(!can_merge(
        &eintrag("ADorf", at(7, 49, 30), at(7, 49, 30), &[]),
        &eintrag("ADorf", None, at(7, 49, 30), &[]),
    ));
    assert!(!can_merge(
        &eintrag("ADorf", at(7, 49, 30), None, &[]),
        &eintrag("ADorf", None, at(7, 49, 30), &[]),
    ));
    assert!(!can_merge(
        &eintrag("ADorf", None, None, &[]),
        &eintrag("ADorf", None, None, &[]),
    ));
}

#[test]
fn merge_routes_test_get_time_diff_for_merge() {
    let on = |h: u8, mi: u8, s: u8| Some(dt(2023, 9, 6, h, mi, s));
    assert_eq!(
        get_time_diff_for_merge(
            &eintrag("", on(6, 36, 40), on(6, 37, 40), &[]),
            &eintrag("", on(6, 32, 40), on(6, 32, 50), &[]),
        ).unwrap(),
        4 * 60,
    );
    assert_eq!(
        get_time_diff_for_merge(
            &eintrag("", None, on(6, 37, 40), &[]),
            &eintrag("", None, on(6, 32, 50), &[]),
        ).unwrap(),
        4 * 60 + 50,
    );
    assert_eq!(
        get_time_diff_for_merge(&eintrag("", None, None, &[]), &eintrag("", None, None, &[])).unwrap_err(),
        NoTimes,
    );
}

#[test]
fn test_merge_route_parts_error_messages() {
    assert_eq!(
        MergeRoutePartsError::MoreThanOneTimeFix.message(),
        "Multiple route parts with time fix were found, but only one is allowed.",
    );
    assert!(MergeRoutePartsError::NonConsecutiveRouteParts.message().starts_with("The route parts aren't consecutive."));
}

fn whole(aufgleis_fahrstrasse: &str, fahrplan_eintraege: Vec<FahrplanEintrag>) -> WholeRoute {
    WholeRoute { aufgleis_fahrstrasse: aufgleis_fahrstrasse.into(), fahrplan_eintraege }
}

#[test]
fn fahrplan_generator_test_merge_routes_by_abfahrt() {
    let current = whole("X -> A", vec![
        eintrag("XDorf", None, at(7, 39, 30), &[]),
        eintrag("ADorf", None, at(7, 49, 10), &["E"]),
        eintrag("ADorf", None, at(7, 49, 20), &["A", "B"]),
    ]);
    let new = whole("A -> B", vec![
        eintrag("ADorf", None, at(8, 49, 20), &["A", "B"]),
        eintrag("BDorf", None, at(8, 56, 30), &[]),
        eintrag("CDorf", None, None, &[]),
    ]);
    let expected = whole("X -> A", vec![
        eintrag("XDorf", None, at(7, 39, 30), &[]),
        eintrag("ADorf", None, at(7, 49, 10), &["E"]),
        eintrag("ADorf", None, at(7, 49, 20), &["A", "B"]),
        eintrag("BDorf", None, at(7, 56, 30), &[]),
        eintrag("CDorf", None, None, &[]),
    ]);

    assert_eq!(merge_whole_routes(current, new).unwrap(), expected);
}

#[test]
fn fahrplan_generator_test_merge_routes_by_ankunft() {
    let current = whole("X -> A", vec![
        eintrag("XDorf", None, at(7, 39, 30), &[]),
        eintrag("ADorf", None, at(7, 47, 10), &["E"]),
        eintrag("ADorf", at(7, 47, 20), at(7, 49, 20), &["A", "B"]),
    ]);
    let new = whole("A -> B", vec![
        eintrag("ADorf", at(8, 48, 20), at(8, 49, 20), &["A", "B"]),
        eintrag("BDorf", None, at(8, 56, 30), &[]),
        eintrag("CDorf", None, None, &[]),
    ]);
    let expected = whole("X -> A", vec![
        eintrag("XDorf", None, at(7, 39, 30), &[]),
        eintrag("ADorf", None, at(7, 47, 10), &["E"]),
        eintrag("ADorf", at(7, 47, 20), at(7, 48, 20), &["A", "B"]),
        eintrag("BDorf", None, at(7, 55, 30), &[]),
        eintrag("CDorf", None, None, &[]),
    ]);

    assert_eq!(merge_whole_routes(current, new).unwrap(), expected);
}

#[test]
fn test_cannot_merge_routes() {
    let current = whole("X -> A", vec![
        eintrag("XDorf", None, at(7, 39, 30), &[]),
        eintrag("ADorf", None, at(7, 47, 10), &["E"]),
        eintrag("ADorf", at(7, 47, 20), at(7, 49, 20), &["A", "B"]),
    ]);
    let new = whole("A -> B", vec![
        eintrag("ADorf", None, at(8, 49, 20), &["A", "B"]),
        eintrag("BDorf", None, at(8, 56, 30), &[]),
        eintrag("CDorf", None, None, &[]),
    ]);

    assert_eq!(merge_whole_routes(current, new).unwrap_err(), RoutesCanNotBeMerged);
}
