use zusi_fahrplan_generator::input::schedule::{Schedule, ScheduleEntry, TimeFix};
use zusi_fahrplan_generator::kern::schedule::apply::apply;
use zusi_fahrplan_generator::kern::schedules::apply::{apply_schedule, apply_schedule_checked, ApplyScheduleError};
use zusi_fahrplan_generator::kern::schedules::generate::generate_schedule;
use zusi_fahrplan_generator::kern::schedules::prepare_entries::prepare_entries;
use zusi_fahrplan_generator::zusi::FahrplanEintrag;

fn dt(y: i32, mo: u8, d: u8, h: u8, mi: u8, s: u8) -> i64 {
    let date = time::Date::from_calendar_date(y, time::Month::try_from(mo).unwrap(), d).unwrap();
    let t = time::Time::from_hms(h, mi, s).unwrap();
    time::PrimitiveDateTime::new(date, t).assume_utc().unix_timestamp()
}

fn at(h: u8, mi: u8, s: u8) -> Option<i64> {
    Some(dt(2022, 7, 29, h, mi, s))
}

fn eintrag(betriebsstelle: &str, ankunft: Option<i64>, abfahrt: Option<i64>) -> FahrplanEintrag {
    FahrplanEintrag {
        betriebsstelle: betriebsstelle.into(),
        ankunft,
        abfahrt,
        fahrplan_signal_eintraege: vec![],
    }
}

fn entry(betriebsstelle: &str, driving_time: i64, stop_time: Option<i64>, time_fix: Option<TimeFix>) -> ScheduleEntry {
    ScheduleEntry { betriebsstelle: betriebsstelle.into(), driving_time, stop_time, time_fix }
}

fn route() -> Vec<FahrplanEintrag> {
    vec![
        eintrag("A", None, None),
        eintrag("A", None, at(4, 3, 0)),
        eintrag("B", None, None),
        eintrag("B", None, at(4, 6, 0)),
        eintrag("C", None, None),
        eintrag("C", at(4, 8, 0), at(4, 8, 10)),
        eintrag("D", None, None),
        eintrag("D", at(4, 12, 0), at(4, 13, 0)),
        eintrag("E", None, None),
        eintrag("E", None, at(4, 13, 0)),
        eintrag("F", None, None),
        eintrag("F", at(4, 17, 0), at(4, 17, 20)),
        eintrag("G", None, None),
        eintrag("G", None, at(4, 19, 20)),
    ]
}

#[test]
fn apply_test_apply() {
    let mut modified = route();
    let schedule = Schedule {
        entries: vec![
            entry("B", 0, None, None),
            entry("C", 3 * 60, Some(20), None),
            entry("D", 5 * 60, None, Some(TimeFix::Ankunft)),
            entry("E", 3 * 60, None, None),
            entry("F", 4 * 60, Some(40), None),
        ],
    };

    apply_schedule(&mut modified, &schedule).unwrap();

    assert_eq!(modified, vec![
        eintrag("A", None, None),
        eintrag("A", None, at(4, 0, 40)),
        eintrag("B", None, None),
        eintrag("B", None, at(4, 3, 40)),
        eintrag("C", None, None),
        eintrag("C", at(4, 6, 40), at(4, 7, 0)),
        eintrag("D", None, None),
        eintrag("D", at(4, 12, 0), at(4, 13, 0)),
        eintrag("E", None, None),
        eintrag("E", None, at(4, 16, 0)),
        eintrag("F", None, None),
        eintrag("F", at(4, 20, 0), at(4, 20, 40)),
        eintrag("G", None, None),
        eintrag("G", None, at(4, 22, 40)),
    ]);
}

#[test]
fn schedule_apply_test_apply() {
    let mut modified = route();
    let schedule = Schedule {
        entries: vec![
            entry("B", 0, None, None),
            entry("C", 3 * 60, Some(20), None),
            entry("D", 5 * 60, None, None),
            entry("E", 3 * 60, None, None),
            entry("F", 4 * 60, Some(40), None),
        ],
    };

    apply(&mut modified, &schedule).unwrap();

    assert_eq!(modified, vec![
        eintrag("A", None, None),
        eintrag("A", None, at(4, 3, 0)),
        eintrag("B", None, None),
        eintrag("B", None, at(4, 6, 0)),
        eintrag("C", None, None),
        eintrag("C", at(4, 9, 0), at(4, 9, 20)),
        eintrag("D", None, None),
        eintrag("D", at(4, 14, 20), at(4, 15, 20)),
        eintrag("E", None, None),
        eintrag("E", None, at(4, 18, 20)),
        eintrag("F", None, None),
        eintrag("F", at(4, 22, 20), at(4, 23, 0)),
        eintrag("G", None, None),
        eintrag("G", None, at(4, 25, 0)),
    ]);
}

#[test]
fn test_prepare_entries() {
    let fahrplan_eintraege = vec![
        eintrag("A", None, None),
        eintrag("A", None, at(4, 3, 0)),
        eintrag("B", None, None),
        eintrag("B", None, at(4, 6, 0)),
        eintrag("C", None, None),
        eintrag("C", None, at(4, 8, 0)),
        eintrag("D", None, None),
        eintrag("D", None, at(4, 12, 0)),
    ];
    let schedule = Schedule {
        entries: vec![
            entry("B", 0, None, None),
            entry("C", 3 * 60, None, None),
            entry("D", 5 * 60, None, None),
            entry("E", 7 * 60, None, None),
        ],
    };

    assert_eq!(
        prepare_entries(&fahrplan_eintraege, &schedule),
        vec![(1, None), (3, Some(0)), (5, Some(1)), (7, Some(2))],
    );
}

#[test]
fn generate_test_generate_schedule() {
    let expected = Schedule {
        entries: vec![
            entry("A", 0, None, None),
            entry("B", 3 * 60, None, None),
            entry("C", 2 * 60, Some(10), None),
            entry("D", 3 * 60 + 50, Some(60), None),
            entry("E", 0, None, None),
            entry("F", 4 * 60, Some(20), None),
            entry("G", 2 * 60, None, None),
        ],
    };

    assert_eq!(generate_schedule(&route()), expected);
}

#[test]
fn test_apply_generated_schedule_keeps_entries() {
    let entries = route();
    let schedule = generate_schedule(&entries);
    let mut applied = entries.clone();
    apply_schedule(&mut applied, &schedule).unwrap();
    assert_eq!(applied, entries);
}

#[test]
fn test_apply_schedule_stop_time_without_arrival() {
    let mut modified = route();
    let schedule = Schedule {
        entries: vec![
            entry("B", 0, None, None),
            entry("C", 3 * 60, None, None),
            entry("D", 5 * 60, None, None),
            entry("E", 3 * 60, Some(30), None),
        ],
    };
    assert_eq!(
        apply_schedule(&mut modified, &schedule),
        Err(ApplyScheduleError::CannotApplyStopTime { betriebsstelle: "E".into() }),
    );
}

#[test]
fn test_apply_schedule_time_fix_only_once() {
    let mut modified = route();
    let schedule = Schedule {
        entries: vec![
            entry("B", 0, None, None),
            entry("C", 3 * 60, None, Some(TimeFix::Abfahrt)),
            entry("D", 5 * 60, None, Some(TimeFix::Ankunft)),
        ],
    };
    assert_eq!(
        apply_schedule(&mut modified, &schedule),
        Err(ApplyScheduleError::TimeFixIsAllowedOnlyOnce),
    );
}

#[test]
fn test_apply_schedule_without_common_station() {
    let mut modified = route();
    let schedule = Schedule { entries: vec![entry("X", 60, None, None)] };
    apply_schedule(&mut modified, &schedule).unwrap();
    assert_eq!(modified, route());
}

#[test]
fn test_apply_schedule_keeps_stations_and_entries_without_departure() {
    let initial = route();
    let mut modified = route();
    let schedule = Schedule {
        entries: vec![entry("B", 0, None, None), entry("C", 10 * 60, Some(5), None), entry("D", 60, Some(30), None)],
    };
    apply_schedule(&mut modified, &schedule).unwrap();
    assert_eq!(modified.len(), initial.len());
    for (m, o) in modified.iter().zip(initial.iter()) {
        assert_eq!(m.betriebsstelle, o.betriebsstelle);
        assert_eq!(m.ankunft.is_some(), o.ankunft.is_some());
        assert_eq!(m.abfahrt.is_some(), o.abfahrt.is_some());
        if o.abfahrt.is_none() {
            assert_eq!(m, o);
        }
    }
    assert_eq!(modified[5], eintrag("C", at(4, 16, 0), at(4, 16, 5)));
}

#[test]
fn test_apply_schedule_second_time_fix_refused_when_first_keeps_its_time() {
    let mut modified = vec![eintrag("A", None, at(4, 3, 0)), eintrag("B", None, at(4, 6, 0))];
    let schedule = Schedule {
        entries: vec![
            entry("A", 0, None, Some(TimeFix::Abfahrt)),
            entry("B", 3 * 60, None, Some(TimeFix::Abfahrt)),
        ],
    };
    assert_eq!(
        apply_schedule(&mut modified, &schedule),
        Err(ApplyScheduleError::TimeFixIsAllowedOnlyOnce),
    );
}

#[test]
fn test_apply_schedule_keeps_fixed_arrival() {
    let mut modified = route();
    let schedule = Schedule {
        entries: vec![
            entry("B", 0, None, None),
            entry("C", 10 * 60, None, None),
            entry("D", 60, Some(30), Some(TimeFix::Ankunft)),
        ],
    };
    apply_schedule(&mut modified, &schedule).unwrap();
    assert_eq!(modified[7].ankunft, at(4, 12, 0));
    assert_eq!(modified[7].abfahrt, at(4, 12, 30));
    assert_eq!(modified[5], eintrag("C", at(4, 10, 50), at(4, 11, 0)));
}

#[test]
fn test_apply_schedule_checked_in_range() {
    let mut modified = route();
    let schedule = Schedule { entries: vec![entry("B", 0, None, None), entry("C", 3 * 60, Some(20), None)] };
    assert_eq!(apply_schedule_checked(&mut modified, &schedule), Some(Ok(())));
    assert_eq!(modified[5], eintrag("C", at(4, 9, 0), at(4, 9, 20)));
}

#[test]
fn test_apply_schedule_checked_out_of_range() {
    let mut modified = vec![
        eintrag("A", None, Some(dt(9999, 12, 31, 23, 0, 0))),
        eintrag("B", None, Some(dt(9999, 12, 31, 23, 30, 0))),
    ];
    let schedule = Schedule { entries: vec![entry("A", 0, None, None), entry("B", 2 * 3600, None, None)] };
    assert_eq!(apply_schedule_checked(&mut modified, &schedule), None);
}

#[test]
fn test_apply_schedule_twice_changes_nothing_more() {
    let schedule = Schedule {
        entries: vec![
            entry("B", 0, None, None),
            entry("C", 3 * 60, Some(20), None),
            entry("D", 5 * 60, None, Some(TimeFix::Ankunft)),
            entry("E", 3 * 60, None, None),
            entry("F", 4 * 60, Some(40), None),
        ],
    };
    let mut once = route();
    apply_schedule(&mut once, &schedule).unwrap();
    let mut twice = once.clone();
    apply_schedule(&mut twice, &schedule).unwrap();
    assert_eq!(twice, once);
}
