use std::collections::BTreeSet;
use zusi_fahrplan_generator::kern::schedules::update_buchfahrplan::rgl_ggl_fahrplan_zeilen::{
    OwnedRglGglFahrplanZeilen, RglGglFahrplanZeilen,
};
use zusi_fahrplan_generator::kern::schedules::update_buchfahrplan::{update_buchfahrplan, UpdateBuchfahrplanError};
use zusi_fahrplan_generator::zusi::{FahrplanAbfahrt, FahrplanAnkunft, FahrplanEintrag, FahrplanName, FahrplanZeile};

fn dt(y: i32, mo: u8, d: u8, h: u8, mi: u8, s: u8) -> i64 {
    let date = time::Date::from_calendar_date(y, time::Month::try_from(mo).unwrap(), d).unwrap();
    let t = time::Time::from_hms(h, mi, s).unwrap();
    time::PrimitiveDateTime::new(date, t).assume_utc().unix_timestamp()
}

fn at(h: u8, mi: u8, s: u8) -> i64 {
    dt(2024, 6, 20, h, mi, s)
}

fn eintrag(betriebsstelle: &str, ankunft: Option<i64>, abfahrt: Option<i64>) -> FahrplanEintrag {
    FahrplanEintrag { betriebsstelle: betriebsstelle.into(), ankunft, abfahrt, fahrplan_signal_eintraege: vec![] }
}

fn zeile(rgl_ggl: i32, name: Option<&str>, ankunft: Option<i64>, abfahrt: Option<i64>) -> FahrplanZeile {
    FahrplanZeile {
        fahrplan_regelgleis_gegengleis: rgl_ggl,
        fahrplan_name: name.map(|n| FahrplanName { fahrplan_name_text: n.into() }),
        fahrplan_ankunft: ankunft.map(|ankunft| FahrplanAnkunft { ankunft }),
        fahrplan_abfahrt: abfahrt.map(|abfahrt| FahrplanAbfahrt { abfahrt }),
    }
}

#[test]
fn test_update_buchfahrplan() {
    let fahrplan_eintraege = vec![
        eintrag("Mehle Hp", None, Some(at(8, 46, 0))),
        eintrag("Osterwald Hp", Some(at(8, 49, 0)), Some(at(8, 49, 50))),
    ];
    let mut fahrplan_zeilen = vec![
        zeile(1, None, None, None),
        zeile(1, Some("Mehle Hp"), None, Some(at(8, 6, 0))),
        zeile(1, Some("Osterwald Hp"), Some(at(8, 39, 0)), Some(at(9, 49, 50))),
        zeile(1, None, None, None),
    ];
    let expected_fahrplan_zeilen = vec![
        zeile(1, None, None, None),
        zeile(1, Some("Mehle Hp"), None, Some(at(8, 46, 0))),
        zeile(1, Some("Osterwald Hp"), Some(at(8, 49, 0)), Some(at(8, 49, 50))),
        zeile(1, None, None, None),
    ];

    update_buchfahrplan(&fahrplan_eintraege, &mut fahrplan_zeilen).unwrap();

    assert_eq!(fahrplan_zeilen, expected_fahrplan_zeilen);
}

#[test]
fn test_update_buchfahrplan_with_multiple_entries_for_rgl_ggl() {
    let fahrplan_eintraege = vec![
        eintrag("Mehle Hp", None, Some(at(8, 46, 0))),
        eintrag("Osterwald Hp", Some(at(8, 49, 0)), Some(at(8, 49, 50))),
    ];
    let mut fahrplan_zeilen = vec![
        zeile(1, None, None, None),
        zeile(1, Some("Mehle Hp"), None, Some(at(8, 6, 0))),
        zeile(2, Some("Mehle Hp"), None, Some(at(8, 6, 0))),
        zeile(1, Some("Osterwald Hp"), Some(at(8, 39, 0)), Some(at(9, 49, 50))),
        zeile(2, Some("Osterwald Hp"), Some(at(8, 39, 0)), Some(at(9, 49, 50))),
        zeile(1, None, None, None),
    ];
    let expected_fahrplan_zeilen = vec![
        zeile(1, None, None, None),
        zeile(1, Some("Mehle Hp"), None, Some(at(8, 46, 0))),
        zeile(2, Some("Mehle Hp"), None, Some(at(8, 46, 0))),
        zeile(1, Some("Osterwald Hp"), Some(at(8, 49, 0)), Some(at(8, 49, 50))),
        zeile(2, Some("Osterwald Hp"), Some(at(8, 49, 0)), Some(at(8, 49, 50))),
        zeile(1, None, None, None),
    ];

    update_buchfahrplan(&fahrplan_eintraege, &mut fahrplan_zeilen).unwrap();

    assert_eq!(fahrplan_zeilen, expected_fahrplan_zeilen);
}

#[test]
fn test_update_buchfahrplan_with_multiple_entries_for_rgl_ggl_with_invalid_abfahrt() {
    let fahrplan_eintraege = vec![eintrag("Osterwald Hp", Some(at(8, 49, 0)), Some(at(8, 49, 50)))];
    let mut fahrplan_zeilen = vec![
        zeile(1, Some("Osterwald Hp"), Some(at(8, 39, 0)), Some(at(9, 49, 50))),
        zeile(2, Some("Osterwald Hp"), Some(at(8, 39, 0)), Some(at(9, 47, 50))),
    ];

    assert_eq!(
        update_buchfahrplan(&fahrplan_eintraege, &mut fahrplan_zeilen).unwrap_err(),
        UpdateBuchfahrplanError::InvalidLen,
    );
}

#[test]
fn test_update_buchfahrplan_with_multiple_entries_for_rgl_ggl_with_invalid_ankunft() {
    let fahrplan_eintraege = vec![eintrag("Osterwald Hp", Some(at(8, 49, 0)), Some(at(8, 49, 50)))];
    let mut fahrplan_zeilen = vec![
        zeile(1, Some("Osterwald Hp"), Some(at(8, 39, 0)), Some(at(9, 49, 50))),
        zeile(2, Some("Osterwald Hp"), Some(at(8, 37, 0)), Some(at(9, 49, 50))),
    ];

    assert_eq!(
        update_buchfahrplan(&fahrplan_eintraege, &mut fahrplan_zeilen).unwrap_err(),
        UpdateBuchfahrplanError::InvalidLen,
    );
}

#[test]
fn test_update_buchfahrplan_with_multiple_entries_for_rgl_ggl_with_invalid_text() {
    let fahrplan_eintraege = vec![eintrag("Osterwald Hp", Some(at(8, 49, 0)), Some(at(8, 49, 50)))];
    let mut fahrplan_zeilen = vec![
        zeile(1, Some("Osterwald Hp"), Some(at(8, 39, 0)), Some(at(9, 49, 50))),
        zeile(2, Some("Osterwald 2 Hp"), Some(at(8, 39, 0)), Some(at(9, 49, 50))),
    ];

    assert_eq!(
        update_buchfahrplan(&fahrplan_eintraege, &mut fahrplan_zeilen).unwrap_err(),
        UpdateBuchfahrplanError::InvalidLen,
    );
}

#[test]
fn test_update_buchfahrplan_with_ankunft_only() {
    let fahrplan_eintraege = vec![eintrag("Osterwald Hp", Some(at(8, 49, 0)), Some(at(8, 49, 50)))];
    let mut fahrplan_zeilen = vec![zeile(1, Some("Osterwald Hp"), Some(at(8, 39, 0)), None)];
    let expected_fahrplan_zeilen = vec![zeile(1, Some("Osterwald Hp"), Some(at(8, 49, 0)), None)];

    update_buchfahrplan(&fahrplan_eintraege, &mut fahrplan_zeilen).unwrap();

    assert_eq!(fahrplan_zeilen, expected_fahrplan_zeilen);
}

#[test]
fn test_update_buchfahrplan_with_abfahrt_only() {
    let fahrplan_eintraege = vec![eintrag("Osterwald Hp", Some(at(8, 49, 0)), Some(at(8, 49, 50)))];
    let mut fahrplan_zeilen = vec![zeile(1, Some("Osterwald Hp"), None, Some(at(8, 39, 0)))];
    let expected_fahrplan_zeilen = vec![zeile(1, Some("Osterwald Hp"), None, Some(at(8, 49, 50)))];

    update_buchfahrplan(&fahrplan_eintraege, &mut fahrplan_zeilen).unwrap();

    assert_eq!(fahrplan_zeilen, expected_fahrplan_zeilen);
}

#[test]
fn test_update_buchfahrplan_with_invalid_len() {
    let fahrplan_eintraege = vec![
        eintrag("Mehle Hp", None, Some(at(8, 46, 0))),
        eintrag("Osterwald Hp", Some(at(8, 49, 0)), Some(at(8, 49, 50))),
    ];
    let mut fahrplan_zeilen = vec![
        zeile(1, None, None, None),
        zeile(1, Some("Osterwald Hp"), Some(at(8, 39, 0)), Some(at(9, 49, 50))),
        zeile(1, None, None, None),
    ];

    assert_eq!(
        update_buchfahrplan(&fahrplan_eintraege, &mut fahrplan_zeilen).unwrap_err(),
        UpdateBuchfahrplanError::InvalidLen,
    );
}

#[test]
fn test_update_buchfahrplan_with_unequal_betriebsstelle() {
    let fahrplan_eintraege = vec![eintrag("Osterwald Hp", Some(at(8, 49, 0)), Some(at(8, 49, 50)))];
    let mut fahrplan_zeilen = vec![zeile(1, Some("Osterwald Hst"), Some(at(8, 39, 0)), Some(at(9, 49, 50)))];

    assert_eq!(
        update_buchfahrplan(&fahrplan_eintraege, &mut fahrplan_zeilen).unwrap_err(),
        UpdateBuchfahrplanError::RelatedEntriesMustBeEqual,
    );
}

#[test]
fn test_update_buchfahrplan_with_unequal_ankunft() {
    let fahrplan_eintraege = vec![eintrag("Osterwald Hp", None, Some(at(8, 49, 50)))];
    let mut fahrplan_zeilen = vec![zeile(1, Some("Osterwald Hp"), Some(at(8, 39, 0)), Some(at(9, 49, 50)))];

    assert_eq!(
        update_buchfahrplan(&fahrplan_eintraege, &mut fahrplan_zeilen).unwrap_err(),
        UpdateBuchfahrplanError::RelatedEntriesMustBeEqual,
    );
}

#[test]
fn test_update_buchfahrplan_with_missing_ankunft_and_abfahrt() {
    let fahrplan_eintraege = vec![eintrag("Osterwald Hp", Some(at(8, 49, 0)), Some(at(8, 49, 50)))];
    let mut fahrplan_zeilen = vec![zeile(1, Some("Osterwald Hp"), None, None)];

    assert_eq!(
        update_buchfahrplan(&fahrplan_eintraege, &mut fahrplan_zeilen).unwrap_err(),
        UpdateBuchfahrplanError::InvalidLen,
    );
}

#[test]
fn test_update_buchfahrplan_with_unequal_abfahrt() {
    let fahrplan_eintraege = vec![eintrag("Osterwald Hp", None, None)];
    let mut fahrplan_zeilen = vec![zeile(1, Some("Osterwald Hp"), Some(at(8, 39, 0)), Some(at(9, 49, 50)))];

    assert_eq!(
        update_buchfahrplan(&fahrplan_eintraege, &mut fahrplan_zeilen).unwrap_err(),
        UpdateBuchfahrplanError::InvalidLen,
    );
}

#[test]
fn test_update_buchfahrplan_error_messages() {
    assert_eq!(
        UpdateBuchfahrplanError::InvalidLen.message(),
        "The number of relevant entries for 'FahrplanZeile' and 'FahrplanEintrag' must be equal.",
    );
    assert_eq!(
        UpdateBuchfahrplanError::RelatedEntriesMustBeEqual.message(),
        "Related entries of type 'FahrplanZeile' and 'FahrplanEintrag' must fulfill following criteria: 'Betriebsstelle' is equal, either 'Ankunft' or 'Abfahrt' must be set.",
    );
}

fn rgl_zeile(rgl_ggl: i32, name: &str, ankunft: (u8, u8, u8), abfahrt: (u8, u8, u8)) -> FahrplanZeile {
    zeile(
        rgl_ggl,
        Some(name),
        Some(dt(2030, 2, 7, ankunft.0, ankunft.1, ankunft.2)),
        Some(dt(2030, 2, 7, abfahrt.0, abfahrt.1, abfahrt.2)),
    )
}

#[test]
fn test_new() {
    let zeilen = vec![rgl_zeile(0, "Name", (12, 39, 37), (12, 39, 57))];

    assert_eq!(
        RglGglFahrplanZeilen::new(&zeilen, 0).into_owned(&zeilen),
        OwnedRglGglFahrplanZeilen::new(BTreeSet::from([0]), vec![zeilen[0].clone()]),
    );
}

#[test]
fn test_insert_or_return() {
    let zeilen = vec![
        rgl_zeile(0, "a", (12, 39, 37), (12, 39, 57)),
        rgl_zeile(0, "a", (12, 49, 37), (12, 49, 57)),
        rgl_zeile(1, "a", (12, 39, 37), (12, 39, 57)),
        rgl_zeile(1, "a", (12, 39, 37), (12, 39, 57)),
        rgl_zeile(2, "b", (12, 39, 37), (12, 39, 57)),
    ];

    let mut rgl_ggl_fahrplan_zeilen = RglGglFahrplanZeilen::new(&zeilen, 0);

    assert!(rgl_ggl_fahrplan_zeilen.insert_or_return(&zeilen, 1).is_some());
    assert_eq!(rgl_ggl_fahrplan_zeilen.insert_or_return(&zeilen, 2), None);
    assert!(rgl_ggl_fahrplan_zeilen.insert_or_return(&zeilen, 3).is_some());
    assert!(rgl_ggl_fahrplan_zeilen.insert_or_return(&zeilen, 4).is_some());

    assert_eq!(rgl_ggl_fahrplan_zeilen.zeilen(), &vec![0, 2]);
    assert_eq!(rgl_ggl_fahrplan_zeilen.first(&zeilen), &zeilen[0]);
    assert_eq!(
        rgl_ggl_fahrplan_zeilen.into_owned(&zeilen),
        OwnedRglGglFahrplanZeilen::new(BTreeSet::from([0, 1]), vec![zeilen[0].clone(), zeilen[2].clone()]),
    );
}

#[test]
fn test_update_buchfahrplan_keeps_lines_on_error() {
    let fahrplan_eintraege = vec![
        eintrag("Mehle Hp", None, Some(at(8, 46, 0))),
        eintrag("Osterwald Hp", Some(at(8, 49, 0)), Some(at(8, 49, 50))),
    ];
    let mut fahrplan_zeilen = vec![
        zeile(1, None, None, None),
        zeile(1, Some("Mehle Hp"), None, Some(at(8, 6, 0))),
        zeile(3, Some("Osterwald Hst"), Some(at(8, 39, 0)), Some(at(9, 49, 50))),
    ];

    assert_eq!(
        update_buchfahrplan(&fahrplan_eintraege, &mut fahrplan_zeilen).unwrap_err(),
        UpdateBuchfahrplanError::RelatedEntriesMustBeEqual,
    );
    assert_eq!(
        fahrplan_zeilen,
        vec![
            zeile(1, None, None, None),
            zeile(1, Some("Mehle Hp"), None, Some(at(8, 46, 0))),
            zeile(3, Some("Osterwald Hst"), Some(at(8, 39, 0)), Some(at(9, 49, 50))),
        ],
    );
}

#[test]
fn test_owned_rgl_ggl_fahrplan_zeilen_to_string() {
    let group = OwnedRglGglFahrplanZeilen::new(
        BTreeSet::from([1, 0]),
        vec![
            zeile(0, Some("Name"), Some(dt(2030, 2, 7, 12, 39, 37)), Some(dt(2030, 2, 7, 12, 39, 57))),
            zeile(1, Some("Name"), Some(dt(2030, 2, 7, 12, 39, 37)), Some(dt(2030, 2, 7, 12, 39, 57))),
        ],
    );
    assert_eq!(group.to_string(), "Name [0, 1]: Some(2030-02-07 12:39:37.0) - Some(2030-02-07 12:39:57.0)");
}

#[test]
fn test_owned_rgl_ggl_fahrplan_zeilen_to_string_without_name_and_times() {
    let group = OwnedRglGglFahrplanZeilen::new(BTreeSet::from([-2]), vec![zeile(-2, None, None, None)]);
    assert_eq!(group.to_string(), " [-2]: None - None");
}
