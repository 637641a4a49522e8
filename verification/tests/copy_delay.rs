use zusi_fahrplan_generator::kern::copy_delay::zug_nummer::ZugNummer;
use zusi_fahrplan_generator::kern::shared::copy_delay::{
    copy_delay_zug_nummer, delayed_copies, delayed_copies_checked, CopyDelayError, CopyDelayZug,
};
use zusi_fahrplan_generator::kern::shared::helpers::{delay_fahrplan_eintraege, delay_fahrplan_zeilen};
use zusi_fahrplan_generator::text::IntErrorKind;
use zusi_fahrplan_generator::zusi::{FahrplanAbfahrt, FahrplanAnkunft, FahrplanEintrag, FahrplanName, FahrplanZeile};

fn dt(y: i32, mo: u8, d: u8, h: u8, mi: u8, s: u8) -> i64 {
    let date = time::Date::from_calendar_date(y, time::Month::try_from(mo).unwrap(), d).unwrap();
    let t = time::Time::from_hms(h, mi, s).unwrap();
    time::PrimitiveDateTime::new(date, t).assume_utc().unix_timestamp()
}

fn at(h: u8, mi: u8, s: u8) -> Option<i64> {
    Some(dt(2004, 7, 9, h, mi, s))
}

fn eintrag(betriebsstelle: &str, ankunft: Option<i64>, abfahrt: Option<i64>) -> FahrplanEintrag {
    FahrplanEintrag { betriebsstelle: betriebsstelle.into(), ankunft, abfahrt, fahrplan_signal_eintraege: vec![] }
}

fn zeile(name: &str, ankunft: Option<i64>, abfahrt: Option<i64>) -> FahrplanZeile {
    FahrplanZeile {
        fahrplan_regelgleis_gegengleis: 1,
        fahrplan_name: Some(FahrplanName { fahrplan_name_text: name.into() }),
        fahrplan_ankunft: ankunft.map(|ankunft| FahrplanAnkunft { ankunft }),
        fahrplan_abfahrt: abfahrt.map(|abfahrt| FahrplanAbfahrt { abfahrt }),
    }
}

fn zug(nummer: &str, h: u8, with_zeilen: bool) -> CopyDelayZug {
    CopyDelayZug {
        nummer: nummer.into(),
        fahrplan_eintraege: vec![
            eintrag("ADorf", at(h, 20, 50), at(h, 21, 30)),
            eintrag("BDorf", None, at(h, 23, 30)),
        ],
        fahrplan_zeilen: if with_zeilen {
            Some(vec![zeile("ADorf", at(h, 20, 50), at(h, 21, 30)), zeile("BDorf", None, at(h, 23, 30))])
        } else {
            None
        },
    }
}

#[test]
fn test_copy_delay_tasks() {
    let input = zug("342_702", 2, false);
    let nummer = copy_delay_zug_nummer(&input.nummer).unwrap();

    assert_eq!(
        delayed_copies(&nummer, 4 * 3600, 7, 2, &input).unwrap(),
        vec![zug("349_709", 6, false), zug("356_716", 10, false)],
    );
    assert_eq!(
        delayed_copies(&nummer, -3600, -2, 2, &input).unwrap(),
        vec![zug("340_700", 1, false), zug("338_698", 0, false)],
    );
}

#[test]
fn test_copy_delay_tasks_with_buchfahrplan() {
    let input = zug("342_702", 2, true);
    let nummer = copy_delay_zug_nummer(&input.nummer).unwrap();

    assert_eq!(delayed_copies(&nummer, 4 * 3600, 7, 1, &input).unwrap(), vec![zug("349_709", 6, true)]);
    assert_eq!(delayed_copies(&nummer, -3600, -2, 1, &input).unwrap(), vec![zug("340_700", 1, true)]);
}

#[test]
fn test_copy_delay_invalid_zug_nummer() {
    let error = copy_delay_zug_nummer(&String::from("invalid")).unwrap_err();
    assert!(matches!(error, CopyDelayError::InvalidZugNummer { .. }));
    if let CopyDelayError::InvalidZugNummer { error } = error {
        assert_eq!(error.kind, IntErrorKind::InvalidDigit);
    }
    assert_eq!(
        CopyDelayError::ZugNummerCanNotBeNegative.message(),
        "The 'Zugnummer' always must be positive. It can be decremented only if the resulting value is still positive.",
    );
}

#[test]
fn test_copy_delay_zug_nummer_must_not_be_negative() {
    let input = CopyDelayZug { nummer: "2".into(), fahrplan_eintraege: vec![], fahrplan_zeilen: None };
    let nummer = copy_delay_zug_nummer(&input.nummer).unwrap();

    assert!(matches!(
        delayed_copies(&nummer, -3600, -3, 2, &input).unwrap_err(),
        CopyDelayError::ZugNummerCanNotBeNegative { .. },
    ));
}

#[test]
fn test_copy_delay_stops_at_first_negative_number() {
    let input = CopyDelayZug { nummer: "5".into(), fahrplan_eintraege: vec![], fahrplan_zeilen: None };
    let nummer = ZugNummer::new(vec![5]);
    assert_eq!(
        delayed_copies(&nummer, 60, -2, 2, &input).unwrap(),
        vec![
            CopyDelayZug { nummer: "3".into(), fahrplan_eintraege: vec![], fahrplan_zeilen: None },
            CopyDelayZug { nummer: "1".into(), fahrplan_eintraege: vec![], fahrplan_zeilen: None },
        ],
    );
    assert_eq!(delayed_copies(&nummer, 60, -2, 3, &input), Err(CopyDelayError::ZugNummerCanNotBeNegative));
    assert_eq!(delayed_copies(&nummer, 60, -2, 0, &input), Ok(vec![]));
}

#[test]
fn test_delay_then_undo() {
    let initial = zug("1", 2, true);
    let mut eintraege = initial.fahrplan_eintraege.clone();
    delay_fahrplan_eintraege(&mut eintraege, 1234);
    assert_eq!(eintraege[1].abfahrt, Some(at(2, 23, 30).unwrap() + 1234));
    delay_fahrplan_eintraege(&mut eintraege, -1234);
    assert_eq!(eintraege, initial.fahrplan_eintraege);

    let mut zeilen = initial.fahrplan_zeilen.clone().unwrap();
    delay_fahrplan_zeilen(&mut zeilen, -99);
    assert_eq!(zeilen[0].fahrplan_ankunft, Some(FahrplanAnkunft { ankunft: at(2, 20, 50).unwrap() - 99 }));
    delay_fahrplan_zeilen(&mut zeilen, 99);
    assert_eq!(Some(zeilen), initial.fahrplan_zeilen);
}

#[test]
fn test_delayed_copies_checked() {
    let input = zug("342_702", 2, true);
    let nummer = copy_delay_zug_nummer(&input.nummer).unwrap();
    assert_eq!(
        delayed_copies_checked(&nummer, 4 * 3600, 7, 2, &input),
        Some(Ok(vec![zug("349_709", 6, true), zug("356_716", 10, true)])),
    );
    assert_eq!(
        delayed_copies_checked(&nummer, 3600, -400, 1, &input),
        Some(Err(CopyDelayError::ZugNummerCanNotBeNegative)),
    );
}

#[test]
fn test_delayed_copies_checked_out_of_range() {
    let input = zug("342_702", 2, true);
    let nummer = copy_delay_zug_nummer(&input.nummer).unwrap();
    // The second copy moves its times past the last date-time.
    assert_eq!(delayed_copies_checked(&nummer, 4_500 * 365 * 24 * 3600, 1, 2, &input), None);
    // The first number of the first copy leaves the `i32` range.
    assert_eq!(delayed_copies_checked(&nummer, 60, i32::MAX, 2, &input), None);
}
