use std::num::TryFromIntError;
use zusi_fahrplan_generator::kern::copy_delay::zug_nummer::ZugNummer;
use zusi_fahrplan_generator::text::{IntErrorKind, ParseIntError};

#[test]
fn test_zug_nummer_from_string() {
    assert_eq!(
        ZugNummer::try_from("03").unwrap(),
        ZugNummer(vec![3]),
    );
    assert_eq!(
        ZugNummer::try_from("03_70_22").unwrap(),
        ZugNummer(vec![3, 70, 22]),
    );
    assert!(matches!(
        ZugNummer::try_from("4__3").unwrap_err(),
        ParseIntError { .. },
    ));
    assert!(matches!(
        ZugNummer::try_from("").unwrap_err(),
        ParseIntError { .. },
    ));
}

#[test]
fn test_zug_nummer_to_string() {
    assert_eq!(
        ZugNummer(vec![3, 70, 22]).to_string(),
        String::from("3_70_22"),
    );
    assert_eq!(
        ZugNummer(vec![]).to_string(),
        String::from(""),
    );
}

#[test]
fn test_increment_zug_nummer() {
    assert_eq!(
        ZugNummer::new(vec![1, 2, 3, 100, 1000]).to_new_incremented(3).unwrap(),
        ZugNummer::new(vec![4, 5, 6, 103, 1003]),
    );
    assert_eq!(
        ZugNummer::new(vec![3, 100, 1000]).to_new_incremented(-3).unwrap(),
        ZugNummer::new(vec![0, 97, 997]),
    );
    let _: TryFromIntError = ZugNummer::new(vec![1, 2, 3, 100, 1000]).to_new_incremented(-3).unwrap_err();
}

#[test]
fn test_zug_nummer_parse_errors_have_kinds() {
    assert_eq!(ZugNummer::from_str("").unwrap_err().kind, IntErrorKind::Empty);
    assert_eq!(ZugNummer::from_str("4__3").unwrap_err().kind, IntErrorKind::Empty);
    assert_eq!(ZugNummer::from_str("4_x").unwrap_err().kind, IntErrorKind::InvalidDigit);
    assert_eq!(ZugNummer::from_str("-4").unwrap_err().kind, IntErrorKind::InvalidDigit);
    assert_eq!(ZugNummer::from_str("4294967296").unwrap_err().kind, IntErrorKind::PosOverflow);
    assert_eq!(ZugNummer::from_str("+4_4294967295").unwrap(), ZugNummer(vec![4, 4294967295]));
    assert_eq!(
        ZugNummer::from_str("12_a").unwrap_err().message(),
        "invalid digit found in string",
    );
}

#[test]
fn test_zug_nummer_from_string_types() {
    let text = String::from("342_702");
    assert_eq!(ZugNummer::try_from(&text).unwrap(), ZugNummer(vec![342, 702]));
    assert_eq!(ZugNummer::try_from(text).unwrap(), ZugNummer(vec![342, 702]));
    assert_eq!(String::from(ZugNummer(vec![342, 703])), String::from("342_703"));
}

#[test]
fn test_zug_nummer_round_trip() {
    for numbers in [vec![0], vec![3, 70, 22], vec![4294967295, 0, 10]] {
        let written = ZugNummer(numbers.clone()).to_string();
        assert_eq!(ZugNummer::from_str(&written).unwrap(), ZugNummer(numbers));
    }
}

#[test]
fn test_increment_undone() {
    let nummer = ZugNummer::new(vec![3, 100, 1000]);
    let raised = nummer.to_new_incremented(250).unwrap();
    assert_eq!(raised, ZugNummer::new(vec![253, 350, 1250]));
    assert_eq!(raised.to_new_incremented(-250).unwrap(), nummer);
}

#[test]
fn test_increment_in_place() {
    let mut nummer = ZugNummer::new(vec![5, 7]);
    nummer.increment(2).unwrap();
    assert_eq!(nummer, ZugNummer::new(vec![7, 9]));
    let mut nummer = ZugNummer::new(vec![5, 1, 7]);
    assert!(nummer.increment(-3).is_err());
    assert_eq!(nummer.0[0], 2);
}
