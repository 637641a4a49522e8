use zusi_fahrplan_generator::serde_helpers::{format_duration_as_time_string, parse_duration_from_time_string, time_string_fits};

fn hms(h: i64, m: i64, s: i64) -> i64 {
    h * 3600 + m * 60 + s
}

#[test]
fn test_parse_duration_from_time_string() {
    assert_eq!(parse_duration_from_time_string("03:42:07").unwrap(), hms(3, 42, 7));
    assert_eq!(parse_duration_from_time_string("3:2:4").unwrap(), hms(3, 2, 4));
    assert_eq!(parse_duration_from_time_string("33:92:76").unwrap(), hms(33, 92, 76));
    assert_eq!(parse_duration_from_time_string("3A:9B:7C"), Err("Failed to parse hours: invalid digit found in string".into()));
    assert_eq!(parse_duration_from_time_string("3:9B:7C"), Err("Failed to parse minutes: invalid digit found in string".into()));
    assert_eq!(parse_duration_from_time_string("3:9:7C"), Err("Failed to parse seconds: invalid digit found in string".into()));
}

#[test]
fn test_format_duration_as_time_string() {
    assert_eq!(format_duration_as_time_string(&hms(3, 42, 7)), String::from("03:42:07"));
    assert_eq!(format_duration_as_time_string(&hms(33, 92, 76)), String::from("34:33:16"));
}

#[test]
fn test_parse_duration_format_errors() {
    assert_eq!(parse_duration_from_time_string("03:42"), Err("Invalid time format, expected HH:MM:SS".into()));
    assert_eq!(parse_duration_from_time_string(""), Err("Invalid time format, expected HH:MM:SS".into()));
    assert_eq!(parse_duration_from_time_string("1:2:3:4"), Err("Invalid time format, expected HH:MM:SS".into()));
    assert_eq!(parse_duration_from_time_string(":1:2"), Err("Failed to parse hours: cannot parse integer from empty string".into()));
    assert_eq!(
        parse_duration_from_time_string("1:99999999999999999999:2"),
        Err("Failed to parse minutes: number too large to fit in target type".into()),
    );
    assert_eq!(parse_duration_from_time_string("-1:+2:-3").unwrap(), -3600 + 120 - 3);
}

#[test]
fn test_format_short_and_negative_durations() {
    assert_eq!(format_duration_as_time_string(&0), String::from("00:00:00"));
    assert_eq!(format_duration_as_time_string(&hms(100, 0, 9)), String::from("100:00:09"));
    assert_eq!(format_duration_as_time_string(&-61), String::from("00:-1:-1"));
    assert_eq!(format_duration_as_time_string(&-hms(12, 34, 56)), String::from("-12:-34:-56"));
}

#[test]
fn test_duration_round_trip() {
    for d in [0, 59, 3600, hms(3, 42, 7), -61, -hms(12, 34, 56), i64::MAX, i64::MIN] {
        assert_eq!(parse_duration_from_time_string(&format_duration_as_time_string(&d)), Ok(d));
    }
}

#[test]
fn test_time_string_fits() {
    assert!(time_string_fits("03:42:07"));
    assert!(time_string_fits("invalid"));
    assert!(time_string_fits("x:1:2"));
    assert!(!time_string_fits("9223372036854775807:0:0"));
    assert!(!time_string_fits("2562047788015215:30:8"));
    assert!(time_string_fits("2562047788015215:30:7"));
    assert!(time_string_fits("-2562047788015215:-30:-8"));
}
