use gtfs_board::dates::Date;
use gtfs_board::parse::{parse_date, parse_duration};

#[test]
fn parses_a_calendar_date() {
    let d = parse_date("20240610").unwrap();
    assert_eq!(d, Date::from_ymd(2024, 6, 10).unwrap());
}

#[test]
fn rejects_malformed_dates() {
    assert!(parse_date("2024061").is_none());
    assert!(parse_date("202406105").is_none());
    assert!(parse_date("2024O610").is_none());
    assert!(parse_date("20241301").is_none());
    assert!(parse_date("20240230").is_none());
    assert!(parse_date("00000101").is_none());
    assert!(parse_date("").is_none());
}

#[test]
fn parses_two_digit_hours() {
    assert_eq!(parse_duration("07:00:00"), Some(25200));
    assert_eq!(parse_duration("09:15:00"), Some(33300));
    assert_eq!(parse_duration("00:00:00"), Some(0));
}

#[test]
fn parses_offsets_past_midnight() {
    assert_eq!(parse_duration("25:30:00"), Some(91800));
    assert_eq!(parse_duration("99:59:59"), Some(359999));
}

#[test]
fn parses_single_digit_hours() {
    assert_eq!(parse_duration("9:15:00"), Some(33300));
    assert_eq!(parse_duration("0:00:01"), Some(1));
}

#[test]
fn rejects_malformed_durations() {
    assert!(parse_duration("07:00").is_none());
    assert!(parse_duration("aa:bb:cc").is_none());
    assert!(parse_duration("123:00:00").is_none());
    assert!(parse_duration("07:0:00").is_none());
    assert!(parse_duration("07-00-00").is_none());
    assert!(parse_duration("").is_none());
}
