use luma_cal::errors::CalendarError;
use luma_cal::event::Event;
use luma_cal::time::is_retained;
use luma_cal::time::parse_ical_datetime;
use luma_cal::time::RETENTION_WINDOW_SECS;

#[test]
fn compact_datetime_parses_to_utc_instant() {
    // 2024-01-15T12:00:00 UTC
    assert_eq!(parse_ical_datetime("20240115T120000Z").unwrap(), 1705320000);
}

#[test]
fn date_only_parses_to_midnight() {
    assert_eq!(parse_ical_datetime("20240115").unwrap(), 1705276800);
}

#[test]
fn markers_are_stripped_before_parsing() {
    assert_eq!(parse_ical_datetime("20240115120000").unwrap(), 1705320000);
    assert_eq!(parse_ical_datetime("2024-01-15".replace('-', "").as_str()).unwrap(), 1705276800);
}

#[test]
fn ten_character_literal_is_a_conversion_error() {
    let err = parse_ical_datetime("2024011512").unwrap_err();
    match err {
        CalendarError::TimeConversionError(msg) => {
            assert_eq!(msg, "Invalid datetime format: 2024011512");
        }
        other => panic!("unexpected error: {:?}", other),
    }
}

#[test]
fn non_numeric_component_names_the_field() {
    match parse_ical_datetime("2O240115T120000Z").unwrap_err() {
        CalendarError::TimeConversionError(msg) => assert_eq!(msg, "Invalid year"),
        other => panic!("unexpected error: {:?}", other),
    }
    match parse_ical_datetime("2024O115T120000Z").unwrap_err() {
        CalendarError::TimeConversionError(msg) => assert_eq!(msg, "Invalid month"),
        other => panic!("unexpected error: {:?}", other),
    }
    match parse_ical_datetime("20240115T1200x0Z").unwrap_err() {
        CalendarError::TimeConversionError(msg) => assert_eq!(msg, "Invalid second"),
        other => panic!("unexpected error: {:?}", other),
    }
}

#[test]
fn impossible_date_is_a_conversion_error() {
    match parse_ical_datetime("20241315T120000Z").unwrap_err() {
        CalendarError::TimeConversionError(msg) => {
            assert_eq!(msg, "Invalid date/time combination");
        }
        other => panic!("unexpected error: {:?}", other),
    }
    let err = parse_ical_datetime("20240230T120000Z").unwrap_err();
    assert!(matches!(err, CalendarError::TimeConversionError(_)));
}

#[test]
fn leap_day_parses() {
    // 2024-02-29T00:00:00 UTC
    assert_eq!(parse_ical_datetime("20240229").unwrap(), 1709164800);
}

#[test]
fn retention_boundary_is_inclusive() {
    let now: i64 = 1705320000;
    assert!(is_retained(now - RETENTION_WINDOW_SECS, now));
    assert!(!is_retained(now - RETENTION_WINDOW_SECS - 1, now));
}

#[test]
fn duration_counts_whole_minutes() {
    let event = Event::new("E".to_string(), None, None, 1705320000, 1705323600, None);
    assert_eq!(event.duration_minutes(), 60);
    let short = Event::new("E".to_string(), None, None, 0, 119, None);
    assert_eq!(short.duration_minutes(), 1);
    let backwards = Event::new("E".to_string(), None, None, 120, 0, None);
    assert_eq!(backwards.duration_minutes(), -2);
}
