use luma_cal::errors::CalendarError;
use luma_cal::feed::parse_feed;
use luma_cal::feed::prepare_for_storage;
use luma_cal::store::EventStore;

// 2024-01-15T12:00:00 UTC
const NOW: i64 = 1705320000;

fn three_event_feed() -> String {
    // One event ended five days before NOW (stale), one is under way, one is
    // ten days out.
    [
        "BEGIN:VCALENDAR",
        "VERSION:2.0",
        "BEGIN:VEVENT",
        "SUMMARY:Stale Event",
        "DTSTART:20240110T110000Z",
        "DTEND:20240110T120000Z",
        "END:VEVENT",
        "BEGIN:VEVENT",
        "SUMMARY:Current Event",
        "DESCRIPTION:Join us at https://lu.ma/e/cur123 tomorrow",
        "LOCATION:Main Hall",
        "DTSTART:20240115T110000Z",
        "DTEND:20240115T130000Z",
        "END:VEVENT",
        "BEGIN:VEVENT",
        "SUMMARY:Future Event",
        "URL:https://lu.ma/fut456",
        "DTSTART:20240125T120000Z",
        "DTEND:20240125T130000Z",
        "END:VEVENT",
        "END:VCALENDAR",
        "",
    ]
    .join("\n")
}

#[test]
fn full_run_persists_exactly_the_live_events() {
    let feed = three_event_feed();
    let events = parse_feed(&feed, NOW).unwrap();
    assert_eq!(events.len(), 2);
    assert_eq!(events[0].summary, "Current Event");
    assert_eq!(events[1].summary, "Future Event");

    let mut store = EventStore::new();
    let prepared = prepare_for_storage(&events);
    assert_eq!(store.save_events(&prepared), 2);
    assert_eq!(store.get_event_count(NOW), 2);

    // A second identical run leaves the stored count unchanged.
    let events_again = parse_feed(&feed, NOW).unwrap();
    let prepared_again = prepare_for_storage(&events_again);
    store.save_events(&prepared_again);
    assert_eq!(store.get_event_count(NOW), 2);
}

#[test]
fn repeated_parsing_is_deterministic() {
    let feed = three_event_feed();
    let first = parse_feed(&feed, NOW).unwrap();
    let second = parse_feed(&feed, NOW).unwrap();
    assert_eq!(first.len(), second.len());
    for (a, b) in first.iter().zip(second.iter()) {
        assert_eq!(a.event_uid, b.event_uid);
    }
}

#[test]
fn parsed_events_are_sorted_by_start() {
    let feed = three_event_feed();
    let events = parse_feed(&feed, NOW).unwrap();
    for pair in events.windows(2) {
        assert!(pair[0].start <= pair[1].start);
    }
    assert_eq!(events[0].start, 1705316400);
    assert_eq!(events[0].end, 1705323600);
    assert_eq!(events[1].start, 1706184000);
}

#[test]
fn url_is_taken_from_property_or_description() {
    let feed = three_event_feed();
    let events = parse_feed(&feed, NOW).unwrap();
    assert_eq!(events[0].url, Some("https://lu.ma/e/cur123".to_string()));
    assert_eq!(events[1].url, Some("https://lu.ma/fut456".to_string()));
}

#[test]
fn url_is_truncated_at_address_marker() {
    let feed = [
        "BEGIN:VCALENDAR",
        "BEGIN:VEVENT",
        "SUMMARY:Marked",
        "URL:https://lu.ma/markedAddress: 123 Main St",
        "DTSTART:20240125T120000Z",
        "DTEND:20240125T130000Z",
        "END:VEVENT",
        "END:VCALENDAR",
        "",
    ]
    .join("\n");
    let events = parse_feed(&feed, NOW).unwrap();
    assert_eq!(events[0].url, Some("https://lu.ma/marked".to_string()));
}

#[test]
fn missing_summary_gets_placeholder() {
    let feed = [
        "BEGIN:VCALENDAR",
        "BEGIN:VEVENT",
        "DTSTART:20240125T120000Z",
        "DTEND:20240125T130000Z",
        "END:VEVENT",
        "END:VCALENDAR",
        "",
    ]
    .join("\n");
    let events = parse_feed(&feed, NOW).unwrap();
    assert_eq!(events[0].summary, "Untitled Event");
}

#[test]
fn missing_start_fails_the_feed() {
    let feed = [
        "BEGIN:VCALENDAR",
        "BEGIN:VEVENT",
        "SUMMARY:Broken",
        "DTEND:20240125T130000Z",
        "END:VEVENT",
        "END:VCALENDAR",
        "",
    ]
    .join("\n");
    let err = parse_feed(&feed, NOW).unwrap_err();
    match err {
        CalendarError::ParseError(msg) => assert_eq!(msg, "Event missing DTSTART property"),
        other => panic!("unexpected error: {:?}", other),
    }
}

#[test]
fn missing_end_fails_the_feed() {
    let feed = [
        "BEGIN:VCALENDAR",
        "BEGIN:VEVENT",
        "SUMMARY:Broken",
        "DTSTART:20240125T120000Z",
        "END:VEVENT",
        "END:VCALENDAR",
        "",
    ]
    .join("\n");
    let err = parse_feed(&feed, NOW).unwrap_err();
    match err {
        CalendarError::ParseError(msg) => assert_eq!(msg, "Event missing DTEND property"),
        other => panic!("unexpected error: {:?}", other),
    }
}

#[test]
fn malformed_date_fails_the_feed() {
    let feed = [
        "BEGIN:VCALENDAR",
        "BEGIN:VEVENT",
        "SUMMARY:Broken",
        "DTSTART:2024012",
        "DTEND:20240125T130000Z",
        "END:VEVENT",
        "END:VCALENDAR",
        "",
    ]
    .join("\n");
    let err = parse_feed(&feed, NOW).unwrap_err();
    assert!(matches!(err, CalendarError::TimeConversionError(_)));
}

#[test]
fn enrichment_survives_reingestion() {
    let feed = three_event_feed();
    let mut store = EventStore::new();
    let events = prepare_for_storage(&parse_feed(&feed, NOW).unwrap());
    store.save_events(&events);

    // Enrich one stored event and persist it.
    let mut rows = store.get_all_events(NOW);
    luma_cal::enrich::enrich_with(&mut rows[0], "api-77".to_string());
    store.save_event(&rows[0]).unwrap();

    // Re-ingesting the unchanged feed must not clear the reference.
    let events_again = prepare_for_storage(&parse_feed(&feed, NOW).unwrap());
    store.save_events(&events_again);
    let rows_after = store.get_all_events(NOW);
    assert_eq!(rows_after[0].api_id, Some("api-77".to_string()));
    assert_eq!(rows_after[1].api_id, None);
}
