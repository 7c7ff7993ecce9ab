use luma_cal::enrich::enrichment_decision;
use luma_cal::enrich::enrich_with;
use luma_cal::enrich::filter_upcoming;
use luma_cal::enrich::interpret_add_response;
use luma_cal::enrich::interpret_lookup_response;
use luma_cal::enrich::should_submit;
use luma_cal::enrich::BatchTally;
use luma_cal::enrich::LookupDecision;
use luma_cal::errors::CalendarError;
use luma_cal::errors::DatabaseError;
use luma_cal::event::Event;

#[test]
fn lookup_response_yields_id_at_nested_path() {
    let body = "{\"entity\":{\"event\":{\"api_id\":\"evt-abc123\"}}}";
    assert_eq!(interpret_lookup_response(true, body).unwrap(), "evt-abc123");
}

#[test]
fn lookup_response_of_other_shape_fails() {
    let bodies = [
        "{\"entity\":{\"event\":{}}}",
        "{\"entity\":{}}",
        "{}",
        "not json",
        "{\"entity\":{\"event\":{\"api_id\":42}}}",
    ];
    for body in bodies {
        let err = interpret_lookup_response(true, body).unwrap_err();
        match err {
            CalendarError::ParseError(msg) => assert_eq!(msg, "API ID not found in response"),
            other => panic!("unexpected error: {:?}", other),
        }
    }
}

#[test]
fn lookup_response_with_bad_status_fails() {
    let body = "{\"entity\":{\"event\":{\"api_id\":\"evt-abc123\"}}}";
    let err = interpret_lookup_response(false, body).unwrap_err();
    assert!(matches!(err, CalendarError::ParseError(_)));
}

#[test]
fn add_response_yields_calendar_event_id() {
    let body = "{\"calendar_event_id\":\"cal-77\"}";
    assert_eq!(interpret_add_response(true, body).unwrap(), Some("cal-77".to_string()));
    // A JSON response without the key still succeeds, with no identifier.
    assert_eq!(interpret_add_response(true, "{}").unwrap(), None);
}

#[test]
fn add_response_requires_json_and_success_status() {
    match interpret_add_response(true, "not json").unwrap_err() {
        CalendarError::ParseError(msg) => assert_eq!(msg, "Failed to parse API response"),
        other => panic!("unexpected error: {:?}", other),
    }
    let err = interpret_add_response(false, "{}").unwrap_err();
    assert!(matches!(err, CalendarError::ParseError(_)));
}

#[test]
fn decision_skips_already_enriched_events() {
    let mut event = Event::new("E".to_string(), None, None, 0, 1, None);
    event.api_id = Some("have".to_string());
    assert!(matches!(enrichment_decision(&event), LookupDecision::AlreadyEnriched));
}

#[test]
fn decision_reports_missing_slug() {
    let event = Event::new("E".to_string(), None, None, 0, 1, None);
    assert!(matches!(enrichment_decision(&event), LookupDecision::NoSlug));
}

#[test]
fn decision_yields_slug_for_lookup() {
    let event = Event::new(
        "E".to_string(),
        None,
        None,
        0,
        1,
        Some("https://lu.ma/e/slug9".to_string()),
    );
    match enrichment_decision(&event) {
        LookupDecision::Lookup(slug) => assert_eq!(slug, "slug9"),
        other => panic!("unexpected decision: {:?}", matches!(other, LookupDecision::NoSlug)),
    }
}

#[test]
fn enrich_with_never_overwrites() {
    let mut event = Event::new("E".to_string(), None, None, 0, 1, None);
    enrich_with(&mut event, "first".to_string());
    assert_eq!(event.api_id, Some("first".to_string()));
    enrich_with(&mut event, "second".to_string());
    assert_eq!(event.api_id, Some("first".to_string()));
}

#[test]
fn tally_counts_separately() {
    let mut tally = BatchTally::new();
    tally.record_success();
    tally.record_success();
    tally.record_failure();
    assert_eq!(tally.success, 2);
    assert_eq!(tally.failure, 1);
}

#[test]
fn submission_requires_reference_and_horizon() {
    let now: i64 = 1_000_000;
    let mut inside = Event::new("E".to_string(), None, None, now + 86400, now + 90000, None);
    // No reference yet: not submitted.
    assert!(!should_submit(&inside, now, 30));
    inside.api_id = Some("id".to_string());
    assert!(should_submit(&inside, now, 30));

    let mut past = Event::new("P".to_string(), None, None, now - 1, now, None);
    past.api_id = Some("id".to_string());
    assert!(!should_submit(&past, now, 30));

    let mut far = Event::new("F".to_string(), None, None, now + 31 * 86400, now + 32 * 86400, None);
    far.api_id = Some("id".to_string());
    assert!(!should_submit(&far, now, 30));

    // The horizon bound is strict on both sides.
    let mut edge = Event::new("G".to_string(), None, None, now, now + 1, None);
    edge.api_id = Some("id".to_string());
    assert!(!should_submit(&edge, now, 30));
}

#[test]
fn upcoming_filter_applies_window_and_limit() {
    let now: i64 = 1_000_000;
    let events = vec![
        Event::new("Past".to_string(), None, None, now - 10, now, None),
        Event::new("A".to_string(), None, None, now + 100, now + 200, None),
        Event::new("B".to_string(), None, None, now + 300, now + 400, None),
        Event::new("Far".to_string(), None, None, now + 8 * 86400, now + 9 * 86400, None),
    ];
    let within = filter_upcoming(&events, now, 7, 0);
    assert_eq!(within.len(), 2);
    assert_eq!(within[0].summary, "A");
    assert_eq!(within[1].summary, "B");
    let capped = filter_upcoming(&events, now, 7, 1);
    assert_eq!(capped.len(), 1);
    assert_eq!(capped[0].summary, "A");
}

#[test]
fn url_fragment_finds_first_matching_event() {
    let events = vec![
        Event::new("No URL".to_string(), None, None, 0, 1, None),
        Event::new(
            "Hit".to_string(),
            None,
            None,
            2,
            3,
            Some("https://lu.ma/e/slug9".to_string()),
        ),
        Event::new(
            "Also".to_string(),
            None,
            None,
            4,
            5,
            Some("https://lu.ma/e/slug99".to_string()),
        ),
    ];
    assert_eq!(luma_cal::enrich::find_by_url_fragment(&events, "slug9"), Some(1));
    assert_eq!(luma_cal::enrich::find_by_url_fragment(&events, "slug99"), Some(2));
    assert_eq!(luma_cal::enrich::find_by_url_fragment(&events, "missing"), None);
}

#[test]
fn error_messages_are_reachable() {
    let calendar_err = CalendarError::FetchError("no route".to_string());
    assert_eq!(calendar_err.message(), "no route");
    let db_err = DatabaseError::ConnectionError("pool dry".to_string());
    assert_eq!(db_err.message(), "pool dry");
}
