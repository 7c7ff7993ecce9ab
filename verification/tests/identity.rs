use luma_cal::event::Event;

#[test]
fn same_content_yields_same_uid() {
    let a = Event::new(
        "Team Meetup".to_string(),
        Some("desc".to_string()),
        Some("loc".to_string()),
        1705320000,
        1705323600,
        None,
    );
    let b = Event::new(
        "Team Meetup".to_string(),
        Some("desc".to_string()),
        Some("loc".to_string()),
        1705320000,
        1705323600,
        Some("https://lu.ma/x".to_string()),
    );
    // The URL takes no part in the identity.
    assert_eq!(a.event_uid, b.event_uid);
}

#[test]
fn different_optional_field_changes_uid() {
    let a = Event::new("Team Meetup".to_string(), None, None, 1705320000, 1705323600, None);
    let b = Event::new(
        "Team Meetup".to_string(),
        Some("desc".to_string()),
        None,
        1705320000,
        1705323600,
        None,
    );
    assert_ne!(a.event_uid, b.event_uid);
}

#[test]
fn uid_has_summary_timestamp_hash_shape() {
    let event = Event::new("Team Meetup".to_string(), None, None, 1705320000, 1705323600, None);
    assert!(event.event_uid.starts_with("Team_Meetup-1705320000-"));
    let hash_part = &event.event_uid["Team_Meetup-1705320000-".len()..];
    assert!(!hash_part.is_empty());
    assert!(hash_part.chars().all(|c| c.is_ascii_hexdigit() && !c.is_ascii_uppercase()));
}

#[test]
fn negative_start_renders_with_sign() {
    let event = Event::new("Old".to_string(), None, None, -60, 0, None);
    assert!(event.event_uid.starts_with("Old--60-"));
}

#[test]
fn new_event_has_no_api_id() {
    let event = Event::new("E".to_string(), None, None, 0, 1, None);
    assert_eq!(event.api_id, None);
}

#[test]
fn with_uid_and_api_id_keeps_stored_fields() {
    let event = Event::with_uid_and_api_id(
        "Stored".to_string(),
        None,
        Some("Hall".to_string()),
        10,
        20,
        Some("https://lu.ma/s".to_string()),
        "stored-uid".to_string(),
        Some("api-9".to_string()),
    );
    assert_eq!(event.event_uid, "stored-uid");
    assert_eq!(event.api_id, Some("api-9".to_string()));
    assert_eq!(event.location, Some("Hall".to_string()));
}

#[test]
fn default_url_derives_from_uid() {
    let event = Event::with_uid_and_api_id(
        "S".to_string(),
        None,
        None,
        0,
        1,
        None,
        "uid-1".to_string(),
        None,
    );
    assert_eq!(event.default_url(), "https://lu.ma/e/uid-1");
}

#[test]
fn with_url_replaces_only_the_url() {
    let event = Event::new("E".to_string(), None, None, 0, 1, None);
    let uid = event.event_uid.clone();
    let event = event.with_url(Some("https://lu.ma/z".to_string()));
    assert_eq!(event.url, Some("https://lu.ma/z".to_string()));
    assert_eq!(event.event_uid, uid);
}

#[test]
fn storage_url_cleans_or_defaults() {
    let with_url = Event::new(
        "E".to_string(),
        None,
        None,
        0,
        1,
        Some(" https://lu.ma/a\n".to_string()),
    );
    assert_eq!(with_url.with_storage_url().url, Some("https://lu.ma/a".to_string()));
    let without_url = Event::new("E".to_string(), None, None, 0, 1, None);
    let expected = format!("https://lu.ma/e/{}", without_url.event_uid);
    assert_eq!(without_url.with_storage_url().url, Some(expected));
}

#[test]
fn equality_is_by_summary_start_end() {
    let a = Event::new("E".to_string(), Some("x".to_string()), None, 0, 1, None);
    let b = Event::new("E".to_string(), Some("y".to_string()), None, 0, 1, None);
    assert!(a == b);
    let c = Event::new("E".to_string(), Some("x".to_string()), None, 0, 2, None);
    assert!(a != c);
}

#[test]
fn ordering_is_by_start_only() {
    let a = Event::new("B".to_string(), None, None, 0, 1, None);
    let b = Event::new("A".to_string(), None, None, 5, 6, None);
    assert!(a < b);
    assert!(b > a);
}
