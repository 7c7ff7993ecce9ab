use luma_cal::event::Event;

#[test]
fn clean_string_removes_breaks_and_trims() {
    assert_eq!(Event::clean_string("  hello world  "), "hello world");
    assert_eq!(Event::clean_string("a\nb\rc\td"), "abcd");
    assert_eq!(Event::clean_string("\n\thttps://lu.ma/x \n"), "https://lu.ma/x");
}

#[test]
fn clean_string_removes_written_out_escapes() {
    // A literal backslash followed by the letter n, r or t is dropped as a pair.
    assert_eq!(Event::clean_string("a\\nb"), "ab");
    assert_eq!(Event::clean_string("a\\rb\\tc"), "abc");
}

#[test]
fn clean_string_trims_all_unicode_whitespace() {
    // Vertical tab, form feed, no-break space and an em space all count as
    // surrounding whitespace.
    assert_eq!(Event::clean_string("a\u{000B}"), "a");
    assert_eq!(Event::clean_string("\u{000C}b"), "b");
    assert_eq!(Event::clean_string("\u{00A0}c\u{2003}"), "c");
}

#[test]
fn clean_string_is_identity_on_clean_text() {
    let clean = "https://lu.ma/e/abc123";
    assert_eq!(Event::clean_string(clean), clean);
}

#[test]
fn clean_string_twice_equals_once() {
    let inputs = ["  spaced out  ", "line\nbreaks\r\there", "plain", ""];
    for input in inputs {
        let once = Event::clean_string(input);
        let twice = Event::clean_string(&once);
        assert_eq!(twice, once);
    }
}

#[test]
fn extract_slug_takes_last_path_segment() {
    let event = Event::new(
        "Meetup".to_string(),
        None,
        None,
        0,
        3600,
        Some("https://lu.ma/e/abc123".to_string()),
    );
    assert_eq!(event.extract_slug(), Some("abc123".to_string()));
}

#[test]
fn extract_slug_without_domain_marker_yields_none() {
    let event = Event::new(
        "Meetup".to_string(),
        None,
        None,
        0,
        3600,
        Some("https://example.com/e/abc123".to_string()),
    );
    assert_eq!(event.extract_slug(), None);
}

#[test]
fn extract_slug_without_url_yields_none() {
    let event = Event::new("Meetup".to_string(), None, None, 0, 3600, None);
    assert_eq!(event.extract_slug(), None);
}

#[test]
fn extract_slug_cleans_url_first() {
    let event = Event::new(
        "Meetup".to_string(),
        None,
        None,
        0,
        3600,
        Some("  https://lu.ma/xyz789\n".to_string()),
    );
    assert_eq!(event.extract_slug(), Some("xyz789".to_string()));
}

#[test]
fn extract_slug_falls_back_to_marker_segment() {
    // The URL ends in a slash, so the last path segment is empty and the
    // segment after the final /e/ marker is used instead.
    let event = Event::new(
        "Meetup".to_string(),
        None,
        None,
        0,
        3600,
        Some("https://lu.ma/e/abc/".to_string()),
    );
    assert_eq!(event.extract_slug(), Some("abc/".to_string()));
}
