use luma_cal::event::Event;
use luma_cal::store::EventStore;

fn sample(summary: &str, start: i64, end: i64) -> Event {
    Event::new(summary.to_string(), None, None, start, end, None)
}

#[test]
fn save_event_inserts_new_row() {
    let mut store = EventStore::new();
    let event = sample("One", 100, 200);
    store.save_event(&event).unwrap();
    assert_eq!(store.get_event_count(0), 1);
}

#[test]
fn upsert_keeps_existing_api_id() {
    // An event that already has an external reference keeps it across
    // re-ingestion, whether the new row carries none or a different one.
    let mut store = EventStore::new();
    let mut enriched = sample("One", 100, 200);
    enriched.api_id = Some("X".to_string());
    store.save_event(&enriched).unwrap();

    let bare = sample("One", 100, 200);
    assert_eq!(bare.event_uid, enriched.event_uid);
    store.save_event(&bare).unwrap();
    let rows = store.get_all_events(0);
    assert_eq!(rows.len(), 1);
    assert_eq!(rows[0].api_id, Some("X".to_string()));

    let mut other = sample("One", 100, 200);
    other.api_id = Some("Y".to_string());
    store.save_event(&other).unwrap();
    let rows = store.get_all_events(0);
    assert_eq!(rows[0].api_id, Some("X".to_string()));
}

#[test]
fn upsert_fills_absent_api_id() {
    let mut store = EventStore::new();
    store.save_event(&sample("One", 100, 200)).unwrap();
    let mut enriched = sample("One", 100, 200);
    enriched.api_id = Some("Z".to_string());
    store.save_event(&enriched).unwrap();
    let rows = store.get_all_events(0);
    assert_eq!(rows.len(), 1);
    assert_eq!(rows[0].api_id, Some("Z".to_string()));
}

#[test]
fn upsert_never_duplicates_a_key() {
    let mut store = EventStore::new();
    let event = sample("One", 100, 200);
    store.save_event(&event).unwrap();
    store.save_event(&event).unwrap();
    store.save_event(&event).unwrap();
    assert_eq!(store.get_event_count(0), 1);
}

#[test]
fn save_events_reports_applied_count() {
    let mut store = EventStore::new();
    let batch = vec![sample("A", 10, 20), sample("B", 30, 40)];
    assert_eq!(store.save_events(&batch), 2);
    // Re-applying the same batch counts applied rows, not new rows.
    assert_eq!(store.save_events(&batch), 2);
    assert_eq!(store.get_event_count(0), 2);
}

#[test]
fn read_path_applies_retention_and_orders_by_start() {
    let now: i64 = 1_000_000;
    let window: i64 = luma_cal::time::RETENTION_WINDOW_SECS;
    let mut store = EventStore::new();
    store.save_event(&sample("Stale", now - window - 100, now - window - 1)).unwrap();
    store.save_event(&sample("Later", now + 500, now + 600)).unwrap();
    store.save_event(&sample("Sooner", now + 100, now + 200)).unwrap();
    let rows = store.get_all_events(now);
    assert_eq!(rows.len(), 2);
    assert_eq!(rows[0].summary, "Sooner");
    assert_eq!(rows[1].summary, "Later");
    assert_eq!(store.get_event_count(now), 2);
}

#[test]
fn read_path_resanitizes_urls() {
    let mut store = EventStore::new();
    let event = Event::with_uid_and_api_id(
        "E".to_string(),
        None,
        None,
        100,
        200,
        Some("https://lu.ma/a\nb ".to_string()),
        "uid-raw".to_string(),
        None,
    );
    store.save_event(&event).unwrap();
    let rows = store.get_all_events(0);
    assert_eq!(rows[0].url, Some("https://lu.ma/ab".to_string()));
}

#[test]
fn range_read_restricts_by_start() {
    let now: i64 = 1_000_000;
    let mut store = EventStore::new();
    store.save_event(&sample("Early", now + 10, now + 20)).unwrap();
    store.save_event(&sample("Middle", now + 100, now + 110)).unwrap();
    store.save_event(&sample("Late", now + 1000, now + 1010)).unwrap();
    let rows = store.get_events_in_range(now + 50, now + 500, now);
    assert_eq!(rows.len(), 1);
    assert_eq!(rows[0].summary, "Middle");
}

#[test]
fn clear_reports_removed_rows() {
    let mut store = EventStore::new();
    store.save_event(&sample("A", 1, 2)).unwrap();
    store.save_event(&sample("B", 3, 4)).unwrap();
    assert_eq!(store.clear_all_events(), 2);
    assert_eq!(store.get_event_count(0), 0);
    assert_eq!(store.clear_all_events(), 0);
}
