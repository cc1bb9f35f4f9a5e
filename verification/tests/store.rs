use std::path::PathBuf;
use toon_settings::record::{find_record, Record, ResolutionEvent, ResolutionStatus};
use toon_settings::store::StateStore;

fn record(path: &str, identifier: &str, resolution: ResolutionStatus) -> Record {
    Record {
        path: PathBuf::from(path),
        filename: format!("core_char_{}.dat", identifier),
        identifier: identifier.to_string(),
        resolution,
    }
}

fn pending(path: &str, identifier: &str) -> Record {
    record(path, identifier, ResolutionStatus::Pending)
}

fn event(identifier: &str, status: ResolutionStatus) -> ResolutionEvent {
    ResolutionEvent { identifier: identifier.to_string(), status }
}

fn resolved(name: &str) -> ResolutionStatus {
    ResolutionStatus::Resolved(name.to_string())
}

fn failed(reason: &str) -> ResolutionStatus {
    ResolutionStatus::Failed(reason.to_string())
}

#[test]
fn a_new_store_is_empty() {
    let store = StateStore::new();
    assert!(store.records().is_empty());
    assert_eq!(store.status_of("1"), None);
    assert!(!store.has_pending());
}

#[test]
fn seed_sets_every_status_to_pending() {
    let mut store = StateStore::new();
    store.seed(vec![
        record("/a/1", "1", resolved("Old name")),
        record("/a/2", "2", failed("old failure")),
        pending("/b/1", "1"),
    ]);
    assert_eq!(
        store.records(),
        &vec![pending("/a/1", "1"), pending("/a/2", "2"), pending("/b/1", "1")]
    );
    assert_eq!(store.status_of("1"), Some(ResolutionStatus::Pending));
    assert_eq!(store.status_of("2"), Some(ResolutionStatus::Pending));
    assert_eq!(store.status_of("3"), None);
    assert!(store.has_pending());
}

#[test]
fn seeding_twice_resets_whatever_the_events_did() {
    let records = || vec![pending("/a/1", "1"), pending("/a/2", "2"), pending("/b/1", "1")];
    let mut store = StateStore::new();
    store.seed(records());
    let first: Vec<Record> = store.records().clone();
    store.apply_event(&event("1", resolved("One")));
    store.apply_event(&event("2", failed("Character not found")));
    store.apply_event(&event("9", resolved("Stale")));
    assert!(!store.has_pending());
    store.seed(records());
    assert_eq!(store.records(), &first);
    assert_eq!(store.records(), &records());
    assert_eq!(store.status_of("1"), Some(ResolutionStatus::Pending));
    assert_eq!(store.status_of("2"), Some(ResolutionStatus::Pending));
    assert_eq!(store.status_of("9"), None);
    assert!(store.has_pending());
}

#[test]
fn an_event_reaches_every_record_of_its_identifier() {
    let mut store = StateStore::new();
    store.seed(vec![pending("/a/1", "1"), pending("/a/2", "2"), pending("/b/1", "1")]);
    store.apply_event(&event("1", resolved("One")));
    assert_eq!(
        store.records(),
        &vec![
            record("/a/1", "1", resolved("One")),
            pending("/a/2", "2"),
            record("/b/1", "1", resolved("One")),
        ]
    );
    assert_eq!(store.status_of("1"), Some(resolved("One")));
    assert_eq!(store.status_of("2"), Some(ResolutionStatus::Pending));
    assert!(store.has_pending());
}

#[test]
fn the_last_event_for_an_identifier_wins() {
    let mut store = StateStore::new();
    store.seed(vec![pending("/a/1", "1")]);
    store.apply_event(&event("1", failed("Request failed: timeout")));
    store.apply_event(&event("1", resolved("One")));
    assert_eq!(store.records(), &vec![record("/a/1", "1", resolved("One"))]);
    assert_eq!(store.status_of("1"), Some(resolved("One")));
    store.apply_event(&event("1", ResolutionStatus::Pending));
    assert_eq!(store.records(), &vec![pending("/a/1", "1")]);
    assert!(store.has_pending());
}

#[test]
fn an_event_for_an_unknown_identifier_is_kept_and_changes_no_record() {
    let mut store = StateStore::new();
    store.seed(vec![pending("/a/1", "1")]);
    store.apply_event(&event("77", resolved("From an earlier scan")));
    assert_eq!(store.records(), &vec![pending("/a/1", "1")]);
    assert_eq!(store.status_of("77"), Some(resolved("From an earlier scan")));
    assert_eq!(store.status_of("1"), Some(ResolutionStatus::Pending));
}

#[test]
fn clear_forgets_records_and_identifiers() {
    let mut store = StateStore::new();
    store.seed(vec![pending("/a/1", "1")]);
    store.clear();
    assert!(store.records().is_empty());
    assert_eq!(store.status_of("1"), None);
    assert!(!store.has_pending());
}

#[test]
fn find_record_gives_the_first_place_of_an_identifier() {
    let records = vec![pending("/a/1", "1"), pending("/a/2", "2"), pending("/b/1", "1")];
    assert_eq!(find_record(&records, "1"), Some(0));
    assert_eq!(find_record(&records, "2"), Some(1));
    assert_eq!(find_record(&records, "12"), None);
    assert_eq!(find_record(&vec![], "1"), None);
}

#[test]
fn clones_are_equal_to_their_originals() {
    let r = record("/a/1", "1", resolved("One"));
    assert_eq!(r.clone(), r);
    let e = event("1", failed("x"));
    assert_eq!(e.clone(), e);
    assert_eq!(ResolutionStatus::Pending.clone(), ResolutionStatus::Pending);
}
