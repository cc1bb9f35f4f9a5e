use std::path::PathBuf;
use toon_settings::controller::{
    get_eve_settings_path, EveSettingsApp, FALLBACK_SETTINGS_PATH, SETTINGS_SUBPATH,
};
use toon_settings::copy::{CopyError, CopyOutcome, CopyStep, CopyTarget};
use toon_settings::lookup::{BodyParse, LookupReply};
use toon_settings::record::{Record, ResolutionEvent, ResolutionStatus};
use toon_settings::scanner::{FileEntry, FolderEntry, ProfileEntry, RootListing};

fn listing(profiles: &[(&str, &[&str])]) -> RootListing {
    RootListing {
        exists: true,
        entries: profiles
            .iter()
            .map(|(profile, names)| ProfileEntry {
                is_dir: true,
                folders: vec![FolderEntry {
                    name: "settings_Default".to_string(),
                    is_dir: true,
                    files: names
                        .iter()
                        .map(|n| FileEntry {
                            path: PathBuf::from(format!("/eve/{}/settings_Default/{}", profile, n)),
                            filename: n.to_string(),
                        })
                        .collect(),
                }],
            })
            .collect(),
    }
}

fn record(profile: &str, identifier: &str, resolution: ResolutionStatus) -> Record {
    Record {
        path: PathBuf::from(format!(
            "/eve/{}/settings_Default/core_char_{}.dat",
            profile, identifier
        )),
        filename: format!("core_char_{}.dat", identifier),
        identifier: identifier.to_string(),
        resolution,
    }
}

fn scanned() -> EveSettingsApp {
    let mut app = EveSettingsApp::new("/eve".to_string());
    let root = listing(&[
        ("a", &["core_char_2.dat", "core_char_10.dat"]),
        ("b", &["core_char_2.dat", "core_prefs.dat"]),
    ]);
    assert!(app.scan_files(&root).is_some());
    app
}

#[test]
fn default_path_is_the_found_one_or_the_fallback() {
    assert_eq!(
        get_eve_settings_path(Some("/home/me/.steam/steam/x".to_string())),
        "/home/me/.steam/steam/x"
    );
    assert_eq!(
        get_eve_settings_path(None),
        "~/.steam/steam/steamapps/compatdata/8500/pfx/drive_c/users/steamuser/AppData/Local/CCP/EVE"
    );
    assert_eq!(format!("~/{}", SETTINGS_SUBPATH), FALLBACK_SETTINGS_PATH);
}

#[test]
fn a_new_app_has_nothing() {
    let app = EveSettingsApp::new("/eve".to_string());
    assert!(app.store.records().is_empty());
    assert!(app.needs_scan());
    assert!(!app.can_copy());
    assert!(!app.has_loading());
    assert_eq!(app.eve_path, "/eve");
    assert_eq!(app.error_message, None);
    assert!(!app.show_popup);
    assert!(!app.popup_success);
    assert_eq!(app.popup_message, "");
}

#[test]
fn scan_files_seeds_the_store_and_gives_the_worker() {
    let mut app = EveSettingsApp::new("/eve".to_string());
    app.error_message = Some("earlier".to_string());
    let root = listing(&[
        ("a", &["core_char_2.dat", "core_char_10.dat"]),
        ("b", &["core_char_2.dat", "core_prefs.dat"]),
    ]);
    let mut worker = app.scan_files(&root).unwrap();
    assert_eq!(
        app.store.records(),
        &vec![
            record("a", "10", ResolutionStatus::Pending),
            record("a", "2", ResolutionStatus::Pending),
            record("b", "2", ResolutionStatus::Pending),
        ]
    );
    assert_eq!(app.error_message, None);
    assert!(!app.needs_scan());
    assert!(app.has_loading());
    assert_eq!(app.store.status_of("10"), Some(ResolutionStatus::Pending));
    assert_eq!(app.store.status_of("2"), Some(ResolutionStatus::Pending));
    let mut asked: Vec<String> = Vec::new();
    while let Some(request) = worker.next_request() {
        asked.push(request.identifier);
        worker.complete(&LookupReply::RequestFailed { detail: "offline".to_string() });
    }
    assert_eq!(asked, vec!["10", "2"]);
}

#[test]
fn scan_of_a_missing_path_shows_the_error_and_leaves_no_records() {
    let mut app = EveSettingsApp::new("/no/such/dir".to_string());
    let root = RootListing { exists: false, entries: vec![] };
    assert!(app.scan_files(&root).is_none());
    assert_eq!(app.error_message, Some("Path does not exist: /no/such/dir".to_string()));
    assert!(app.store.records().is_empty());
    assert!(!app.needs_scan());
    assert!(!app.has_loading());
}

#[test]
fn a_rescan_starts_from_nothing() {
    let mut app = scanned();
    app.toggle_copy_from("10", true);
    app.toggle_copy_to("2", true);
    app.process_api_messages(&vec![ResolutionEvent {
        identifier: "10".to_string(),
        status: ResolutionStatus::Resolved("Ten".to_string()),
    }]);
    app.begin_rescan();
    assert!(app.store.records().is_empty());
    assert_eq!(app.store.status_of("10"), None);
    assert_eq!(app.selection.source(), None);
    assert!(app.selection.destinations().is_empty());
    assert!(app.needs_scan());
    let root = listing(&[("a", &["core_char_10.dat"])]);
    assert!(app.scan_files(&root).is_some());
    assert_eq!(app.store.records(), &vec![record("a", "10", ResolutionStatus::Pending)]);
}

#[test]
fn a_changed_path_has_to_be_scanned() {
    let mut app = scanned();
    assert!(!app.needs_scan());
    app.set_path("/elsewhere".to_string());
    assert!(app.needs_scan());
    assert_eq!(app.eve_path, "/elsewhere");
    assert_eq!(app.store.records().len(), 3);
}

#[test]
fn process_api_messages_applies_every_event_in_order() {
    let mut app = scanned();
    app.process_api_messages(&vec![]);
    assert!(app.has_loading());
    app.process_api_messages(&vec![
        ResolutionEvent {
            identifier: "2".to_string(),
            status: ResolutionStatus::Failed("Request failed: timeout".to_string()),
        },
        ResolutionEvent {
            identifier: "10".to_string(),
            status: ResolutionStatus::Failed("Character not found".to_string()),
        },
        ResolutionEvent {
            identifier: "2".to_string(),
            status: ResolutionStatus::Resolved("Two".to_string()),
        },
    ]);
    assert_eq!(
        app.store.records(),
        &vec![
            record("a", "10", ResolutionStatus::Failed("Character not found".to_string())),
            record("a", "2", ResolutionStatus::Resolved("Two".to_string())),
            record("b", "2", ResolutionStatus::Resolved("Two".to_string())),
        ]
    );
    assert!(!app.has_loading());
}

#[test]
fn the_worker_of_a_scan_feeds_the_store() {
    let mut app = EveSettingsApp::new("/eve".to_string());
    let root =
        listing(&[("a", &["core_char_2.dat", "core_char_1.dat"]), ("b", &["core_char_2.dat"])]);
    let mut worker = app.scan_files(&root).unwrap();
    let mut events = Vec::new();
    while let Some(request) = worker.next_request() {
        let reply = LookupReply::Answered {
            status: 200,
            status_line: "200 OK".to_string(),
            body: BodyParse::Name(format!("Pilot {}", request.identifier)),
        };
        events.push(worker.complete(&reply).unwrap());
    }
    assert_eq!(events.len(), 2);
    app.process_api_messages(&events);
    assert_eq!(
        app.store.records(),
        &vec![
            record("a", "1", ResolutionStatus::Resolved("Pilot 1".to_string())),
            record("a", "2", ResolutionStatus::Resolved("Pilot 2".to_string())),
            record("b", "2", ResolutionStatus::Resolved("Pilot 2".to_string())),
        ]
    );
}

#[test]
fn can_copy_needs_a_source_and_a_destination() {
    let mut app = scanned();
    assert!(!app.can_copy());
    app.toggle_copy_to("2", true);
    assert!(!app.can_copy());
    app.toggle_copy_from("10", true);
    assert!(app.can_copy());
    app.toggle_copy_to("2", false);
    assert!(!app.can_copy());
}

#[test]
fn ticking_the_source_box_of_a_destination_moves_it() {
    let mut app = scanned();
    app.toggle_copy_to("2", true);
    app.toggle_copy_to("10", true);
    app.toggle_copy_from("2", true);
    assert_eq!(app.selection.source(), Some(&"2".to_string()));
    assert_eq!(app.selection.destinations(), &vec!["10".to_string()]);
    app.toggle_copy_to("2", true);
    assert_eq!(app.selection.destinations(), &vec!["10".to_string()]);
}

#[test]
fn clearing_the_source_box_leaves_no_source() {
    let mut app = scanned();
    app.toggle_copy_from("2", true);
    app.toggle_copy_from("10", false);
    assert_eq!(app.selection.source(), Some(&"2".to_string()));
    app.toggle_copy_from("2", false);
    assert_eq!(app.selection.source(), None);
}

#[test]
fn copy_settings_without_a_source_shows_the_reason() {
    let mut app = scanned();
    app.toggle_copy_to("2", true);
    assert!(app.copy_settings().is_none());
    assert!(app.show_popup);
    assert!(!app.popup_success);
    assert_eq!(app.popup_message, "No source selected");
    assert_eq!(app.selection.destinations(), &vec!["2".to_string()]);
}

#[test]
fn copy_settings_without_destinations_shows_the_reason() {
    let mut app = scanned();
    app.toggle_copy_from("2", true);
    assert!(app.copy_settings().is_none());
    assert!(app.show_popup);
    assert!(!app.popup_success);
    assert_eq!(app.popup_message, "No destinations selected");
    assert_eq!(app.selection.source(), Some(&"2".to_string()));
}

#[test]
fn copy_settings_with_an_unknown_source_shows_the_reason() {
    let mut app = scanned();
    app.toggle_copy_from("777", true);
    app.toggle_copy_to("2", true);
    assert!(app.copy_settings().is_none());
    assert_eq!(app.popup_message, "Source file not found");
    assert!(app.show_popup);
    assert!(!app.popup_success);
}

#[test]
fn copy_settings_gives_the_job_and_finish_copy_clears_the_selection() {
    let mut app = scanned();
    app.toggle_copy_from("10", true);
    app.toggle_copy_to("2", true);
    let mut job = app.copy_settings().unwrap();
    assert!(!app.show_popup);
    assert_eq!(
        job.next_step(),
        CopyStep::Read { path: &PathBuf::from("/eve/a/settings_Default/core_char_10.dat") }
    );
    job.source_read(b"ten".to_vec());
    assert_eq!(
        job.next_step(),
        CopyStep::Write {
            target: &CopyTarget {
                identifier: "2".to_string(),
                path: PathBuf::from("/eve/a/settings_Default/core_char_2.dat"),
            },
            contents: &b"ten".to_vec(),
        }
    );
    job.record_write(Ok(()));
    assert_eq!(job.next_step(), CopyStep::Done);
    let outcome = job.into_outcome();
    app.finish_copy(&outcome);
    assert!(app.show_popup);
    assert!(app.popup_success);
    assert_eq!(app.popup_message, "Successfully copied settings to 1 character(s)");
    assert_eq!(app.selection.source(), None);
    assert!(app.selection.destinations().is_empty());
    app.dismiss_popup();
    assert!(!app.show_popup);
    assert_eq!(app.popup_message, "Successfully copied settings to 1 character(s)");
}

#[test]
fn finish_copy_with_failures_is_no_success() {
    let mut app = scanned();
    app.toggle_copy_from("10", true);
    app.toggle_copy_to("2", true);
    let outcome = CopyOutcome {
        successes: 0,
        failures: vec![CopyError::DestinationWriteFailure {
            identifier: "2".to_string(),
            reason: "Permission denied".to_string(),
        }],
    };
    app.finish_copy(&outcome);
    assert!(app.show_popup);
    assert!(!app.popup_success);
    assert_eq!(
        app.popup_message,
        "Copied to 0 character(s), but 1 failed: 2: Permission denied"
    );
    assert!(!app.can_copy());
}

#[test]
fn an_unreadable_source_shows_the_reason_and_keeps_the_selection() {
    let mut app = scanned();
    app.toggle_copy_from("10", true);
    app.toggle_copy_to("2", true);
    let job = app.copy_settings().unwrap();
    app.copy_source_unreadable(job, "Permission denied".to_string());
    assert!(app.show_popup);
    assert!(!app.popup_success);
    assert_eq!(app.popup_message, "Failed to read source: Permission denied");
    assert!(app.can_copy());
}

#[test]
fn labels_tell_what_is_chosen() {
    let mut app = scanned();
    assert_eq!(app.source_label(), "From: (none selected)");
    assert_eq!(app.destination_label(), "To: (none selected)");
    app.toggle_copy_from("10", true);
    app.toggle_copy_to("2", true);
    assert_eq!(app.source_label(), "From: 10");
    assert_eq!(app.destination_label(), "To: 1 character(s)");
    app.process_api_messages(&vec![ResolutionEvent {
        identifier: "10".to_string(),
        status: ResolutionStatus::Resolved("Ten Pilot".to_string()),
    }]);
    assert_eq!(app.source_label(), "From: Ten Pilot");
    app.process_api_messages(&vec![ResolutionEvent {
        identifier: "10".to_string(),
        status: ResolutionStatus::Failed("Character not found".to_string()),
    }]);
    assert_eq!(app.source_label(), "From: 10");
    app.toggle_copy_from("404", true);
    assert_eq!(app.source_label(), "From: 404");
}
