use std::path::PathBuf;
use toon_settings::pattern::FilenameMatcher;
use toon_settings::record::{Record, ResolutionStatus};
use toon_settings::scanner::{
    scan_for_settings_files, settings_folder, FileEntry, FolderEntry, ProfileEntry, RootListing,
    ScanError,
};

fn file(folder: &str, name: &str) -> FileEntry {
    FileEntry { path: PathBuf::from(format!("{}/{}", folder, name)), filename: name.to_string() }
}

fn folder(profile: &str, name: &str, is_dir: bool, names: &[&str]) -> FolderEntry {
    let dir = format!("{}/{}", profile, name);
    FolderEntry {
        name: name.to_string(),
        is_dir,
        files: names.iter().map(|n| file(&dir, n)).collect(),
    }
}

fn record(path: &str, filename: &str, identifier: &str) -> Record {
    Record {
        path: PathBuf::from(path),
        filename: filename.to_string(),
        identifier: identifier.to_string(),
        resolution: ResolutionStatus::Pending,
    }
}

fn identifiers(records: &[Record]) -> Vec<String> {
    records.iter().map(|r| r.identifier.clone()).collect()
}

#[test]
fn scan_sorts_identifiers_as_strings() {
    let root = RootListing {
        exists: true,
        entries: vec![ProfileEntry {
            is_dir: true,
            folders: vec![folder(
                "/eve/p1",
                "settings_Default",
                true,
                &["core_char_2.dat", "core_char_10.dat", "core_char_1.dat"],
            )],
        }],
    };
    let records = scan_for_settings_files("/eve", &root).unwrap();
    assert_eq!(identifiers(&records), vec!["1", "10", "2"]);
}

#[test]
fn scan_returns_only_files_that_match_the_pattern() {
    let root = RootListing {
        exists: true,
        entries: vec![ProfileEntry {
            is_dir: true,
            folders: vec![folder(
                "/eve/p1",
                "settings_Default",
                true,
                &[
                    "core_char_123.dat",
                    "core_char_.dat",
                    "core_char_12a.dat",
                    "core_char_12.dat.bak",
                    "xcore_char_12.dat",
                    "core_user_55.dat",
                    "core_char_12.DAT",
                    "core_char_007.dat",
                    "prefs.ini",
                    "core_char_-5.dat",
                ],
            )],
        }],
    };
    let records = scan_for_settings_files("/eve", &root).unwrap();
    assert_eq!(
        records,
        vec![
            record("/eve/p1/settings_Default/core_char_007.dat", "core_char_007.dat", "007"),
            record("/eve/p1/settings_Default/core_char_123.dat", "core_char_123.dat", "123"),
        ]
    );
}

#[test]
fn scan_looks_only_into_settings_folders_of_directories() {
    let root = RootListing {
        exists: true,
        entries: vec![
            ProfileEntry {
                is_dir: true,
                folders: vec![
                    folder("/eve/p1", "settings_Default", true, &["core_char_1.dat"]),
                    folder("/eve/p1", "cache", true, &["core_char_2.dat"]),
                    folder("/eve/p1", "settings_file", false, &["core_char_3.dat"]),
                    folder("/eve/p1", "Settings_Upper", true, &["core_char_4.dat"]),
                    folder("/eve/p1", "settings_", true, &["core_char_5.dat"]),
                ],
            },
            ProfileEntry {
                is_dir: false,
                folders: vec![folder("/eve/f", "settings_Default", true, &["core_char_6.dat"])],
            },
        ],
    };
    let records = scan_for_settings_files("/eve", &root).unwrap();
    assert_eq!(identifiers(&records), vec!["1", "5"]);
}

#[test]
fn scan_keeps_the_listing_order_among_equal_identifiers() {
    let root = RootListing {
        exists: true,
        entries: vec![
            ProfileEntry {
                is_dir: true,
                folders: vec![
                    folder("/eve/a", "settings_A", true, &["core_char_7.dat", "core_char_3.dat"]),
                    folder("/eve/a", "settings_B", true, &["core_char_7.dat"]),
                ],
            },
            ProfileEntry {
                is_dir: true,
                folders: vec![folder("/eve/b", "settings_A", true, &["core_char_7.dat"])],
            },
        ],
    };
    let records = scan_for_settings_files("/eve", &root).unwrap();
    assert_eq!(
        records,
        vec![
            record("/eve/a/settings_A/core_char_3.dat", "core_char_3.dat", "3"),
            record("/eve/a/settings_A/core_char_7.dat", "core_char_7.dat", "7"),
            record("/eve/a/settings_B/core_char_7.dat", "core_char_7.dat", "7"),
            record("/eve/b/settings_A/core_char_7.dat", "core_char_7.dat", "7"),
        ]
    );
}

#[test]
fn scan_of_an_empty_root_gives_no_records() {
    let root = RootListing { exists: true, entries: vec![] };
    assert_eq!(scan_for_settings_files("/eve", &root), Ok(vec![]));
}

#[test]
fn scan_of_a_missing_root_is_path_not_found() {
    let root = RootListing { exists: false, entries: vec![] };
    assert_eq!(
        scan_for_settings_files("/no/such/dir", &root),
        Err(ScanError::PathNotFound { path: "/no/such/dir".to_string() })
    );
}

#[test]
fn scan_of_a_missing_root_ignores_its_entries() {
    let root = RootListing {
        exists: false,
        entries: vec![ProfileEntry {
            is_dir: true,
            folders: vec![folder("/eve/p1", "settings_Default", true, &["core_char_1.dat"])],
        }],
    };
    assert!(matches!(
        scan_for_settings_files("/eve", &root),
        Err(ScanError::PathNotFound { .. })
    ));
}

#[test]
fn scan_error_messages() {
    let missing = ScanError::PathNotFound { path: "/no/such/dir".to_string() };
    assert_eq!(missing.message(), "Path does not exist: /no/such/dir");
    assert_eq!(ScanError::PatternRejected.message(), "Settings file pattern was rejected");
}

#[test]
fn settings_folder_needs_a_directory_with_the_prefix() {
    assert!(settings_folder("settings_Default", true));
    assert!(settings_folder("settings_", true));
    assert!(!settings_folder("settings_Default", false));
    assert!(!settings_folder("settings", true));
    assert!(!settings_folder("my_settings_Default", true));
    assert!(!settings_folder("", true));
}

#[test]
fn matcher_gives_the_digits_and_not_the_name() {
    let matcher = FilenameMatcher::new().unwrap();
    assert_eq!(matcher.identifier_of("core_char_90000001.dat"), Some("90000001".to_string()));
    assert_eq!(matcher.identifier_of("core_char_0.dat"), Some("0".to_string()));
    assert_eq!(matcher.identifier_of("core_char_.dat"), None);
    assert_eq!(matcher.identifier_of("core_char_1.dat\n"), None);
    assert_eq!(matcher.identifier_of(" core_char_1.dat"), None);
    assert_eq!(matcher.identifier_of("core_char_1xdat"), None);
    assert_eq!(matcher.identifier_of(""), None);
}

#[test]
fn matcher_takes_digits_as_the_engine_does() {
    let matcher = FilenameMatcher::new().unwrap();
    assert_eq!(matcher.identifier_of("core_char_١٢٣.dat"), Some("١٢٣".to_string()));
    assert_eq!(matcher.identifier_of("core_char_12٣.dat"), Some("12٣".to_string()));
    assert_eq!(matcher.identifier_of("core_char_Ⅻ.dat"), None);
}
