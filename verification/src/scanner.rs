//! Finding settings files in a listing of the settings directory.
//!
//! The caller reads the directory tree, two levels below the root, and
//! hands it over as a `RootListing`. Which entries count, what is taken from
//! a file's name and the order of the result are decided here.

use crate::pattern::{regex_accepts, settings_identifier, FilenameMatcher, SETTINGS_FILE_PATTERN};
use crate::record::{record_views, Record, RecordView, ResolutionStatus, StatusView};
use crate::sorting::{is_stable_sort_of, sort_by_identifier};
use crate::text::starts_with;
use std::path::PathBuf;
use vstd::prelude::*;
use vstd::seq_lib::*;
use vstd::string::*;

verus! {

/// A settings container is a directory whose name begins with this.
pub const SETTINGS_FOLDER_PREFIX: &'static str = "settings_";

/// An entry of a settings container.
#[derive(Debug)]
pub struct FileEntry {
    /// Where the entry lies.
    pub path: PathBuf,
    /// Its name within the container.
    pub filename: String,
}

/// An entry of a profile directory, with what it holds if it was listed.
#[derive(Debug)]
pub struct FolderEntry {
    /// Its name within the profile directory.
    pub name: String,
    /// Whether it is a directory.
    pub is_dir: bool,
    /// Its entries; empty where it is no directory or could not be read.
    pub files: Vec<FileEntry>,
}

/// An entry of the root directory, with what it holds if it was listed.
#[derive(Debug)]
pub struct ProfileEntry {
    /// Whether it is a directory.
    pub is_dir: bool,
    /// Its entries; empty where it is no directory or could not be read.
    pub folders: Vec<FolderEntry>,
}

/// What was found at the root path.
#[derive(Debug)]
pub struct RootListing {
    /// Whether the root path exists.
    pub exists: bool,
    /// Its entries; empty where it could not be read.
    pub entries: Vec<ProfileEntry>,
}

/// Why a scan gave no records.
#[derive(Debug, PartialEq, Eq)]
pub enum ScanError {
    /// The root path does not exist.
    PathNotFound { path: String },
    /// The regular-expression engine did not compile the file-name pattern.
    PatternRejected,
}

/// The record that a container's entry gives: one with a pending lookup for
/// a name that the pattern matches, none for any other name.
pub open spec fn record_of(file: FileEntry) -> Option<RecordView> {
    match settings_identifier(file.filename@) {
        Some(identifier) => Some(
            RecordView {
                path: file.path,
                filename: file.filename@,
                identifier,
                resolution: StatusView::Pending,
            },
        ),
        None => None,
    }
}

/// The records of a container's entries, in the order of the entries.
pub open spec fn records_of_files(files: Seq<FileEntry>) -> Seq<RecordView> {
    files.filter_map(|file: FileEntry| record_of(file))
}

/// Whether an entry of a profile directory is a settings container.
pub open spec fn is_settings_folder(folder: FolderEntry) -> bool {
    folder.is_dir && SETTINGS_FOLDER_PREFIX@.is_prefix_of(folder.name@)
}

/// The records of one entry of a profile directory: those of its files if it
/// is a settings container, none otherwise.
pub open spec fn records_of_folder(folder: FolderEntry) -> Seq<RecordView> {
    if is_settings_folder(folder) {
        records_of_files(folder.files@)
    } else {
        Seq::empty()
    }
}

/// The records of a profile directory's entries, in the order of the entries.
pub open spec fn records_of_folders(folders: Seq<FolderEntry>) -> Seq<RecordView> {
    folders.flat_map(|folder: FolderEntry| records_of_folder(folder))
}

/// The records of one entry of the root: those below it if it is a
/// directory, none otherwise.
pub open spec fn records_of_profile(profile: ProfileEntry) -> Seq<RecordView> {
    if profile.is_dir {
        records_of_folders(profile.folders@)
    } else {
        Seq::empty()
    }
}

/// Every record that a listing holds, in the order in which a walk through
/// the listing meets them.
pub open spec fn discovered(root: RootListing) -> Seq<RecordView> {
    root.entries@.flat_map(|profile: ProfileEntry| records_of_profile(profile))
}

/// What holds of a record fresh from a scan: its identifier is the one that
/// the pattern takes from its file name, and its lookup is pending.
pub open spec fn fresh_match(record: RecordView) -> bool {
    &&& settings_identifier(record.filename) == Some(record.identifier)
    &&& record.resolution is Pending
}

impl ScanError {
    /// The error as a line for the user.
    pub fn message(&self) -> (text: String)
        ensures
            text@ == match self {
                ScanError::PathNotFound { path } => "Path does not exist: "@ + path@,
                ScanError::PatternRejected => "Settings file pattern was rejected"@,
            },
    {
        match self {
            ScanError::PathNotFound { path } => {
                String::from_str("Path does not exist: ").concat(path.as_str())
            },
            ScanError::PatternRejected => String::from_str("Settings file pattern was rejected"),
        }
    }
}

/// Whether an entry of a profile directory is to be searched for settings
/// files: it is a directory and its name begins with the fixed prefix.
pub fn settings_folder(name: &str, is_dir: bool) -> (r: bool)
    ensures
        r == (is_dir && SETTINGS_FOLDER_PREFIX@.is_prefix_of(name@)),
{
    is_dir && starts_with(name, SETTINGS_FOLDER_PREFIX)
}

fn collect_files(matcher: &FilenameMatcher, files: &Vec<FileEntry>, found: &mut Vec<Record>)
    requires
        forall|k: int| 0 <= k < old(found)@.len() ==> fresh_match(#[trigger] old(found)@[k]@),
    ensures
        record_views(final(found)@) == record_views(old(found)@) + records_of_files(files@),
        forall|k: int| 0 <= k < final(found)@.len() ==> fresh_match(#[trigger] final(found)@[k]@),
{
    let ghost start = record_views(found@);
    let ghost each = |file: FileEntry| record_of(file);
    let mut i: usize = 0;
    proof {
        assert(files@.take(0).filter_map(each) =~= Seq::<RecordView>::empty());
    }
    while i < files.len()
        invariant
            i <= files@.len(),
            each == |file: FileEntry| record_of(file),
            record_views(found@) == start + files@.take(i as int).filter_map(each),
            forall|k: int| 0 <= k < found@.len() ==> fresh_match(#[trigger] found@[k]@),
        decreases files@.len() - i,
    {
        let file = &files[i];
        let ghost before = record_views(found@);
        proof {
            files@.lemma_filter_map_take_succ(each, i as int);
        }
        match matcher.identifier_of(file.filename.as_str()) {
            Some(identifier) => {
                let record = Record {
                    path: file.path.clone(),
                    filename: file.filename.clone(),
                    identifier,
                    resolution: ResolutionStatus::Pending,
                };
                proof {
                    assert(record_of(*file) == Some(record@));
                }
                found.push(record);
                proof {
                    assert(record_views(found@) =~= before.push(record@));
                    assert(record_views(found@) =~= start + files@.take(i as int + 1).filter_map(
                        each,
                    ));
                }
            },
            None => {
                proof {
                    assert(record_views(found@) =~= start + files@.take(i as int + 1).filter_map(
                        each,
                    ));
                }
            },
        }
        i += 1;
    }
    proof {
        assert(files@.take(files@.len() as int) =~= files@);
    }
}

fn collect_folders(matcher: &FilenameMatcher, folders: &Vec<FolderEntry>, found: &mut Vec<Record>)
    requires
        forall|k: int| 0 <= k < old(found)@.len() ==> fresh_match(#[trigger] old(found)@[k]@),
    ensures
        record_views(final(found)@) == record_views(old(found)@) + records_of_folders(folders@),
        forall|k: int| 0 <= k < final(found)@.len() ==> fresh_match(#[trigger] final(found)@[k]@),
{
    let ghost start = record_views(found@);
    let ghost each = |folder: FolderEntry| records_of_folder(folder);
    let mut i: usize = 0;
    proof {
        assert(folders@.take(0).flat_map(each) =~= Seq::<RecordView>::empty());
    }
    while i < folders.len()
        invariant
            i <= folders@.len(),
            each == |folder: FolderEntry| records_of_folder(folder),
            record_views(found@) == start + folders@.take(i as int).flat_map(each),
            forall|k: int| 0 <= k < found@.len() ==> fresh_match(#[trigger] found@[k]@),
        decreases folders@.len() - i,
    {
        let folder = &folders[i];
        proof {
            folders@.lemma_flat_map_take_append(each, i as int);
        }
        if settings_folder(folder.name.as_str(), folder.is_dir) {
            collect_files(matcher, &folder.files, found);
        }
        proof {
            assert(record_views(found@) =~= start + folders@.take(i as int + 1).flat_map(each));
        }
        i += 1;
    }
    proof {
        assert(folders@.take(folders@.len() as int) =~= folders@);
    }
}

fn collect_profiles(
    matcher: &FilenameMatcher,
    profiles: &Vec<ProfileEntry>,
    found: &mut Vec<Record>,
)
    requires
        old(found)@.len() == 0,
    ensures
        record_views(final(found)@) == profiles@.flat_map(
            |profile: ProfileEntry| records_of_profile(profile),
        ),
        forall|k: int| 0 <= k < final(found)@.len() ==> fresh_match(#[trigger] final(found)@[k]@),
{
    let ghost each = |profile: ProfileEntry| records_of_profile(profile);
    let mut i: usize = 0;
    proof {
        assert(profiles@.take(0).flat_map(each) =~= Seq::<RecordView>::empty());
        assert(record_views(found@) =~= Seq::<RecordView>::empty());
    }
    while i < profiles.len()
        invariant
            i <= profiles@.len(),
            each == |profile: ProfileEntry| records_of_profile(profile),
            record_views(found@) == profiles@.take(i as int).flat_map(each),
            forall|k: int| 0 <= k < found@.len() ==> fresh_match(#[trigger] found@[k]@),
        decreases profiles@.len() - i,
    {
        let profile = &profiles[i];
        proof {
            profiles@.lemma_flat_map_take_append(each, i as int);
        }
        if profile.is_dir {
            collect_folders(matcher, &profile.folders, found);
        }
        proof {
            assert(record_views(found@) =~= profiles@.take(i as int + 1).flat_map(each));
        }
        i += 1;
    }
    proof {
        assert(profiles@.take(profiles@.len() as int) =~= profiles@);
    }
}

/// The settings files of a listing, sorted by identifier.
///
/// Fails with `PathNotFound` where the root does not exist. Otherwise the
/// result holds one record for each file whose name the pattern matches,
/// in the settings containers of the root's directories, and nothing else.
/// The records are sorted by identifier as strings are ordered; records
/// with the same identifier stay in the order of the listing. Every lookup
/// is pending.
pub fn scan_for_settings_files(base_path: &str, root: &RootListing) -> (r: Result<
    Vec<Record>,
    ScanError,
>)
    ensures
        match r {
            Ok(records) => {
                &&& root.exists
                &&& regex_accepts(SETTINGS_FILE_PATTERN@)
                &&& is_stable_sort_of(record_views(records@), discovered(*root))
                &&& record_views(records@).to_multiset() == discovered(*root).to_multiset()
                &&& forall|k: int|
                    0 <= k < records@.len() ==> fresh_match(#[trigger] records@[k]@)
            },
            Err(ScanError::PathNotFound { path }) => !root.exists && path@ == base_path@,
            Err(ScanError::PatternRejected) => root.exists && !regex_accepts(
                SETTINGS_FILE_PATTERN@,
            ),
        },
{
    if !root.exists {
        return Err(ScanError::PathNotFound { path: String::from_str(base_path) });
    }
    let matcher = match FilenameMatcher::new() {
        Ok(matcher) => matcher,
        Err(_) => {
            return Err(ScanError::PatternRejected);
        },
    };
    let mut found: Vec<Record> = Vec::new();
    collect_profiles(&matcher, &root.entries, &mut found);
    let ghost unsorted = record_views(found@);
    let ghost held = found@;
    let records = sort_by_identifier(found);
    proof {
        assert forall|k: int| 0 <= k < records@.len() implies fresh_match(
            #[trigger] records@[k]@,
        ) by {
            let sorted = record_views(records@);
            let record = sorted[k];
            assert(sorted.contains(record));
            to_multiset_contains(sorted, record);
            to_multiset_contains(unsorted, record);
            let j = choose|j: int| 0 <= j < unsorted.len() && unsorted[j] == record;
            assert(unsorted[j] == held[j]@);
        }
    }
    Ok(records)
}

} // verus!
