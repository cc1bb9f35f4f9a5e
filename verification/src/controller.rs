//! The application state behind the window: the store, the selection, the
//! path to scan and what is shown to the user, with the steps that change
//! them.
//!
//! The window, the file system and the network are the caller's. It lists
//! the directory and hands the listing to `scan_files`, runs the worker
//! that comes back and hands its events to `process_api_messages`, and runs
//! the job that `copy_settings` gives.

use crate::copy::{CopyError, CopyErrorView, CopyJob, CopyOutcome, JobView, OutcomeView};
use crate::copy::{path_of, targets_of};
use crate::lookup::{resolution_of, LookupReply};
use crate::pattern::{regex_accepts, SETTINGS_FILE_PATTERN};
use crate::record::{
    carries, event_views, find_record, first_with, lemma_first_with, record_views, RecordView,
    ResolutionEvent, ResolutionStatus, StatusView,
};
use crate::scanner::{discovered, fresh_match, scan_for_settings_files, RootListing};
use crate::selection::{CopySelection, SelectionView};
use crate::sorting::is_stable_sort_of;
use crate::store::{
    is_last_for, law_last_event_wins, mentions, reset, StateStore, StoreView,
};
use crate::text::{decimal, decimal_string, string_views};
use crate::worker::{
    is_lookup_queue_of, lemma_run_of_fresh_worker, EnrichmentWorker, WorkerView,
};
use vstd::prelude::*;
use vstd::string::*;

verus! {

/// Where the settings lie below the home directory.
pub const SETTINGS_SUBPATH: &'static str =
    ".steam/steam/steamapps/compatdata/8500/pfx/drive_c/users/steamuser/AppData/Local/CCP/EVE";

/// The path shown where the settings directory was not found.
pub const FALLBACK_SETTINGS_PATH: &'static str =
    "~/.steam/steam/steamapps/compatdata/8500/pfx/drive_c/users/steamuser/AppData/Local/CCP/EVE";

/// The path to scan at the start: the settings directory below the home
/// directory where the caller found it, the fallback otherwise.
pub fn get_eve_settings_path(found: Option<String>) -> (path: String)
    ensures
        path@ == match found {
            Some(p) => p@,
            None => FALLBACK_SETTINGS_PATH@,
        },
{
    match found {
        Some(path) => path,
        None => String::from_str(FALLBACK_SETTINGS_PATH),
    }
}

/// The state of the application.
pub struct EveSettingsApp {
    /// The records of the last scan and the status of every identifier.
    pub store: StateStore,
    /// What is chosen for a copy.
    pub selection: CopySelection,
    /// Whether the path has been scanned since it was last changed.
    pub scan_complete: bool,
    /// The path to scan.
    pub eve_path: String,
    /// Why the last scan failed, if it did.
    pub error_message: Option<String>,
    /// Whether the result of a copy is on show.
    pub show_popup: bool,
    /// Whether the copy on show went through without a failure.
    pub popup_success: bool,
    /// The line that tells of the copy on show.
    pub popup_message: String,
}

/// An `EveSettingsApp` as its contracts see it.
pub struct AppView {
    pub store: StoreView,
    pub selection: SelectionView,
    pub scan_complete: bool,
    pub eve_path: Seq<char>,
    pub error_message: Option<Seq<char>>,
    pub show_popup: bool,
    pub popup_success: bool,
    pub popup_message: Seq<char>,
}

impl View for EveSettingsApp {
    type V = AppView;

    open spec fn view(&self) -> AppView {
        AppView {
            store: self.store@,
            selection: self.selection@,
            scan_complete: self.scan_complete,
            eve_path: self.eve_path@,
            error_message: match self.error_message {
                Some(message) => Some(message@),
                None => None,
            },
            show_popup: self.show_popup,
            popup_success: self.popup_success,
            popup_message: self.popup_message@,
        }
    }
}

/// The identifiers of a sequence of records, in the same order.
pub open spec fn identifiers_of(records: Seq<RecordView>) -> Seq<Seq<char>> {
    records.map_values(|r: RecordView| r.identifier)
}

impl AppView {
    /// The state with the result of a failed copy on show.
    pub open spec fn with_failure(self, error: CopyErrorView) -> AppView {
        AppView {
            show_popup: true,
            popup_success: false,
            popup_message: error.message(),
            ..self
        }
    }

    /// The state after a copy that ran: its outcome is on show and nothing
    /// is chosen any more.
    pub open spec fn with_outcome(self, outcome: OutcomeView) -> AppView {
        AppView {
            show_popup: true,
            popup_success: outcome.is_full_success(),
            popup_message: outcome.summary(),
            selection: SelectionView::empty(),
            ..self
        }
    }

    /// The name to show for an identifier: the display name of the first
    /// record that carries it, where that record's lookup gave one; the
    /// identifier itself otherwise.
    pub open spec fn display_name(self, identifier: Seq<char>) -> Seq<char> {
        if carries(self.store.records, identifier) {
            match first_with(self.store.records, identifier).resolution {
                StatusView::Resolved(name) => name,
                _ => identifier,
            }
        } else {
            identifier
        }
    }

    /// The line that tells what is chosen as the source.
    pub open spec fn source_label(self) -> Seq<char> {
        match self.selection.source {
            Some(identifier) => "From: "@ + self.display_name(identifier),
            None => "From: (none selected)"@,
        }
    }

    /// The line that tells how many destinations are chosen.
    pub open spec fn destination_label(self) -> Seq<char> {
        if self.selection.destinations.len() == 0 {
            "To: (none selected)"@
        } else {
            "To: "@ + decimal(self.selection.destinations.len()) + " character(s)"@
        }
    }
}

/// One scan's lookups end every lookup of the scan: where the store is
/// seeded with the records of a scan and then takes in the events of a
/// worker that was started on the identifiers of those records and got a
/// reply to each of its lookups, every record has the status that the
/// reply for its identifier means, and no lookup is pending any more.
pub proof fn law_generation_ends_every_lookup(
    store: StoreView,
    records: Seq<RecordView>,
    worker: WorkerView,
    replies: Seq<LookupReply>,
)
    requires
        is_lookup_queue_of(worker.queue, identifiers_of(records)),
        worker.answered == 0,
        replies.len() == worker.queue.len(),
    ensures
        store.seed(records).apply_all(worker.emitted(replies)).records.len() == records.len(),
        forall|i: int|
            0 <= i < records.len() ==> exists|k: int|
                {
                    &&& 0 <= k < worker.queue.len()
                    &&& #[trigger] worker.queue[k] == (#[trigger] records[i]).identifier
                    &&& store.seed(records).apply_all(worker.emitted(replies)).records[i].resolution
                        == resolution_of(replies[k])
                },
        !store.seed(records).apply_all(worker.emitted(replies)).has_pending(),
{
    let seeded = store.seed(records);
    let events = worker.emitted(replies);
    let done = seeded.apply_all(events);
    let queue = worker.queue;
    lemma_run_of_fresh_worker(worker, replies);
    law_last_event_wins(seeded, events);
    assert forall|k: int| 0 <= k < queue.len() implies is_last_for(
        events,
        #[trigger] queue[k],
        k,
    ) by {
        assert forall|m: int| k < m < events.len() implies (#[trigger] events[m]).identifier
            != queue[k] by {
            assert(queue[k] != queue[m]);
        }
    }
    assert forall|i: int| 0 <= i < records.len() implies exists|k: int|
        {
            &&& 0 <= k < queue.len()
            &&& #[trigger] queue[k] == (#[trigger] records[i]).identifier
            &&& done.records[i].resolution == resolution_of(replies[k])
        } by {
        let id = records[i].identifier;
        assert(identifiers_of(records)[i] == id);
        assert(identifiers_of(records).contains(id));
        assert(queue.contains(id));
        let k = choose|k: int| 0 <= k < queue.len() && queue[k] == id;
        assert(is_last_for(events, queue[k], k));
        assert(seeded.records[i].identifier == id);
    }
    if done.has_pending() {
        let id = choose|id: Seq<char>|
            done.statuses.dom().contains(id) && done.statuses[id] is Pending;
        assert(queue.contains(id)) by {
            if seeded.statuses.dom().contains(id) {
                let i = choose|i: int| 0 <= i < records.len() && records[i].identifier == id;
                assert(identifiers_of(records)[i] == id);
                assert(identifiers_of(records).contains(id));
            } else {
                assert(mentions(events, id));
                let k = choose|k: int| 0 <= k < events.len() && events[k].identifier == id;
                assert(queue[k] == id);
            }
        }
        let k = choose|k: int| 0 <= k < queue.len() && queue[k] == id;
        assert(is_last_for(events, queue[k], k));
        assert(done.statuses[id] == events[k].status);
    }
}

impl EveSettingsApp {
    /// The state at the start: nothing scanned, nothing chosen, nothing on
    /// show.
    pub fn new(eve_path: String) -> (app: EveSettingsApp)
        ensures
            app@ == (AppView {
                store: StoreView::empty(),
                selection: SelectionView::empty(),
                scan_complete: false,
                eve_path: eve_path@,
                error_message: None,
                show_popup: false,
                popup_success: false,
                popup_message: Seq::empty(),
            }),
    {
        EveSettingsApp {
            store: StateStore::new(),
            selection: CopySelection::new(),
            scan_complete: false,
            eve_path,
            error_message: None,
            show_popup: false,
            popup_success: false,
            popup_message: String::new(),
        }
    }

    /// Takes a listing of the path in and marks the path as scanned.
    ///
    /// Where the scan gives records, the store is seeded with them: they
    /// are the settings files of the listing, sorted by identifier, every
    /// lookup pending. No error is kept, and the worker that comes back
    /// looks up each different identifier of the records once. Where the
    /// scan fails, its message is kept as the error, the store stays as it
    /// is and no worker comes back.
    pub fn scan_files(&mut self, root: &RootListing) -> (worker: Option<EnrichmentWorker>)
        ensures
            final(self)@.scan_complete,
            final(self)@.selection == old(self)@.selection,
            final(self)@.eve_path == old(self)@.eve_path,
            final(self)@.show_popup == old(self)@.show_popup,
            final(self)@.popup_success == old(self)@.popup_success,
            final(self)@.popup_message == old(self)@.popup_message,
            match worker {
                Some(w) => {
                    let records = final(self)@.store.records;
                    &&& root.exists
                    &&& regex_accepts(SETTINGS_FILE_PATTERN@)
                    &&& is_stable_sort_of(records, discovered(*root))
                    &&& records.to_multiset() == discovered(*root).to_multiset()
                    &&& forall|k: int| 0 <= k < records.len() ==> fresh_match(#[trigger] records[k])
                    &&& final(self)@.store == old(self)@.store.seed(records)
                    &&& final(self)@.error_message is None
                    &&& is_lookup_queue_of(w@.queue, identifiers_of(records))
                    &&& w@.answered == 0
                    &&& w@.wf()
                },
                None => {
                    &&& final(self)@.store == old(self)@.store
                    &&& if root.exists {
                        &&& !regex_accepts(SETTINGS_FILE_PATTERN@)
                        &&& final(self)@.error_message == Some(
                            "Settings file pattern was rejected"@,
                        )
                    } else {
                        final(self)@.error_message == Some(
                            "Path does not exist: "@ + old(self)@.eve_path,
                        )
                    }
                },
            },
    {
        let scanned = scan_for_settings_files(self.eve_path.as_str(), root);
        self.scan_complete = true;
        match scanned {
            Ok(files) => {
                let ghost found = record_views(files@);
                let mut identifiers: Vec<String> = Vec::new();
                let mut i: usize = 0;
                while i < files.len()
                    invariant
                        i <= files@.len(),
                        found == record_views(files@),
                        string_views(identifiers@) == identifiers_of(found).take(i as int),
                    decreases files@.len() - i,
                {
                    let ghost before = string_views(identifiers@);
                    identifiers.push(files[i].identifier.clone());
                    proof {
                        assert(string_views(identifiers@) =~= before.push(
                            files@[i as int]@.identifier,
                        ));
                        assert(string_views(identifiers@) =~= identifiers_of(found).take(
                            i as int + 1,
                        ));
                    }
                    i += 1;
                }
                proof {
                    assert(identifiers_of(found).take(files@.len() as int) =~= identifiers_of(
                        found,
                    ));
                }
                self.store.seed(files);
                self.error_message = None;
                proof {
                    assert(self@.store.records =~= found) by {
                        assert forall|k: int| 0 <= k < found.len() implies reset(found[k])
                            == found[k] by {
                            assert(found[k] == files@[k]@);
                        }
                    }
                }
                Some(EnrichmentWorker::start(&identifiers))
            },
            Err(error) => {
                self.error_message = Some(error.message());
                None
            },
        }
    }

    /// Takes the events of the worker in, in their order.
    pub fn process_api_messages(&mut self, messages: &Vec<ResolutionEvent>)
        ensures
            final(self)@ == (AppView {
                store: old(self)@.store.apply_all(event_views(messages@)),
                ..old(self)@
            }),
    {
        let mut i: usize = 0;
        while i < messages.len()
            invariant
                i <= messages@.len(),
                self@ == (AppView {
                    store: old(self)@.store.apply_all(event_views(messages@).take(i as int)),
                    ..old(self)@
                }),
            decreases messages@.len() - i,
        {
            proof {
                let events = event_views(messages@);
                assert(events.take(i as int + 1).drop_last() =~= events.take(i as int));
                assert(events.take(i as int + 1).last() == messages@[i as int]@);
            }
            self.store.apply_event(&messages[i]);
            i += 1;
        }
        proof {
            assert(event_views(messages@).take(messages@.len() as int) =~= event_views(
                messages@,
            ));
        }
    }

    /// Whether the lookup of some identifier is still pending.
    pub fn has_loading(&self) -> (r: bool)
        ensures
            r == self@.store.has_pending(),
    {
        self.store.has_pending()
    }

    /// Whether the path has still to be scanned.
    pub fn needs_scan(&self) -> (r: bool)
        ensures
            r == !self@.scan_complete,
    {
        !self.scan_complete
    }

    /// Changes the path to scan. The new path has not been scanned.
    pub fn set_path(&mut self, path: String)
        ensures
            final(self)@ == (AppView { eve_path: path@, scan_complete: false, ..old(self)@ }),
    {
        self.eve_path = path;
        self.scan_complete = false;
    }

    /// Forgets the last scan before a new one: no records, no identifiers,
    /// nothing chosen, and the path not scanned.
    pub fn begin_rescan(&mut self)
        ensures
            final(self)@ == (AppView {
                store: StoreView::empty(),
                selection: SelectionView::empty(),
                scan_complete: false,
                ..old(self)@
            }),
    {
        self.scan_complete = false;
        self.store.clear();
        self.selection.clear();
    }

    /// The source box of a record was ticked or cleared. Ticked, the
    /// record's identifier becomes the source and stops being a
    /// destination. Cleared, the selection has no source, if the identifier
    /// was the source.
    pub fn toggle_copy_from(&mut self, identifier: &str, checked: bool)
        ensures
            final(self)@ == (AppView {
                selection: if checked {
                    old(self)@.selection.select_source(identifier@)
                } else if old(self)@.selection.source == Some(identifier@) {
                    old(self)@.selection.clear_source()
                } else {
                    old(self)@.selection
                },
                ..old(self)@
            }),
    {
        if checked {
            self.selection.select_source(String::from_str(identifier));
        } else if self.selection.is_source(identifier) {
            self.selection.clear_source();
        }
    }

    /// The destination box of a record was ticked or cleared. Ticked, the
    /// record's identifier becomes a destination, unless it is the source.
    /// Cleared, it stops being one.
    pub fn toggle_copy_to(&mut self, identifier: &str, checked: bool)
        ensures
            final(self)@ == (AppView {
                selection: if checked {
                    old(self)@.selection.add_destination(identifier@)
                } else {
                    old(self)@.selection.remove_destination(identifier@)
                },
                ..old(self)@
            }),
    {
        if checked {
            let _ = self.selection.add_destination(String::from_str(identifier));
        } else {
            self.selection.remove_destination(identifier);
        }
    }

    /// Whether a copy can be asked for: a source is chosen, and at least
    /// one destination.
    pub fn can_copy(&self) -> (r: bool)
        ensures
            r == self@.selection.can_copy(),
    {
        self.selection.can_copy()
    }

    /// Starts the copy of what is chosen.
    ///
    /// Where the copy can start, the job comes back and nothing changes.
    /// Where it cannot, because no source or no destination is chosen or no
    /// record carries the source, the reason is put on show and no job
    /// comes back. The selection stays as it is in both cases.
    pub fn copy_settings(&mut self) -> (job: Option<CopyJob>)
        ensures
            match job {
                Some(j) => {
                    &&& final(self)@ == old(self)@
                    &&& old(self)@.selection.source matches Some(source)
                    &&& old(self)@.selection.destinations.len() > 0
                    &&& carries(old(self)@.store.records, source)
                    &&& j@ == JobView::fresh(
                        path_of(old(self)@.store.records, source),
                        targets_of(old(self)@.store.records, old(self)@.selection.destinations),
                    )
                    &&& j@.wf()
                },
                None => {
                    let selection = old(self)@.selection;
                    final(self)@ == old(self)@.with_failure(
                        if selection.source is None {
                            CopyErrorView::NoSourceSelected
                        } else if selection.destinations.len() == 0 {
                            CopyErrorView::NoDestinationsSelected
                        } else {
                            CopyErrorView::SourceNotFound
                        },
                    ) && !(selection.source matches Some(source) && selection.destinations.len()
                        > 0 && carries(old(self)@.store.records, source))
                },
            },
    {
        match CopyJob::begin(&self.selection, &self.store) {
            Ok(job) => Some(job),
            Err(error) => {
                self.show_failure(&error);
                None
            },
        }
    }

    /// The source file of a copy could not be read: the job is given up and
    /// the reason is put on show. Nothing was written, and the selection
    /// stays as it is.
    pub fn copy_source_unreadable(&mut self, job: CopyJob, reason: String)
        ensures
            final(self)@ == old(self)@.with_failure(
                CopyErrorView::SourceReadFailure { reason: reason@ },
            ),
    {
        let error = job.source_unreadable(reason);
        self.show_failure(&error);
    }

    /// A copy has run: its outcome is put on show, as a success where no
    /// write failed, and the selection is cleared.
    pub fn finish_copy(&mut self, outcome: &CopyOutcome)
        ensures
            final(self)@ == old(self)@.with_outcome(outcome@),
    {
        self.popup_message = outcome.summary();
        self.popup_success = outcome.is_full_success();
        self.show_popup = true;
        self.selection.clear();
    }

    /// Takes the result of a copy off show.
    pub fn dismiss_popup(&mut self)
        ensures
            final(self)@ == (AppView { show_popup: false, ..old(self)@ }),
    {
        self.show_popup = false;
    }

    /// The line that tells what is chosen as the source: the display name
    /// where the lookup gave one, the identifier otherwise.
    pub fn source_label(&self) -> (label: String)
        ensures
            label@ == self@.source_label(),
    {
        match self.selection.source() {
            Some(identifier) => {
                let records = self.store.records();
                let name = match find_record(records, identifier.as_str()) {
                    Some(place) => {
                        proof {
                            lemma_first_with(self@.store.records, identifier@, place as int);
                            assert(record_views(records@)[place as int] == records@[place as int]@);
                        }
                        match &records[place].resolution {
                            ResolutionStatus::Resolved(name) => name.clone(),
                            _ => identifier.clone(),
                        }
                    },
                    None => identifier.clone(),
                };
                String::from_str("From: ").concat(name.as_str())
            },
            None => String::from_str("From: (none selected)"),
        }
    }

    /// The line that tells how many destinations are chosen.
    pub fn destination_label(&self) -> (label: String)
        ensures
            label@ == self@.destination_label(),
    {
        let count = self.selection.destination_count();
        if count == 0 {
            String::from_str("To: (none selected)")
        } else {
            String::from_str("To: ").concat(decimal_string(count).as_str()).concat(
                " character(s)",
            )
        }
    }

    fn show_failure(&mut self, error: &CopyError)
        ensures
            final(self)@ == old(self)@.with_failure(error@),
    {
        self.popup_message = error.message();
        self.popup_success = false;
        self.show_popup = true;
    }
}

} // verus!
