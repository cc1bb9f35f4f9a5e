//! The data that every component shares: a discovered settings file, the
//! state of its name lookup, and the message that reports a lookup's end.

use crate::text::string_eq;
use std::path::PathBuf;
use vstd::prelude::*;
use vstd::string::*;

verus! {

/// `std::path::PathBuf`, carried through unread.
#[verifier::external_type_specification]
#[verifier::external_body]
pub struct ExPathBuf(PathBuf);

/// `PathBuf::clone` gives back an equal path.
pub assume_specification[ <PathBuf as Clone>::clone ](path: &PathBuf) -> (copy: PathBuf)
    ensures
        copy == *path,
;

/// Where the lookup of a display name stands.
#[derive(Debug, PartialEq, Eq)]
pub enum ResolutionStatus {
    /// Asked for, not answered yet.
    Pending,
    /// Answered with the display name.
    Resolved(String),
    /// Ended without a name, for the given reason.
    Failed(String),
}

/// A `ResolutionStatus` with its texts as sequences of characters.
pub enum StatusView {
    Pending,
    Resolved(Seq<char>),
    Failed(Seq<char>),
}

impl View for ResolutionStatus {
    type V = StatusView;

    open spec fn view(&self) -> StatusView {
        match self {
            ResolutionStatus::Pending => StatusView::Pending,
            ResolutionStatus::Resolved(name) => StatusView::Resolved(name@),
            ResolutionStatus::Failed(reason) => StatusView::Failed(reason@),
        }
    }
}

impl Clone for ResolutionStatus {
    fn clone(&self) -> (copy: Self)
        ensures
            copy@ == self@,
    {
        match self {
            ResolutionStatus::Pending => ResolutionStatus::Pending,
            ResolutionStatus::Resolved(name) => ResolutionStatus::Resolved(name.clone()),
            ResolutionStatus::Failed(reason) => ResolutionStatus::Failed(reason.clone()),
        }
    }
}

impl ResolutionStatus {
    /// Whether the lookup has ended, with a name or without.
    pub fn is_terminal(&self) -> (r: bool)
        ensures
            r == !(self@ is Pending),
    {
        match self {
            ResolutionStatus::Pending => false,
            _ => true,
        }
    }
}

/// One settings file found on disk.
#[derive(Debug, PartialEq, Eq)]
pub struct Record {
    /// Where the file lies.
    pub path: PathBuf,
    /// Its file name.
    pub filename: String,
    /// The digits taken from the file name: the key that joins a file to its
    /// display name and to the copy selection.
    pub identifier: String,
    /// Where the lookup of its display name stands.
    pub resolution: ResolutionStatus,
}

/// A `Record` with its texts as sequences of characters.
pub struct RecordView {
    pub path: PathBuf,
    pub filename: Seq<char>,
    pub identifier: Seq<char>,
    pub resolution: StatusView,
}

impl View for Record {
    type V = RecordView;

    open spec fn view(&self) -> RecordView {
        RecordView {
            path: self.path,
            filename: self.filename@,
            identifier: self.identifier@,
            resolution: self.resolution@,
        }
    }
}

impl Clone for Record {
    fn clone(&self) -> (copy: Self)
        ensures
            copy@ == self@,
    {
        Record {
            path: self.path.clone(),
            filename: self.filename.clone(),
            identifier: self.identifier.clone(),
            resolution: self.resolution.clone(),
        }
    }
}

/// The views of a sequence of records, in the same order.
pub open spec fn record_views(records: Seq<Record>) -> Seq<RecordView> {
    records.map_values(|r: Record| r@)
}

/// The end of one lookup: the identifier asked for and what came of it.
#[derive(Debug, PartialEq, Eq)]
pub struct ResolutionEvent {
    pub identifier: String,
    pub status: ResolutionStatus,
}

/// A `ResolutionEvent` with its texts as sequences of characters.
pub struct EventView {
    pub identifier: Seq<char>,
    pub status: StatusView,
}

impl View for ResolutionEvent {
    type V = EventView;

    open spec fn view(&self) -> EventView {
        EventView { identifier: self.identifier@, status: self.status@ }
    }
}

impl Clone for ResolutionEvent {
    fn clone(&self) -> (copy: Self)
        ensures
            copy@ == self@,
    {
        ResolutionEvent { identifier: self.identifier.clone(), status: self.status.clone() }
    }
}

/// The views of a sequence of events, in the same order.
pub open spec fn event_views(events: Seq<ResolutionEvent>) -> Seq<EventView> {
    events.map_values(|e: ResolutionEvent| e@)
}

/// Whether some record of the sequence carries the identifier.
pub open spec fn carries(records: Seq<RecordView>, identifier: Seq<char>) -> bool {
    exists|i: int| 0 <= i < records.len() && (#[trigger] records[i]).identifier == identifier
}

/// Whether place `i` holds the first record that carries the identifier.
pub open spec fn is_first_with(records: Seq<RecordView>, identifier: Seq<char>, i: int) -> bool {
    &&& 0 <= i < records.len()
    &&& records[i].identifier == identifier
    &&& forall|j: int| 0 <= j < i ==> (#[trigger] records[j]).identifier != identifier
}

/// The first record that carries the identifier. It says nothing where no
/// record carries it.
pub open spec fn first_with(records: Seq<RecordView>, identifier: Seq<char>) -> RecordView {
    records[choose|i: int| is_first_with(records, identifier, i)]
}

/// The place that holds the first record of an identifier holds what
/// `first_with` names.
pub proof fn lemma_first_with(records: Seq<RecordView>, identifier: Seq<char>, place: int)
    requires
        is_first_with(records, identifier, place),
    ensures
        carries(records, identifier),
        first_with(records, identifier) == records[place],
{
    let chosen = choose|i: int| is_first_with(records, identifier, i);
    if chosen < place {
        assert(records[chosen].identifier != identifier);
    } else if place < chosen {
        assert(records[place].identifier != identifier);
    }
}

/// The place of the first record that carries the identifier.
pub fn find_record(records: &Vec<Record>, identifier: &str) -> (place: Option<usize>)
    ensures
        match place {
            Some(i) => is_first_with(record_views(records@), identifier@, i as int),
            None => !carries(record_views(records@), identifier@),
        },
{
    let mut i: usize = 0;
    while i < records.len()
        invariant
            i <= records@.len(),
            forall|j: int|
                0 <= j < i ==> (#[trigger] record_views(records@)[j]).identifier != identifier@,
        decreases records@.len() - i,
    {
        if string_eq(records[i].identifier.as_str(), identifier) {
            return Some(i);
        }
        i += 1;
    }
    None
}

} // verus!
