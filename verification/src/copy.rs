//! The copy engine: one file's content written over a set of others.
//!
//! Reading and writing files is the caller's part. A `CopyJob` says, step
//! by step, what to read and what to write where, takes the result of every
//! step, and reports the outcome. The source is read once, every write
//! carries what was read, and a write that fails is counted and never
//! stops the others.

use crate::record::{
    carries, find_record, first_with, lemma_first_with, record_views, RecordView,
};
use crate::selection::CopySelection;
use crate::store::StateStore;
use crate::text::{decimal, decimal_string, join, joined, string_views};
use std::path::PathBuf;
use vstd::prelude::*;
use vstd::seq_lib::*;
use vstd::string::*;

verus! {

/// Why a copy did not happen, or did not reach a destination.
#[derive(Debug, PartialEq, Eq)]
pub enum CopyError {
    /// No source is chosen.
    NoSourceSelected,
    /// No destination is chosen.
    NoDestinationsSelected,
    /// No record carries the source's identifier.
    SourceNotFound,
    /// The source file could not be read.
    SourceReadFailure { reason: String },
    /// One destination could not be written. The other destinations are
    /// not affected.
    DestinationWriteFailure { identifier: String, reason: String },
}

/// A `CopyError` with its texts as sequences of characters.
pub enum CopyErrorView {
    NoSourceSelected,
    NoDestinationsSelected,
    SourceNotFound,
    SourceReadFailure { reason: Seq<char> },
    DestinationWriteFailure { identifier: Seq<char>, reason: Seq<char> },
}

impl View for CopyError {
    type V = CopyErrorView;

    open spec fn view(&self) -> CopyErrorView {
        match self {
            CopyError::NoSourceSelected => CopyErrorView::NoSourceSelected,
            CopyError::NoDestinationsSelected => CopyErrorView::NoDestinationsSelected,
            CopyError::SourceNotFound => CopyErrorView::SourceNotFound,
            CopyError::SourceReadFailure { reason } => CopyErrorView::SourceReadFailure {
                reason: reason@,
            },
            CopyError::DestinationWriteFailure {
                identifier,
                reason,
            } => CopyErrorView::DestinationWriteFailure {
                identifier: identifier@,
                reason: reason@,
            },
        }
    }
}

impl CopyErrorView {
    /// The error as a line for the user.
    pub open spec fn message(self) -> Seq<char> {
        match self {
            CopyErrorView::NoSourceSelected => "No source selected"@,
            CopyErrorView::NoDestinationsSelected => "No destinations selected"@,
            CopyErrorView::SourceNotFound => "Source file not found"@,
            CopyErrorView::SourceReadFailure { reason } => "Failed to read source: "@ + reason,
            CopyErrorView::DestinationWriteFailure { identifier, reason } => identifier + ": "@
                + reason,
        }
    }
}

impl CopyError {
    /// The error as a line for the user.
    pub fn message(&self) -> (text: String)
        ensures
            text@ == self@.message(),
    {
        match self {
            CopyError::NoSourceSelected => String::from_str("No source selected"),
            CopyError::NoDestinationsSelected => String::from_str("No destinations selected"),
            CopyError::SourceNotFound => String::from_str("Source file not found"),
            CopyError::SourceReadFailure { reason } => String::from_str(
                "Failed to read source: ",
            ).concat(reason.as_str()),
            CopyError::DestinationWriteFailure { identifier, reason } => identifier.clone().concat(
                ": ",
            ).concat(reason.as_str()),
        }
    }
}

/// The views of a sequence of errors, in the same order.
pub open spec fn error_views(errors: Seq<CopyError>) -> Seq<CopyErrorView> {
    errors.map_values(|e: CopyError| e@)
}

/// One file to write: the destination's identifier and where its file lies.
#[derive(Debug, PartialEq, Eq)]
pub struct CopyTarget {
    pub identifier: String,
    pub path: PathBuf,
}

/// A `CopyTarget` with its identifier as a sequence of characters.
pub struct TargetView {
    pub identifier: Seq<char>,
    pub path: PathBuf,
}

impl View for CopyTarget {
    type V = TargetView;

    open spec fn view(&self) -> TargetView {
        TargetView { identifier: self.identifier@, path: self.path }
    }
}

/// The views of a sequence of targets, in the same order.
pub open spec fn target_views(targets: Seq<CopyTarget>) -> Seq<TargetView> {
    targets.map_values(|t: CopyTarget| t@)
}

/// The path of the first record that carries the identifier.
pub open spec fn path_of(records: Seq<RecordView>, identifier: Seq<char>) -> PathBuf {
    first_with(records, identifier).path
}

/// The file to write for a destination: that of the first record which
/// carries the destination's identifier; none where no record does.
pub open spec fn target_of(records: Seq<RecordView>, destination: Seq<char>) -> Option<
    TargetView,
> {
    if carries(records, destination) {
        Some(TargetView { identifier: destination, path: path_of(records, destination) })
    } else {
        None
    }
}

/// The files to write for a sequence of destinations, in their order.
/// Destinations that no record carries are left out.
pub open spec fn targets_of(records: Seq<RecordView>, destinations: Seq<Seq<char>>) -> Seq<
    TargetView,
> {
    destinations.filter_map(|d: Seq<char>| target_of(records, d))
}

/// What a copy came to.
#[derive(Debug, PartialEq, Eq)]
pub struct CopyOutcome {
    /// How many destinations were written.
    pub successes: usize,
    /// The destinations that could not be written, each with the reason,
    /// in the order in which they were tried.
    pub failures: Vec<CopyError>,
}

/// A `CopyOutcome` as its contracts see it.
pub struct OutcomeView {
    pub successes: nat,
    pub failures: Seq<CopyErrorView>,
}

impl View for CopyOutcome {
    type V = OutcomeView;

    open spec fn view(&self) -> OutcomeView {
        OutcomeView { successes: self.successes as nat, failures: error_views(self.failures@) }
    }
}

impl OutcomeView {
    /// Every destination was written.
    pub open spec fn is_full_success(self) -> bool {
        self.failures.len() == 0
    }

    /// The outcome as a line for the user: how many were written and, if
    /// any failed, how many failed and each failure.
    pub open spec fn summary(self) -> Seq<char> {
        if self.failures.len() == 0 {
            "Successfully copied settings to "@ + decimal(self.successes) + " character(s)"@
        } else {
            "Copied to "@ + decimal(self.successes) + " character(s), but "@ + decimal(
                self.failures.len(),
            ) + " failed: "@ + joined(
                self.failures.map_values(|e: CopyErrorView| e.message()),
                ", "@,
            )
        }
    }
}

impl CopyOutcome {
    /// Whether every destination was written.
    pub fn is_full_success(&self) -> (r: bool)
        ensures
            r == self@.is_full_success(),
    {
        self.failures.len() == 0
    }

    /// The outcome as a line for the user.
    pub fn summary(&self) -> (text: String)
        ensures
            text@ == self@.summary(),
    {
        if self.failures.len() == 0 {
            String::from_str("Successfully copied settings to ").concat(
                decimal_string(self.successes).as_str(),
            ).concat(" character(s)")
        } else {
            let mut lines: Vec<String> = Vec::new();
            let mut i: usize = 0;
            while i < self.failures.len()
                invariant
                    i <= self.failures@.len(),
                    string_views(lines@) == error_views(self.failures@).take(i as int).map_values(
                        |e: CopyErrorView| e.message(),
                    ),
                decreases self.failures@.len() - i,
            {
                let ghost before = string_views(lines@);
                let line = self.failures[i].message();
                lines.push(line);
                proof {
                    assert(string_views(lines@) =~= before.push(line@));
                    assert(string_views(lines@) =~= error_views(self.failures@).take(
                        i as int + 1,
                    ).map_values(|e: CopyErrorView| e.message()));
                }
                i += 1;
            }
            proof {
                assert(error_views(self.failures@).take(self.failures@.len() as int)
                    =~= error_views(self.failures@));
            }
            String::from_str("Copied to ").concat(decimal_string(self.successes).as_str()).concat(
                " character(s), but ",
            ).concat(decimal_string(self.failures.len()).as_str()).concat(" failed: ").concat(
                join(&lines, ", ").as_str(),
            )
        }
    }
}

/// The reason in a write's result: none for a write that was done.
pub open spec fn failure_reason(result: Result<(), String>) -> Option<Seq<char>> {
    match result {
        Ok(_) => None,
        Err(reason) => Some(reason@),
    }
}

/// What the caller of a job is to do next.
#[derive(Debug, PartialEq, Eq)]
pub enum CopyStep<'a> {
    /// Read the source file and hand its content, or the failure, to the
    /// job.
    Read { path: &'a PathBuf },
    /// Write the content over the target's file and hand the result to the
    /// job.
    Write { target: &'a CopyTarget, contents: &'a Vec<u8> },
    /// Nothing: every target has been tried.
    Done,
}

/// A `CopyStep` as its contracts see it.
pub enum StepView {
    Read { path: PathBuf },
    Write { target: TargetView, contents: Seq<u8> },
    Done,
}

impl<'a> View for CopyStep<'a> {
    type V = StepView;

    open spec fn view(&self) -> StepView {
        match self {
            CopyStep::Read { path } => StepView::Read { path: **path },
            CopyStep::Write { target, contents } => StepView::Write {
                target: target@,
                contents: contents@,
            },
            CopyStep::Done => StepView::Done,
        }
    }
}

/// A copy in progress, as its contracts see it.
pub struct JobView {
    /// The file to read.
    pub source_path: PathBuf,
    /// The files to write, in the order in which they are tried.
    pub targets: Seq<TargetView>,
    /// What was read from the source, once it has been read.
    pub contents: Option<Seq<u8>>,
    /// How many writes were done.
    pub successes: nat,
    /// The writes that failed, in the order in which they were tried.
    pub failures: Seq<CopyErrorView>,
}

impl JobView {
    /// A job of which nothing has been read or written yet.
    pub open spec fn fresh(source_path: PathBuf, targets: Seq<TargetView>) -> JobView {
        JobView { source_path, targets, contents: None, successes: 0, failures: Seq::empty() }
    }

    /// How many targets have been tried.
    pub open spec fn attempted(self) -> nat {
        self.successes + self.failures.len()
    }

    /// No more targets have been tried than there are, and none before the
    /// source was read.
    pub open spec fn wf(self) -> bool {
        &&& self.attempted() <= self.targets.len()
        &&& self.contents is None ==> self.attempted() == 0
    }

    /// The source has been read and every target has been tried.
    pub open spec fn finished(self) -> bool {
        self.contents is Some && self.attempted() >= self.targets.len()
    }

    /// What is to be done next: the source is read first; then the targets
    /// are written in their order, each with what was read from the source;
    /// then nothing is left.
    pub open spec fn next_step(self) -> StepView {
        match self.contents {
            None => StepView::Read { path: self.source_path },
            Some(contents) => {
                if self.attempted() < self.targets.len() {
                    StepView::Write { target: self.targets[self.attempted() as int], contents }
                } else {
                    StepView::Done
                }
            },
        }
    }

    /// The job after the source was read. What is read a second time is not
    /// taken.
    pub open spec fn source_read(self, contents: Seq<u8>) -> JobView {
        if self.contents is None {
            JobView { contents: Some(contents), ..self }
        } else {
            self
        }
    }

    /// The job after the write of its next target: one more success, or one
    /// more failure with the target's identifier and the reason. A job that
    /// has no target to write next stays as it is.
    pub open spec fn record_write(self, failure: Option<Seq<char>>) -> JobView {
        if self.contents is Some && self.attempted() < self.targets.len() {
            match failure {
                None => JobView { successes: self.successes + 1, ..self },
                Some(reason) => JobView {
                    failures: self.failures.push(
                        CopyErrorView::DestinationWriteFailure {
                            identifier: self.targets[self.attempted() as int].identifier,
                            reason,
                        },
                    ),
                    ..self
                },
            }
        } else {
            self
        }
    }

    /// The job after a run of writes, each the write of the target that was
    /// next.
    pub open spec fn run(self, results: Seq<Option<Seq<char>>>) -> JobView
        decreases results.len(),
    {
        if results.len() == 0 {
            self
        } else {
            self.run(results.drop_last()).record_write(results.last())
        }
    }

    /// What the job has come to so far.
    pub open spec fn outcome(self) -> OutcomeView {
        OutcomeView { successes: self.successes, failures: self.failures }
    }
}

/// The failure at one place of a run of writes: none where the write was
/// done.
pub open spec fn failure_at(
    targets: Seq<TargetView>,
    results: Seq<Option<Seq<char>>>,
    place: int,
) -> Option<CopyErrorView> {
    match results[place] {
        None => None,
        Some(reason) => Some(
            CopyErrorView::DestinationWriteFailure {
                identifier: targets[place].identifier,
                reason,
            },
        ),
    }
}

/// The failures of a run of writes, in the order of the targets.
pub open spec fn failures_of(targets: Seq<TargetView>, results: Seq<Option<Seq<char>>>) -> Seq<
    CopyErrorView,
> {
    Seq::new(results.len(), |place: int| failure_at(targets, results, place)).filter_map(
        |failure: Option<CopyErrorView>| failure,
    )
}

/// What a job that has read its source and written nothing has come to
/// after a run of writes that is no longer than its list of targets: it has
/// tried as many targets as there were writes, its failures are those of
/// the run and every other write is counted as a success.
pub proof fn lemma_run_of_writes(job: JobView, results: Seq<Option<Seq<char>>>)
    requires
        job.contents is Some,
        job.attempted() == 0,
        results.len() <= job.targets.len(),
    ensures
        job.run(results).source_path == job.source_path,
        job.run(results).targets == job.targets,
        job.run(results).contents == job.contents,
        job.run(results).attempted() == results.len(),
        job.run(results).failures == failures_of(job.targets, results),
    decreases results.len(),
{
    if results.len() == 0 {
        assert(job.failures =~= Seq::<CopyErrorView>::empty());
        assert(failures_of(job.targets, results) =~= Seq::<CopyErrorView>::empty());
    } else {
        let earlier = results.drop_last();
        lemma_run_of_writes(job, earlier);
        let places = Seq::new(results.len(), |place: int| failure_at(job.targets, results, place));
        let earlier_places = Seq::new(
            earlier.len(),
            |place: int| failure_at(job.targets, earlier, place),
        );
        assert(places.drop_last() =~= earlier_places);
        assert(places.last() == failure_at(job.targets, results, results.len() - 1));
        let pick = |failure: Option<CopyErrorView>| failure;
        assert(places.filter_map(pick) == match pick(places.last()) {
            Some(failure) => places.drop_last().filter_map(pick) + seq![failure],
            None => places.drop_last().filter_map(pick),
        });
        match results.last() {
            None => {},
            Some(reason) => {
                let failure = CopyErrorView::DestinationWriteFailure {
                    identifier: job.targets[results.len() - 1].identifier,
                    reason,
                };
                assert(earlier_places.filter_map(pick).push(failure) =~= earlier_places.filter_map(
                    pick,
                ) + seq![failure]);
            },
        }
    }
}

/// Every destination is tried, whatever happens to the others: a fresh job
/// that reads its source and takes the result of one write for each of its
/// targets is finished then and not before; its failures are the writes
/// that failed, each with its target's identifier and in the order of the
/// targets; every other target counts as a success.
pub proof fn law_every_destination_is_attempted(
    job: JobView,
    contents: Seq<u8>,
    results: Seq<Option<Seq<char>>>,
)
    requires
        job.contents is None,
        job.attempted() == 0,
        results.len() == job.targets.len(),
    ensures
        job.source_read(contents).run(results).finished(),
        forall|shorter: Seq<Option<Seq<char>>>|
            shorter.len() < results.len() ==> !(#[trigger] job.source_read(contents).run(
                shorter,
            )).finished(),
        job.source_read(contents).run(results).outcome().failures == failures_of(
            job.targets,
            results,
        ),
        job.source_read(contents).run(results).outcome().successes + failures_of(
            job.targets,
            results,
        ).len() == job.targets.len(),
{
    let reading = job.source_read(contents);
    lemma_run_of_writes(reading, results);
    assert forall|shorter: Seq<Option<Seq<char>>>| shorter.len() < results.len() implies !(
    #[trigger] reading.run(shorter)).finished() by {
        lemma_run_of_writes(reading, shorter);
    }
}

/// The source is read once, and what is written is what was read: a fresh
/// job asks for its source first and writes nothing before it has it; from
/// then on it never asks for the source again, and every write it asks for
/// is that of the next target with the content that was read.
pub proof fn law_writes_carry_what_was_read(
    job: JobView,
    contents: Seq<u8>,
    results: Seq<Option<Seq<char>>>,
)
    requires
        job.contents is None,
        job.attempted() == 0,
        results.len() <= job.targets.len(),
    ensures
        job.next_step() == (StepView::Read { path: job.source_path }),
        job.run(results) == job,
        job.source_read(contents).run(results).next_step() == if results.len()
            < job.targets.len() {
            StepView::Write { target: job.targets[results.len() as int], contents }
        } else {
            StepView::Done
        },
        forall|again: Seq<u8>| #[trigger]
            job.source_read(contents).run(results).source_read(again) == job.source_read(
                contents,
            ).run(results),
{
    lemma_run_of_writes(job.source_read(contents), results);
    lemma_run_before_reading(job, results);
}

/// Writes that are reported before the source was read change nothing.
pub proof fn lemma_run_before_reading(job: JobView, results: Seq<Option<Seq<char>>>)
    requires
        job.contents is None,
    ensures
        job.run(results) == job,
    decreases results.len(),
{
    if results.len() > 0 {
        lemma_run_before_reading(job, results.drop_last());
    }
}

/// A copy in progress.
pub struct CopyJob {
    source_path: PathBuf,
    targets: Vec<CopyTarget>,
    contents: Option<Vec<u8>>,
    successes: usize,
    failures: Vec<CopyError>,
}

impl View for CopyJob {
    type V = JobView;

    closed spec fn view(&self) -> JobView {
        JobView {
            source_path: self.source_path,
            targets: target_views(self.targets@),
            contents: match self.contents {
                Some(contents) => Some(contents@),
                None => None,
            },
            successes: self.successes as nat,
            failures: error_views(self.failures@),
        }
    }
}

impl CopyJob {
    #[verifier::type_invariant]
    spec fn well_formed(self) -> bool {
        self@.wf()
    }

    /// Starts a copy from the selection's source to its destinations.
    ///
    /// Fails, before anything is read or written, with `NoSourceSelected`
    /// where no source is chosen, else with `NoDestinationsSelected` where
    /// no destination is chosen, else with `SourceNotFound` where no record
    /// of the store carries the source. Otherwise the job reads the file of
    /// the first record that carries the source and writes, for each
    /// destination in turn, the file of the first record that carries it. A
    /// destination that no record carries is passed over.
    pub fn begin(selection: &CopySelection, store: &StateStore) -> (r: Result<CopyJob, CopyError>)
        ensures
            match r {
                Ok(job) => {
                    &&& selection@.source matches Some(source)
                    &&& selection@.destinations.len() > 0
                    &&& carries(store@.records, source)
                    &&& job@ == JobView::fresh(
                        path_of(store@.records, source),
                        targets_of(store@.records, selection@.destinations),
                    )
                    &&& job@.wf()
                },
                Err(CopyError::NoSourceSelected) => selection@.source is None,
                Err(CopyError::NoDestinationsSelected) => selection@.source is Some
                    && selection@.destinations.len() == 0,
                Err(CopyError::SourceNotFound) => {
                    &&& selection@.source matches Some(source)
                    &&& selection@.destinations.len() > 0
                    &&& !carries(store@.records, source)
                },
                Err(_) => false,
            },
    {
        let source = match selection.source() {
            Some(source) => source,
            None => {
                return Err(CopyError::NoSourceSelected);
            },
        };
        let destinations = selection.destinations();
        if destinations.len() == 0 {
            return Err(CopyError::NoDestinationsSelected);
        }
        let records = store.records();
        let source_path = match find_record(records, source.as_str()) {
            Some(place) => {
                proof {
                    lemma_first_with(record_views(records@), source@, place as int);
                    assert(record_views(records@)[place as int] == records@[place as int]@);
                }
                records[place].path.clone()
            },
            None => {
                return Err(CopyError::SourceNotFound);
            },
        };
        let ghost each = |d: Seq<char>| target_of(store@.records, d);
        let ghost wanted = selection@.destinations;
        let mut targets: Vec<CopyTarget> = Vec::new();
        let mut i: usize = 0;
        proof {
            assert(wanted.take(0).filter_map(each) =~= Seq::<TargetView>::empty());
            assert(target_views(targets@) =~= Seq::<TargetView>::empty());
        }
        while i < destinations.len()
            invariant
                i <= destinations@.len(),
                wanted == string_views(destinations@),
                record_views(records@) == store@.records,
                each == |d: Seq<char>| target_of(store@.records, d),
                target_views(targets@) == wanted.take(i as int).filter_map(each),
            decreases destinations@.len() - i,
        {
            let ghost before = target_views(targets@);
            proof {
                wanted.lemma_filter_map_take_succ(each, i as int);
                assert(wanted[i as int] == destinations@[i as int]@);
            }
            match find_record(records, destinations[i].as_str()) {
                Some(place) => {
                    let target = CopyTarget {
                        identifier: destinations[i].clone(),
                        path: records[place].path.clone(),
                    };
                    proof {
                        lemma_first_with(record_views(records@), wanted[i as int], place as int);
                        assert(record_views(records@)[place as int] == records@[place as int]@);
                        assert(each(wanted[i as int]) == Some(target@));
                    }
                    targets.push(target);
                    proof {
                        assert(target_views(targets@) =~= before.push(target@));
                        assert(target_views(targets@) =~= wanted.take(i as int + 1).filter_map(
                            each,
                        ));
                    }
                },
                None => {
                    proof {
                        assert(each(wanted[i as int]) is None);
                        assert(target_views(targets@) =~= wanted.take(i as int + 1).filter_map(
                            each,
                        ));
                    }
                },
            }
            i += 1;
        }
        proof {
            assert(wanted.take(destinations@.len() as int) =~= wanted);
        }
        let job = CopyJob {
            source_path,
            targets,
            contents: None,
            successes: 0,
            failures: Vec::new(),
        };
        proof {
            assert(job@.failures =~= Seq::<CopyErrorView>::empty());
        }
        Ok(job)
    }

    /// What is to be done next: read the source, write a target, or
    /// nothing.
    pub fn next_step(&self) -> (step: CopyStep<'_>)
        ensures
            step@ == self@.next_step(),
    {
        proof {
            use_type_invariant(self);
        }
        match &self.contents {
            None => CopyStep::Read { path: &self.source_path },
            Some(contents) => {
                let count = self.targets.len();
                let attempted = self.successes + self.failures.len();
                if attempted < count {
                    proof {
                        assert(target_views(self.targets@)[attempted as int]
                            == self.targets@[attempted as int]@);
                    }
                    CopyStep::Write { target: &self.targets[attempted], contents }
                } else {
                    CopyStep::Done
                }
            },
        }
    }

    /// Takes what was read from the source. Once the source has been read,
    /// what is read again is not taken.
    pub fn source_read(&mut self, contents: Vec<u8>)
        ensures
            final(self)@ == old(self)@.source_read(contents@),
            final(self)@.wf(),
    {
        proof {
            use_type_invariant(&*self);
        }
        if self.contents.is_none() {
            self.contents = Some(contents);
        }
    }

    /// Gives the copy up because its source could not be read. The job is
    /// used up: nothing can be written for it any more.
    pub fn source_unreadable(self, reason: String) -> (error: CopyError)
        ensures
            error@ == (CopyErrorView::SourceReadFailure { reason: reason@ }),
    {
        CopyError::SourceReadFailure { reason }
    }

    /// Takes the result of the write of the next target: `Ok` where the
    /// file was written, the reason where it was not. Where no target is to
    /// be written next nothing changes.
    pub fn record_write(&mut self, result: Result<(), String>)
        ensures
            final(self)@ == old(self)@.record_write(failure_reason(result)),
            final(self)@.wf(),
    {
        proof {
            use_type_invariant(&*self);
        }
        let count = self.targets.len();
        let attempted = self.successes + self.failures.len();
        if self.contents.is_some() && attempted < count {
            match result {
                Ok(_) => {
                    self.successes = self.successes + 1;
                },
                Err(reason) => {
                    let ghost before = self@;
                    let failure = CopyError::DestinationWriteFailure {
                        identifier: self.targets[attempted].identifier.clone(),
                        reason,
                    };
                    proof {
                        assert(target_views(self.targets@)[attempted as int]
                            == self.targets@[attempted as int]@);
                    }
                    let mut failures: Vec<CopyError> = Vec::new();
                    core::mem::swap(&mut self.failures, &mut failures);
                    failures.push(failure);
                    proof {
                        assert(error_views(failures@) =~= before.failures.push(failure@));
                    }
                    core::mem::swap(&mut self.failures, &mut failures);
                },
            }
        }
    }

    /// Whether the source has been read and every target has been tried.
    pub fn is_finished(&self) -> (r: bool)
        ensures
            r == self@.finished(),
    {
        proof {
            use_type_invariant(self);
        }
        let count = self.targets.len();
        self.contents.is_some() && self.successes + self.failures.len() >= count
    }

    /// What the copy has come to: the count of files written and the
    /// failures so far.
    pub fn into_outcome(self) -> (outcome: CopyOutcome)
        ensures
            outcome@ == self@.outcome(),
    {
        CopyOutcome { successes: self.successes, failures: self.failures }
    }
}

} // verus!
