//! The state store: the records of the last scan and, for each identifier,
//! where its lookup stands.

use crate::record::{
    record_views, EventView, Record, RecordView, ResolutionEvent, ResolutionStatus, StatusView,
};
use crate::text::string_eq;
use vstd::prelude::*;

verus! {

/// A record with its lookup set back to pending.
pub open spec fn reset(record: RecordView) -> RecordView {
    RecordView { resolution: StatusView::Pending, ..record }
}

/// A record after an event: with the event's status if it carries the
/// event's identifier, unchanged otherwise.
pub open spec fn updated(record: RecordView, event: EventView) -> RecordView {
    if record.identifier == event.identifier {
        RecordView { resolution: event.status, ..record }
    } else {
        record
    }
}

/// A store as its contracts see it.
pub struct StoreView {
    /// The records, in the order of the scan.
    pub records: Seq<RecordView>,
    /// Where the lookup of each known identifier stands.
    pub statuses: Map<Seq<char>, StatusView>,
}

impl StoreView {
    /// The store without records.
    pub open spec fn empty() -> StoreView {
        StoreView { records: Seq::empty(), statuses: Map::empty() }
    }

    /// The store after a new scan: it holds the scan's records and the
    /// identifiers of those records, every lookup pending. Nothing of the
    /// store before is left.
    pub open spec fn seed(self, records: Seq<RecordView>) -> StoreView {
        StoreView {
            records: records.map_values(|r: RecordView| reset(r)),
            statuses: Map::new(
                |id: Seq<char>|
                    exists|i: int|
                        0 <= i < records.len() && (#[trigger] records[i]).identifier == id,
                |id: Seq<char>| StatusView::Pending,
            ),
        }
    }

    /// The store after an event: every record that carries the event's
    /// identifier has the event's status, and so has the identifier itself,
    /// whether it was known before or not.
    pub open spec fn apply(self, event: EventView) -> StoreView {
        StoreView {
            records: self.records.map_values(|r: RecordView| updated(r, event)),
            statuses: self.statuses.insert(event.identifier, event.status),
        }
    }

    /// The store after a run of events, applied in their order.
    pub open spec fn apply_all(self, events: Seq<EventView>) -> StoreView
        decreases events.len(),
    {
        if events.len() == 0 {
            self
        } else {
            self.apply_all(events.drop_last()).apply(events.last())
        }
    }

    /// Every lookup is pending: that of each record and that of each known
    /// identifier.
    pub open spec fn all_pending(self) -> bool {
        &&& forall|i: int|
            0 <= i < self.records.len() ==> (#[trigger] self.records[i]).resolution is Pending
        &&& forall|id: Seq<char>| self.statuses.dom().contains(id) ==> self.statuses[id] is Pending
    }

    /// Whether some known identifier's lookup is pending.
    pub open spec fn has_pending(self) -> bool {
        exists|id: Seq<char>| self.statuses.dom().contains(id) && self.statuses[id] is Pending
    }
}

/// Seeding resets every lookup, whatever went before: after a seed every
/// status is pending, and a second seed with the same records, after any
/// run of events, gives the store that the first one gave.
pub proof fn law_seed_resets_every_status(
    store: StoreView,
    records: Seq<RecordView>,
    events: Seq<EventView>,
)
    ensures
        store.seed(records).all_pending(),
        store.seed(records).apply_all(events).seed(records).all_pending(),
        store.seed(records).apply_all(events).seed(records) == store.seed(records),
{
}

/// An event reaches every record of its identifier and no other: the
/// records keep their number, order, paths, names and identifiers; those
/// that carry the event's identifier take its status, the others keep
/// theirs.
pub proof fn law_event_updates_all_sharing_records(store: StoreView, event: EventView)
    ensures
        store.apply(event).records.len() == store.records.len(),
        forall|i: int|
            0 <= i < store.records.len() ==> {
                let before = #[trigger] store.records[i];
                let after = store.apply(event).records[i];
                &&& after.path == before.path
                &&& after.filename == before.filename
                &&& after.identifier == before.identifier
                &&& after.resolution == if before.identifier == event.identifier {
                    event.status
                } else {
                    before.resolution
                }
            },
        store.apply(event).statuses[event.identifier] == event.status,
{
}

/// Whether some event of the run is for the identifier.
pub open spec fn mentions(events: Seq<EventView>, identifier: Seq<char>) -> bool {
    exists|k: int| 0 <= k < events.len() && (#[trigger] events[k]).identifier == identifier
}

/// Whether place `k` holds the last event of the run for the identifier.
pub open spec fn is_last_for(events: Seq<EventView>, identifier: Seq<char>, k: int) -> bool {
    &&& 0 <= k < events.len()
    &&& events[k].identifier == identifier
    &&& forall|m: int| k < m < events.len() ==> (#[trigger] events[m]).identifier != identifier
}

/// The last event wins: after a run of events the records are those of
/// before, each with the status of the last event for its identifier, or
/// with its old status where no event was for it. The same holds of the
/// identifiers' statuses, and an identifier is known afterwards if it was
/// known before or an event was for it.
pub proof fn law_last_event_wins(store: StoreView, events: Seq<EventView>)
    ensures
        store.apply_all(events).records.len() == store.records.len(),
        forall|i: int|
            0 <= i < store.records.len() ==> {
                let before = #[trigger] store.records[i];
                let after = store.apply_all(events).records[i];
                &&& after.path == before.path
                &&& after.filename == before.filename
                &&& after.identifier == before.identifier
                &&& !mentions(events, before.identifier) ==> after.resolution == before.resolution
                &&& forall|k: int| #[trigger]
                    is_last_for(events, before.identifier, k) ==> after.resolution
                        == events[k].status
            },
        forall|id: Seq<char>| #[trigger]
            store.apply_all(events).statuses.dom().contains(id) <==> store.statuses.dom().contains(
                id,
            ) || mentions(events, id),
        forall|id: Seq<char>, k: int| #[trigger]
            is_last_for(events, id, k) ==> store.apply_all(events).statuses[id] == events[k].status,
        forall|id: Seq<char>|
            !mentions(events, id) ==> #[trigger] store.apply_all(events).statuses[id]
                == store.statuses[id],
    decreases events.len(),
{
    if events.len() > 0 {
        let earlier = events.drop_last();
        let last = events.last();
        let n = events.len() - 1;
        law_last_event_wins(store, earlier);
        let mid = store.apply_all(earlier);
        let after = store.apply_all(events);
        assert(after == mid.apply(last));
        assert(events[n] == last);
        assert forall|id: Seq<char>| mentions(events, id) <==> (mentions(earlier, id) || id
            == last.identifier) by {
            if mentions(events, id) {
                let k = choose|k: int| 0 <= k < events.len() && events[k].identifier == id;
                if k < n {
                    assert(earlier[k].identifier == id);
                }
            }
            if mentions(earlier, id) {
                let k = choose|k: int| 0 <= k < earlier.len() && earlier[k].identifier == id;
                assert(events[k].identifier == id);
            }
        }
        assert forall|id: Seq<char>, k: int| #[trigger]
            is_last_for(events, id, k) implies (if id == last.identifier {
            k == n
        } else {
            is_last_for(earlier, id, k)
        }) by {
            if id == last.identifier {
                if k < n {
                    assert(events[n].identifier != id);
                }
            } else {
                assert(k < n);
                assert forall|m: int| k < m < earlier.len() implies (
                #[trigger] earlier[m]).identifier != id by {
                    assert(events[m].identifier != id);
                }
            }
        }
        assert forall|i: int| 0 <= i < store.records.len() implies ({
            let before = #[trigger] store.records[i];
            let now = after.records[i];
            &&& now.path == before.path
            &&& now.filename == before.filename
            &&& now.identifier == before.identifier
            &&& !mentions(events, before.identifier) ==> now.resolution == before.resolution
            &&& forall|k: int| #[trigger]
                is_last_for(events, before.identifier, k) ==> now.resolution == events[k].status
        }) by {
            let before = store.records[i];
            assert(after.records[i] == updated(mid.records[i], last));
            assert forall|k: int| #[trigger]
                is_last_for(events, before.identifier, k) implies after.records[i].resolution
                == events[k].status by {
                if before.identifier != last.identifier {
                    assert(is_last_for(earlier, before.identifier, k));
                    assert(earlier[k] == events[k]);
                }
            }
        }
        assert forall|id: Seq<char>, k: int| #[trigger]
            is_last_for(events, id, k) implies after.statuses[id] == events[k].status by {
            if id != last.identifier {
                assert(is_last_for(earlier, id, k));
                assert(earlier[k] == events[k]);
            }
        }
    }
}

/// The status kept for one identifier.
struct StatusEntry {
    identifier: String,
    status: ResolutionStatus,
}

/// No identifier has two entries.
spec fn keys_distinct(entries: Seq<StatusEntry>) -> bool {
    forall|i: int, j: int|
        #![trigger entries[i], entries[j]]
        0 <= i < j < entries.len() ==> entries[i].identifier@ != entries[j].identifier@
}

/// Whether an identifier has an entry.
spec fn has_entry(entries: Seq<StatusEntry>, id: Seq<char>) -> bool {
    exists|i: int| 0 <= i < entries.len() && (#[trigger] entries[i]).identifier@ == id
}

/// The place of an identifier's entry.
spec fn entry_place(entries: Seq<StatusEntry>, id: Seq<char>) -> int {
    choose|i: int| 0 <= i < entries.len() && (#[trigger] entries[i]).identifier@ == id
}

/// The entries as a map from identifier to status.
spec fn entries_map(entries: Seq<StatusEntry>) -> Map<Seq<char>, StatusView> {
    Map::new(
        |id: Seq<char>| has_entry(entries, id),
        |id: Seq<char>| entries[entry_place(entries, id)].status@,
    )
}

/// The place of an identifier's entry, if it has one.
fn find_entry(entries: &Vec<StatusEntry>, identifier: &str) -> (place: Option<usize>)
    ensures
        match place {
            Some(i) => i < entries@.len() && entries@[i as int].identifier@ == identifier@,
            None => !has_entry(entries@, identifier@),
        },
{
    let mut i: usize = 0;
    while i < entries.len()
        invariant
            i <= entries@.len(),
            forall|j: int| 0 <= j < i ==> (#[trigger] entries@[j]).identifier@ != identifier@,
        decreases entries@.len() - i,
    {
        if string_eq(entries[i].identifier.as_str(), identifier) {
            return Some(i);
        }
        i += 1;
    }
    None
}

/// The authoritative list of records and the status of every identifier.
pub struct StateStore {
    records: Vec<Record>,
    entries: Vec<StatusEntry>,
}

impl View for StateStore {
    type V = StoreView;

    closed spec fn view(&self) -> StoreView {
        StoreView { records: record_views(self.records@), statuses: entries_map(self.entries@) }
    }
}

impl StateStore {
    #[verifier::type_invariant]
    spec fn well_formed(self) -> bool {
        keys_distinct(self.entries@)
    }

    /// A store without records.
    pub fn new() -> (store: StateStore)
        ensures
            store@ == StoreView::empty(),
    {
        let store = StateStore { records: Vec::new(), entries: Vec::new() };
        proof {
            assert(store@.records =~= Seq::<RecordView>::empty());
            assert(store@.statuses =~= Map::<Seq<char>, StatusView>::empty());
        }
        store
    }

    /// Replaces the records by those of a new scan and sets every lookup to
    /// pending. The identifiers known afterwards are those of the new
    /// records.
    pub fn seed(&mut self, records: Vec<Record>)
        ensures
            final(self)@ == old(self)@.seed(record_views(records@)),
    {
        let ghost given = record_views(records@);
        let mut records = records;
        let mut entries: Vec<StatusEntry> = Vec::new();
        let mut i: usize = 0;
        while i < records.len()
            invariant
                i <= records@.len(),
                records@.len() == given.len(),
                forall|j: int| 0 <= j < i ==> (#[trigger] records@[j])@ == reset(given[j]),
                forall|j: int| i <= j < records@.len() ==> (#[trigger] records@[j])@ == given[j],
                keys_distinct(entries@),
                forall|k: int|
                    0 <= k < entries@.len() ==> (#[trigger] entries@[k]).status@ is Pending,
                forall|id: Seq<char>|
                    has_entry(entries@, id) <==> exists|j: int|
                        0 <= j < i && (#[trigger] given[j]).identifier == id,
            decreases records@.len() - i,
        {
            let ghost before = entries@;
            records[i].resolution = ResolutionStatus::Pending;
            let known = find_entry(&entries, records[i].identifier.as_str());
            if known.is_none() {
                entries.push(
                    StatusEntry {
                        identifier: records[i].identifier.clone(),
                        status: ResolutionStatus::Pending,
                    },
                );
            }
            proof {
                assert forall|id: Seq<char>| has_entry(entries@, id) <==> exists|j: int|
                    0 <= j < i + 1 && (#[trigger] given[j]).identifier == id by {
                    if has_entry(entries@, id) {
                        let k = entry_place(entries@, id);
                        if k < before.len() {
                            assert(before[k].identifier@ == id);
                            assert(has_entry(before, id));
                        } else {
                            assert(given[i as int].identifier == id);
                        }
                    }
                    if exists|j: int| 0 <= j < i + 1 && (#[trigger] given[j]).identifier == id {
                        let j = choose|j: int|
                            0 <= j < i + 1 && (#[trigger] given[j]).identifier == id;
                        if j < i {
                            assert(has_entry(before, id));
                            let k = entry_place(before, id);
                            assert(entries@[k].identifier@ == id);
                        } else if known is Some {
                            assert(entries@[known->0 as int].identifier@ == id);
                        } else {
                            assert(entries@[before.len() as int].identifier@ == id);
                        }
                    }
                }
            }
            i += 1;
        }
        *self = StateStore { records, entries };
        proof {
            assert(self@.records =~= old(self)@.seed(given).records);
            assert forall|id: Seq<char>| #[trigger]
                self@.statuses.dom().contains(id) implies self@.statuses[id] is Pending by {
                let k = entry_place(self.entries@, id);
                assert(self.entries@[k].status@ is Pending);
            }
            assert(self@.statuses =~= old(self)@.seed(given).statuses);
        }
    }

    /// Takes an event in: every record that carries the event's identifier
    /// gets the event's status, and the identifier's status is set to it,
    /// whether or not the identifier belongs to the last scan.
    pub fn apply_event(&mut self, event: &ResolutionEvent)
        ensures
            final(self)@ == old(self)@.apply(event@),
    {
        proof {
            use_type_invariant(&*self);
        }
        let ghost given = record_views(self.records@);
        let ghost before = self.entries@;
        let mut records: Vec<Record> = Vec::new();
        let mut entries: Vec<StatusEntry> = Vec::new();
        core::mem::swap(&mut self.records, &mut records);
        core::mem::swap(&mut self.entries, &mut entries);
        let mut i: usize = 0;
        while i < records.len()
            invariant
                i <= records@.len(),
                records@.len() == given.len(),
                forall|j: int|
                    0 <= j < i ==> (#[trigger] records@[j])@ == updated(given[j], event@),
                forall|j: int| i <= j < records@.len() ==> (#[trigger] records@[j])@ == given[j],
            decreases records@.len() - i,
        {
            if string_eq(records[i].identifier.as_str(), event.identifier.as_str()) {
                records[i].resolution = event.status.clone();
            }
            i += 1;
        }
        match find_entry(&entries, event.identifier.as_str()) {
            Some(k) => {
                entries[k].status = event.status.clone();
                proof {
                    assert forall|id: Seq<char>| has_entry(entries@, id) <==> has_entry(
                        before,
                        id,
                    ) by {
                        if has_entry(entries@, id) {
                            let m = entry_place(entries@, id);
                            assert(before[m].identifier@ == id);
                        }
                        if has_entry(before, id) {
                            let m = entry_place(before, id);
                            assert(entries@[m].identifier@ == id);
                        }
                    }
                    assert forall|id: Seq<char>| has_entry(before, id) implies entries_map(
                        entries@,
                    )[id] == entries_map(before).insert(event@.identifier, event@.status)[id] by {
                        let m = entry_place(entries@, id);
                        let n = entry_place(before, id);
                        assert(before[m].identifier@ == id);
                        if m < n {
                            assert(before[m].identifier@ != before[n].identifier@);
                        } else if n < m {
                            assert(before[n].identifier@ != before[m].identifier@);
                        }
                        if id == event@.identifier {
                            if m < k {
                                assert(before[m].identifier@ != before[k as int].identifier@);
                            } else if k < m {
                                assert(before[k as int].identifier@ != before[m].identifier@);
                            }
                        }
                    }
                    assert(has_entry(before, event@.identifier)) by {
                        assert(before[k as int].identifier@ == event@.identifier);
                    }
                }
            },
            None => {
                entries.push(
                    StatusEntry {
                        identifier: event.identifier.clone(),
                        status: event.status.clone(),
                    },
                );
                proof {
                    let last = before.len() as int;
                    assert forall|id: Seq<char>| has_entry(entries@, id) <==> (has_entry(
                        before,
                        id,
                    ) || id == event@.identifier) by {
                        if has_entry(entries@, id) {
                            let m = entry_place(entries@, id);
                            if m < last {
                                assert(before[m].identifier@ == id);
                            }
                        }
                        if has_entry(before, id) {
                            let m = entry_place(before, id);
                            assert(entries@[m].identifier@ == id);
                        }
                        if id == event@.identifier {
                            assert(entries@[last].identifier@ == id);
                        }
                    }
                    assert forall|id: Seq<char>| has_entry(entries@, id) implies entries_map(
                        entries@,
                    )[id] == entries_map(before).insert(event@.identifier, event@.status)[id] by {
                        let m = entry_place(entries@, id);
                        if id != event@.identifier {
                            let n = entry_place(before, id);
                            assert(entries@[n].identifier@ == id);
                            if m < n {
                                assert(entries@[m].identifier@ != entries@[n].identifier@);
                            } else if n < m {
                                assert(entries@[n].identifier@ != entries@[m].identifier@);
                            }
                        } else {
                            if m < last {
                                assert(before[m].identifier@ == id);
                            }
                        }
                    }
                }
            },
        }
        *self = StateStore { records, entries };
        proof {
            assert(self@.records =~= old(self)@.apply(event@).records);
            assert(self@.statuses =~= old(self)@.apply(event@).statuses);
        }
    }

    /// The records, in the order of the scan.
    pub fn records(&self) -> (records: &Vec<Record>)
        ensures
            record_views(records@) == self@.records,
    {
        &self.records
    }

    /// Where the lookup of an identifier stands; `None` for an identifier
    /// that is not known.
    pub fn status_of(&self, identifier: &str) -> (status: Option<ResolutionStatus>)
        ensures
            match status {
                Some(s) => self@.statuses.dom().contains(identifier@) && self@.statuses[identifier@]
                    == s@,
                None => !self@.statuses.dom().contains(identifier@),
            },
    {
        proof {
            use_type_invariant(self);
        }
        match find_entry(&self.entries, identifier) {
            Some(k) => {
                proof {
                    let m = entry_place(self.entries@, identifier@);
                    if m < k {
                        assert(self.entries@[m].identifier@ != self.entries@[k as int].identifier@);
                    } else if k < m {
                        assert(self.entries@[k as int].identifier@ != self.entries@[m].identifier@);
                    }
                }
                Some(self.entries[k].status.clone())
            },
            None => None,
        }
    }

    /// Whether the lookup of some known identifier is still pending.
    pub fn has_pending(&self) -> (r: bool)
        ensures
            r == self@.has_pending(),
    {
        proof {
            use_type_invariant(self);
        }
        let mut i: usize = 0;
        while i < self.entries.len()
            invariant
                i <= self.entries@.len(),
                keys_distinct(self.entries@),
                forall|j: int| 0 <= j < i ==> !((#[trigger] self.entries@[j]).status@ is Pending),
            decreases self.entries@.len() - i,
        {
            if !self.entries[i].status.is_terminal() {
                proof {
                    let id = self.entries@[i as int].identifier@;
                    let m = entry_place(self.entries@, id);
                    if m < i {
                        assert(self.entries@[m].identifier@ != self.entries@[i as int].identifier@);
                    } else if i < m {
                        assert(self.entries@[i as int].identifier@ != self.entries@[m].identifier@);
                    }
                    assert(self@.statuses.dom().contains(id) && self@.statuses[id] is Pending);
                }
                return true;
            }
            i += 1;
        }
        proof {
            if self@.has_pending() {
                let id = choose|id: Seq<char>|
                    self@.statuses.dom().contains(id) && self@.statuses[id] is Pending;
                let m = entry_place(self.entries@, id);
                assert(self.entries@[m].status@ is Pending);
            }
        }
        false
    }

    /// Forgets every record and every identifier.
    pub fn clear(&mut self)
        ensures
            final(self)@ == StoreView::empty(),
    {
        *self = StateStore { records: Vec::new(), entries: Vec::new() };
        proof {
            assert(self@.records =~= Seq::<RecordView>::empty());
            assert(self@.statuses =~= Map::<Seq<char>, StatusView>::empty());
        }
    }
}

} // verus!
