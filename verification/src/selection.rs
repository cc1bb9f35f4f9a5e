//! The copy selection: at most one source and a set of destinations, of
//! which the source is never one.

use crate::text::{position_of, string_eq, string_views};
use vstd::prelude::*;
use vstd::seq_lib::*;

verus! {

/// A sequence of identifiers without the given one, where the sequence
/// holds it at most once.
pub open spec fn without(identifiers: Seq<Seq<char>>, identifier: Seq<char>) -> Seq<Seq<char>> {
    if identifiers.contains(identifier) {
        identifiers.remove(identifiers.index_of(identifier))
    } else {
        identifiers
    }
}

/// A selection as its contracts see it.
pub struct SelectionView {
    /// The identifier to copy from, if one is chosen.
    pub source: Option<Seq<char>>,
    /// The identifiers to copy to, in the order in which they were chosen.
    pub destinations: Seq<Seq<char>>,
}

impl SelectionView {
    /// No destination is chosen twice, and the source is no destination.
    pub open spec fn wf(self) -> bool {
        &&& self.destinations.no_duplicates()
        &&& self.source matches Some(source) ==> !self.destinations.contains(source)
    }

    /// Nothing is chosen.
    pub open spec fn empty() -> SelectionView {
        SelectionView { source: None, destinations: Seq::empty() }
    }

    /// The selection after `identifier` was chosen as the source: it is the
    /// source, and no longer a destination.
    pub open spec fn select_source(self, identifier: Seq<char>) -> SelectionView {
        SelectionView {
            source: Some(identifier),
            destinations: without(self.destinations, identifier),
        }
    }

    /// The selection without a source.
    pub open spec fn clear_source(self) -> SelectionView {
        SelectionView { source: None, destinations: self.destinations }
    }

    /// The selection after `identifier` was chosen as a destination. The
    /// source cannot be chosen, and a destination is not chosen twice: in
    /// both cases nothing changes.
    pub open spec fn add_destination(self, identifier: Seq<char>) -> SelectionView {
        if self.source == Some(identifier) || self.destinations.contains(identifier) {
            self
        } else {
            SelectionView {
                source: self.source,
                destinations: self.destinations.push(identifier),
            }
        }
    }

    /// The selection after `identifier` was taken from the destinations.
    pub open spec fn remove_destination(self, identifier: Seq<char>) -> SelectionView {
        SelectionView {
            source: self.source,
            destinations: without(self.destinations, identifier),
        }
    }

    /// Whether a copy can be asked for: a source is chosen, and at least
    /// one destination.
    pub open spec fn can_copy(self) -> bool {
        self.source is Some && self.destinations.len() > 0
    }
}

/// What `without` leaves of a sequence that holds nothing twice: the
/// other identifiers, in their order, and none twice.
pub proof fn lemma_without(identifiers: Seq<Seq<char>>, identifier: Seq<char>)
    requires
        identifiers.no_duplicates(),
    ensures
        !without(identifiers, identifier).contains(identifier),
        forall|d: Seq<char>|
            d != identifier ==> (without(identifiers, identifier).contains(d)
                <==> identifiers.contains(d)),
        without(identifiers, identifier).no_duplicates(),
{
    let rest = without(identifiers, identifier);
    if identifiers.contains(identifier) {
        let place = identifiers.index_of(identifier);
        assert(identifiers[place] == identifier);
        assert(!rest.contains(identifier)) by {
            if rest.contains(identifier) {
                let k = choose|k: int| 0 <= k < rest.len() && rest[k] == identifier;
                if k < place {
                    assert(identifiers[k] == identifiers[place]);
                } else {
                    assert(identifiers[k + 1] == identifiers[place]);
                }
            }
        }
        assert forall|d: Seq<char>| d != identifier implies (rest.contains(d)
            <==> identifiers.contains(d)) by {
            if rest.contains(d) {
                let k = choose|k: int| 0 <= k < rest.len() && rest[k] == d;
                if k < place {
                    assert(identifiers[k] == d);
                } else {
                    assert(identifiers[k + 1] == d);
                }
            }
            if identifiers.contains(d) {
                let k = choose|k: int| 0 <= k < identifiers.len() && identifiers[k] == d;
                if k < place {
                    assert(rest[k] == d);
                } else {
                    assert(rest[k - 1] == d);
                }
            }
        }
        assert forall|i: int, j: int|
            0 <= i < rest.len() && 0 <= j < rest.len() && i != j implies rest[i] != rest[j] by {
            let m = if i < place {
                i
            } else {
                i + 1
            };
            let n = if j < place {
                j
            } else {
                j + 1
            };
            assert(identifiers[m] != identifiers[n]);
        }
    }
}

/// Taking out the place that holds an identifier, from a sequence that
/// holds nothing twice, is taking the identifier out.
pub proof fn lemma_remove_is_without(identifiers: Seq<Seq<char>>, place: int)
    requires
        identifiers.no_duplicates(),
        0 <= place < identifiers.len(),
    ensures
        identifiers.remove(place) == without(identifiers, identifiers[place]),
{
    let identifier = identifiers[place];
    assert(identifiers.contains(identifier));
    let found = identifiers.index_of(identifier);
    assert(identifiers[found] == identifiers[place]);
}

/// Choosing a source takes it out of the destinations: afterwards the
/// chosen identifier is the source and no destination, and the other
/// destinations are those that were chosen before.
pub proof fn law_source_is_never_a_destination(selection: SelectionView, identifier: Seq<char>)
    requires
        selection.wf(),
    ensures
        selection.select_source(identifier).wf(),
        selection.select_source(identifier).source == Some(identifier),
        !selection.select_source(identifier).destinations.contains(identifier),
        forall|d: Seq<char>|
            d != identifier ==> (selection.select_source(identifier).destinations.contains(d)
                <==> selection.destinations.contains(d)),
{
    lemma_without(selection.destinations, identifier);
}

/// Every change of a selection keeps it well formed.
pub proof fn law_selection_stays_well_formed(selection: SelectionView, identifier: Seq<char>)
    requires
        selection.wf(),
    ensures
        SelectionView::empty().wf(),
        selection.select_source(identifier).wf(),
        selection.clear_source().wf(),
        selection.add_destination(identifier).wf(),
        selection.remove_destination(identifier).wf(),
{
    lemma_without(selection.destinations, identifier);
    if selection.source is Some {
        lemma_without(selection.destinations, identifier);
        let source = selection.source->0;
        if source != identifier {
            assert(!without(selection.destinations, identifier).contains(source));
        }
    }
    let added = selection.destinations.push(identifier);
    if !selection.destinations.contains(identifier) {
        assert(added.no_duplicates());
        if selection.source is Some && selection.source != Some(identifier) {
            let source = selection.source->0;
            if added.contains(source) {
                let j = choose|j: int| 0 <= j < added.len() && added[j] == source;
                assert(selection.destinations[j] == source);
            }
        }
    }
}

/// What is chosen for a copy.
pub struct CopySelection {
    source: Option<String>,
    destinations: Vec<String>,
}

impl View for CopySelection {
    type V = SelectionView;

    closed spec fn view(&self) -> SelectionView {
        SelectionView {
            source: match self.source {
                Some(source) => Some(source@),
                None => None,
            },
            destinations: string_views(self.destinations@),
        }
    }
}

impl CopySelection {
    #[verifier::type_invariant]
    spec fn well_formed(self) -> bool {
        self@.wf()
    }

    /// A selection with nothing chosen.
    pub fn new() -> (selection: CopySelection)
        ensures
            selection@ == SelectionView::empty(),
            selection@.wf(),
    {
        let selection = CopySelection { source: None, destinations: Vec::new() };
        proof {
            assert(selection@.destinations =~= Seq::<Seq<char>>::empty());
        }
        selection
    }

    /// The source, if one is chosen.
    pub fn source(&self) -> (source: Option<&String>)
        ensures
            self@.wf(),
            match source {
                Some(s) => self@.source == Some(s@),
                None => self@.source is None,
            },
    {
        proof {
            use_type_invariant(self);
        }
        self.source.as_ref()
    }

    /// The destinations, in the order in which they were chosen.
    pub fn destinations(&self) -> (destinations: &Vec<String>)
        ensures
            self@.wf(),
            string_views(destinations@) == self@.destinations,
    {
        proof {
            use_type_invariant(self);
        }
        &self.destinations
    }

    /// Whether the identifier is the source.
    pub fn is_source(&self, identifier: &str) -> (r: bool)
        ensures
            r == (self@.source == Some(identifier@)),
    {
        match &self.source {
            Some(source) => string_eq(source.as_str(), identifier),
            None => false,
        }
    }

    /// Whether the identifier is a destination.
    pub fn is_destination(&self, identifier: &str) -> (r: bool)
        ensures
            r == self@.destinations.contains(identifier@),
    {
        let place = position_of(&self.destinations, identifier);
        proof {
            if place is Some {
                assert(string_views(self.destinations@)[place->0 as int] == identifier@);
            }
        }
        place.is_some()
    }

    /// Chooses the source. If the identifier was a destination it is one no
    /// longer.
    pub fn select_source(&mut self, identifier: String)
        ensures
            final(self)@ == old(self)@.select_source(identifier@),
            final(self)@.wf(),
    {
        proof {
            use_type_invariant(&*self);
            law_selection_stays_well_formed(self@, identifier@);
        }
        let mut destinations: Vec<String> = Vec::new();
        core::mem::swap(&mut self.destinations, &mut destinations);
        take_out(&mut destinations, identifier.as_str());
        *self = CopySelection { source: Some(identifier), destinations };
    }

    /// Leaves the selection without a source.
    pub fn clear_source(&mut self)
        ensures
            final(self)@ == old(self)@.clear_source(),
            final(self)@.wf(),
    {
        proof {
            use_type_invariant(&*self);
        }
        self.source = None;
    }

    /// Chooses a destination. Nothing changes if the identifier is the
    /// source or is a destination already. Returns whether the identifier is
    /// a destination afterwards.
    pub fn add_destination(&mut self, identifier: String) -> (chosen: bool)
        ensures
            final(self)@ == old(self)@.add_destination(identifier@),
            final(self)@.wf(),
            chosen == final(self)@.destinations.contains(identifier@),
    {
        proof {
            use_type_invariant(&*self);
            law_selection_stays_well_formed(self@, identifier@);
        }
        if self.is_source(identifier.as_str()) {
            return false;
        }
        if self.is_destination(identifier.as_str()) {
            return true;
        }
        let ghost before = self@;
        let mut destinations: Vec<String> = Vec::new();
        core::mem::swap(&mut self.destinations, &mut destinations);
        destinations.push(identifier);
        proof {
            assert(self@.source == before.source);
            assert(string_views(destinations@) =~= before.destinations.push(identifier@));
            assert(before.add_destination(identifier@).wf());
        }
        core::mem::swap(&mut self.destinations, &mut destinations);
        proof {
            assert(self@.destinations[before.destinations.len() as int] == identifier@);
        }
        true
    }

    /// Takes an identifier from the destinations.
    pub fn remove_destination(&mut self, identifier: &str)
        ensures
            final(self)@ == old(self)@.remove_destination(identifier@),
            final(self)@.wf(),
    {
        proof {
            use_type_invariant(&*self);
            law_selection_stays_well_formed(self@, identifier@);
        }
        let ghost before = self@;
        let mut destinations: Vec<String> = Vec::new();
        core::mem::swap(&mut self.destinations, &mut destinations);
        take_out(&mut destinations, identifier);
        proof {
            assert(self@.source == before.source);
            assert(string_views(destinations@) == before.remove_destination(
                identifier@,
            ).destinations);
        }
        core::mem::swap(&mut self.destinations, &mut destinations);
    }

    /// Leaves nothing chosen.
    pub fn clear(&mut self)
        ensures
            final(self)@ == SelectionView::empty(),
            final(self)@.wf(),
    {
        *self = CopySelection { source: None, destinations: Vec::new() };
        proof {
            assert(self@.destinations =~= Seq::<Seq<char>>::empty());
        }
    }

    /// Whether a copy can be asked for: a source is chosen, and at least
    /// one destination.
    pub fn can_copy(&self) -> (r: bool)
        ensures
            r == self@.can_copy(),
    {
        self.source.is_some() && self.destinations.len() > 0
    }

    /// How many destinations are chosen.
    pub fn destination_count(&self) -> (n: usize)
        ensures
            n == self@.destinations.len(),
    {
        self.destinations.len()
    }
}

/// Takes an identifier out of a vector that holds none twice.
fn take_out(identifiers: &mut Vec<String>, identifier: &str)
    requires
        string_views(old(identifiers)@).no_duplicates(),
    ensures
        string_views(final(identifiers)@) == without(string_views(old(identifiers)@), identifier@),
{
    let ghost before = string_views(identifiers@);
    match position_of(identifiers, identifier) {
        Some(place) => {
            proof {
                assert(before[place as int] == identifier@);
                lemma_remove_is_without(before, place as int);
            }
            let _ = identifiers.remove(place);
            proof {
                assert(string_views(identifiers@) =~= before.remove(place as int));
            }
        },
        None => {},
    }
}

} // verus!
