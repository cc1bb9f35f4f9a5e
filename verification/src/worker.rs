//! The enrichment worker: which names to look up, in which order and at
//! what pace, and the event that each answer becomes.
//!
//! The worker here holds the decisions. Its caller runs it on a thread of
//! its own: it takes the next request, waits as long as the request says,
//! asks the service, hands the reply to `complete` and sends the event on.

use crate::lookup::{fetch_character_name, lookup_url, resolution_of, LookupReply};
use crate::lookup::{LOOKUP_URL_PREFIX, LOOKUP_URL_SUFFIX};
use crate::record::{EventView, ResolutionEvent};
use crate::text::{
    lemma_str_le_antisymmetric, lemma_str_le_reflexive, lemma_str_le_total,
    lemma_str_le_transitive, str_le, strictly_ascending, string_le, string_views,
};
use vstd::prelude::*;

verus! {

/// The pause between two lookups, in milliseconds.
pub const PACING_INTERVAL_MS: u64 = 500;

/// `queue` holds the identifiers of `identifiers`, each once, in ascending
/// order.
pub open spec fn is_lookup_queue_of(queue: Seq<Seq<char>>, identifiers: Seq<Seq<char>>) -> bool {
    &&& strictly_ascending(queue)
    &&& forall|id: Seq<char>| queue.contains(id) <==> identifiers.contains(id)
}

/// The pause before the lookup at a place in the queue: none before the
/// first, the pacing interval before every other.
pub open spec fn pause_before(place: nat) -> u64 {
    if place == 0 {
        0
    } else {
        PACING_INTERVAL_MS
    }
}

/// The first place in an ascending vector whose string is not below `key`.
fn lower_bound(sorted: &Vec<String>, key: &str) -> (p: usize)
    ensures
        p <= sorted@.len(),
        forall|j: int| 0 <= j < p ==> !str_le(key@, (#[trigger] sorted@[j])@),
        p < sorted@.len() ==> str_le(key@, sorted@[p as int]@),
{
    let mut p: usize = 0;
    while p < sorted.len() && !string_le(key, sorted[p].as_str())
        invariant
            p <= sorted@.len(),
            forall|j: int| 0 <= j < p ==> !str_le(key@, (#[trigger] sorted@[j])@),
        decreases sorted@.len() - p,
    {
        p += 1;
    }
    p
}

/// Inserting a string that an ascending sequence lacks, at the first place
/// whose string is not below it, keeps the sequence ascending.
pub proof fn lemma_insert_ascending(s: Seq<Seq<char>>, p: int, key: Seq<char>)
    requires
        strictly_ascending(s),
        0 <= p <= s.len(),
        forall|j: int| 0 <= j < p ==> !str_le(key, #[trigger] s[j]),
        p < s.len() ==> str_le(key, s[p]) && s[p] != key,
    ensures
        strictly_ascending(s.insert(p, key)),
        !s.contains(key),
{
    let t = s.insert(p, key);
    assert forall|j: int| 0 <= j < s.len() implies s[j] != key by {
        lemma_str_le_reflexive(key);
        if j > p {
            if s[j] == key {
                lemma_str_le_antisymmetric(s[p], key);
            }
        }
    }
    assert forall|i: int, j: int|
        #![trigger t[i], t[j]]
        0 <= i < j < t.len() implies str_le(t[i], t[j]) && t[i] != t[j] by {
        if i < p && j == p {
            lemma_str_le_total(key, s[i]);
        } else if i == p {
            if j - 1 > p {
                assert(str_le(s[p], s[j - 1]));
                lemma_str_le_transitive(key, s[p], s[j - 1]);
            }
        } else if i < p && j > p {
            assert(str_le(s[i], s[j - 1]) && s[i] != s[j - 1]);
        } else if i > p {
            assert(str_le(s[i - 1], s[j - 1]) && s[i - 1] != s[j - 1]);
        }
    }
}

/// The order of the lookups is fixed by the identifiers: two ascending
/// sequences without repeats that hold the same identifiers are the same
/// sequence.
pub proof fn law_lookup_queue_is_unique(a: Seq<Seq<char>>, b: Seq<Seq<char>>)
    requires
        strictly_ascending(a),
        strictly_ascending(b),
        forall|id: Seq<char>| a.contains(id) <==> b.contains(id),
    ensures
        a == b,
    decreases a.len(),
{
    if a.len() == 0 {
        if b.len() > 0 {
            assert(b.contains(b[0]));
        }
        assert(a =~= b);
    } else if b.len() == 0 {
        assert(a.contains(a[0]));
    } else {
        assert(a.contains(a[0]));
        assert(b.contains(b[0]));
        let in_b = choose|j: int| 0 <= j < b.len() && b[j] == a[0];
        let in_a = choose|j: int| 0 <= j < a.len() && a[j] == b[0];
        lemma_str_le_reflexive(a[0]);
        lemma_str_le_reflexive(b[0]);
        assert(str_le(b[0], a[0])) by {
            if in_b > 0 {
                assert(str_le(b[0], b[in_b]));
            }
        }
        assert(str_le(a[0], b[0])) by {
            if in_a > 0 {
                assert(str_le(a[0], a[in_a]));
            }
        }
        lemma_str_le_antisymmetric(a[0], b[0]);
        let rest_a = a.drop_first();
        let rest_b = b.drop_first();
        assert forall|i: int, j: int|
            #![trigger rest_a[i], rest_a[j]]
            0 <= i < j < rest_a.len() implies str_le(rest_a[i], rest_a[j]) && rest_a[i]
            != rest_a[j] by {
            assert(str_le(a[i + 1], a[j + 1]) && a[i + 1] != a[j + 1]);
        }
        assert forall|i: int, j: int|
            #![trigger rest_b[i], rest_b[j]]
            0 <= i < j < rest_b.len() implies str_le(rest_b[i], rest_b[j]) && rest_b[i]
            != rest_b[j] by {
            assert(str_le(b[i + 1], b[j + 1]) && b[i + 1] != b[j + 1]);
        }
        assert forall|id: Seq<char>| rest_a.contains(id) <==> rest_b.contains(id) by {
            if rest_a.contains(id) {
                let k = choose|k: int| 0 <= k < rest_a.len() && rest_a[k] == id;
                assert(a[k + 1] == id);
                assert(a[0] != a[k + 1]);
                assert(a.contains(id));
                let m = choose|m: int| 0 <= m < b.len() && b[m] == id;
                assert(rest_b[m - 1] == id);
            }
            if rest_b.contains(id) {
                let k = choose|k: int| 0 <= k < rest_b.len() && rest_b[k] == id;
                assert(b[k + 1] == id);
                assert(b[0] != b[k + 1]);
                assert(b.contains(id));
                let m = choose|m: int| 0 <= m < a.len() && a[m] == id;
                assert(rest_a[m - 1] == id);
            }
        }
        law_lookup_queue_is_unique(rest_a, rest_b);
        assert(a =~= seq![a[0]] + rest_a);
        assert(b =~= seq![b[0]] + rest_b);
    }
}

/// The identifiers to look up: each identifier of the input once, in
/// ascending order.
pub fn unique_identifiers(identifiers: &Vec<String>) -> (queue: Vec<String>)
    ensures
        is_lookup_queue_of(string_views(queue@), string_views(identifiers@)),
{
    let ghost input = string_views(identifiers@);
    let mut queue: Vec<String> = Vec::new();
    let mut i: usize = 0;
    while i < identifiers.len()
        invariant
            i <= identifiers@.len(),
            input == string_views(identifiers@),
            strictly_ascending(string_views(queue@)),
            forall|id: Seq<char>|
                string_views(queue@).contains(id) <==> input.take(i as int).contains(id),
        decreases identifiers@.len() - i,
    {
        let id = &identifiers[i];
        let p = lower_bound(&queue, id.as_str());
        let ghost before = string_views(queue@);
        let ghost held = queue@;
        let known = p < queue.len() && queue[p] == *id;
        let ghost seen = input.take(i as int);
        let ghost next = input.take(i as int + 1);
        proof {
            assert(next =~= seen.push(id@));
            assert forall|j: int| 0 <= j < p implies !str_le(id@, #[trigger] before[j]) by {
                assert(before[j] == held[j]@);
            }
            if p < before.len() {
                assert(before[p as int] == held[p as int]@);
            }
            assert forall|x: Seq<char>| next.contains(x) <==> seen.contains(x) || x == id@ by {
                if next.contains(x) && x != id@ {
                    let m = choose|m: int| 0 <= m < next.len() && next[m] == x;
                    assert(seen[m] == x);
                }
                if seen.contains(x) {
                    let m = choose|m: int| 0 <= m < seen.len() && seen[m] == x;
                    assert(next[m] == x);
                }
                if x == id@ {
                    assert(next[i as int] == x);
                }
            }
        }
        if !known {
            queue.insert(p, id.clone());
            proof {
                let after = string_views(queue@);
                assert(after =~= before.insert(p as int, id@));
                lemma_insert_ascending(before, p as int, id@);
                assert forall|x: Seq<char>| after.contains(x) <==> before.contains(x) || x
                    == id@ by {
                    if after.contains(x) && x != id@ {
                        let k = choose|k: int| 0 <= k < after.len() && after[k] == x;
                        if k < p {
                            assert(before[k] == x);
                        } else {
                            assert(before[k - 1] == x);
                        }
                    }
                    if before.contains(x) {
                        let k = choose|k: int| 0 <= k < before.len() && before[k] == x;
                        if k < p {
                            assert(after[k] == x);
                        } else {
                            assert(after[k + 1] == x);
                        }
                    }
                    if x == id@ {
                        assert(after[p as int] == x);
                    }
                }
            }
        } else {
            proof {
                assert(before.contains(id@));
            }
        }
        i += 1;
    }
    proof {
        assert(input.take(identifiers@.len() as int) =~= input);
    }
    queue
}

/// One lookup for the caller to make.
#[derive(Debug, PartialEq, Eq)]
pub struct LookupRequest {
    /// The identifier asked for.
    pub identifier: String,
    /// The address to ask.
    pub url: String,
    /// How long to wait before asking, in milliseconds.
    pub delay_ms: u64,
}

/// A `LookupRequest` with its texts as sequences of characters.
pub struct RequestView {
    pub identifier: Seq<char>,
    pub url: Seq<char>,
    pub delay_ms: u64,
}

impl View for LookupRequest {
    type V = RequestView;

    open spec fn view(&self) -> RequestView {
        RequestView { identifier: self.identifier@, url: self.url@, delay_ms: self.delay_ms }
    }
}

/// A worker as its contracts see it: the identifiers to look up, in the
/// order of the lookups, and how many of them have been answered.
pub struct WorkerView {
    pub queue: Seq<Seq<char>>,
    pub answered: nat,
}

impl WorkerView {
    /// The queue is ascending and holds nothing twice, and no more answers
    /// were taken than it has identifiers.
    pub open spec fn wf(self) -> bool {
        strictly_ascending(self.queue) && self.answered <= self.queue.len()
    }

    /// Every identifier has been answered.
    pub open spec fn finished(self) -> bool {
        self.answered >= self.queue.len()
    }

    /// The lookup to make next, if any is left.
    pub open spec fn next_request(self) -> Option<RequestView> {
        if self.answered < self.queue.len() {
            let identifier = self.queue[self.answered as int];
            Some(
                RequestView {
                    identifier,
                    url: LOOKUP_URL_PREFIX@ + identifier + LOOKUP_URL_SUFFIX@,
                    delay_ms: pause_before(self.answered),
                },
            )
        } else {
            None
        }
    }

    /// The event that a reply to the next lookup becomes; none once every
    /// identifier has been answered.
    pub open spec fn event_for(self, reply: LookupReply) -> Option<EventView> {
        if self.answered < self.queue.len() {
            Some(
                EventView {
                    identifier: self.queue[self.answered as int],
                    status: resolution_of(reply),
                },
            )
        } else {
            None
        }
    }

    /// The worker after a reply to its next lookup.
    pub open spec fn complete(self, reply: LookupReply) -> WorkerView {
        if self.answered < self.queue.len() {
            WorkerView { queue: self.queue, answered: self.answered + 1 }
        } else {
            self
        }
    }

    /// The worker after a run of replies, each taken as the answer to the
    /// lookup that was next.
    pub open spec fn run(self, replies: Seq<LookupReply>) -> WorkerView
        decreases replies.len(),
    {
        if replies.len() == 0 {
            self
        } else {
            self.run(replies.drop_last()).complete(replies.last())
        }
    }

    /// The events that a run of replies gives, in the order of the replies.
    pub open spec fn emitted(self, replies: Seq<LookupReply>) -> Seq<EventView>
        decreases replies.len(),
    {
        if replies.len() == 0 {
            Seq::empty()
        } else {
            let earlier = self.emitted(replies.drop_last());
            match self.run(replies.drop_last()).event_for(replies.last()) {
                Some(event) => earlier.push(event),
                None => earlier,
            }
        }
    }
}

/// What a fresh worker has done after a run of replies: it has answered as
/// many identifiers as there were replies, up to the length of its queue,
/// and has given one event for each, in the order of the queue.
pub proof fn lemma_run_of_fresh_worker(worker: WorkerView, replies: Seq<LookupReply>)
    requires
        worker.answered == 0,
    ensures
        worker.run(replies).queue == worker.queue,
        worker.run(replies).answered == if replies.len() <= worker.queue.len() {
            replies.len()
        } else {
            worker.queue.len()
        },
        worker.emitted(replies).len() == worker.run(replies).answered,
        forall|k: int|
            0 <= k < worker.emitted(replies).len() ==> #[trigger] worker.emitted(replies)[k]
                == (EventView { identifier: worker.queue[k], status: resolution_of(replies[k]) }),
    decreases replies.len(),
{
    if replies.len() > 0 {
        lemma_run_of_fresh_worker(worker, replies.drop_last());
    }
}

/// A worker looks every unique identifier up once and gives one event for
/// it: started on a list of identifiers, and given a reply to each of its
/// lookups, it ends after as many lookups as the list has different
/// identifiers, and every identifier of the list is the identifier of one
/// event and of no second one. The events come in the order of the lookups,
/// which is the ascending order of the identifiers, each with what its
/// reply means.
pub proof fn law_one_event_per_unique_identifier(
    identifiers: Seq<Seq<char>>,
    worker: WorkerView,
    replies: Seq<LookupReply>,
)
    requires
        is_lookup_queue_of(worker.queue, identifiers),
        worker.answered == 0,
        replies.len() == worker.queue.len(),
    ensures
        worker.run(replies).finished(),
        forall|shorter: Seq<LookupReply>|
            shorter.len() < replies.len() ==> !(#[trigger] worker.run(shorter)).finished(),
        worker.emitted(replies).len() == identifiers.to_set().len(),
        forall|id: Seq<char>|
            identifiers.contains(id) ==> exists|k: int|
                0 <= k < worker.emitted(replies).len() && (#[trigger] worker.emitted(
                    replies,
                )[k]).identifier == id,
        forall|k: int, m: int|
            #![trigger worker.emitted(replies)[k], worker.emitted(replies)[m]]
            0 <= k < worker.emitted(replies).len() && 0 <= m < worker.emitted(replies).len()
                && worker.emitted(replies)[k].identifier == worker.emitted(
                replies,
            )[m].identifier ==> k == m,
        forall|k: int|
            0 <= k < worker.emitted(replies).len() ==> identifiers.contains(
                (#[trigger] worker.emitted(replies)[k]).identifier,
            ),
        forall|k: int|
            0 <= k < worker.emitted(replies).len() ==> #[trigger] worker.emitted(replies)[k]
                == (EventView { identifier: worker.queue[k], status: resolution_of(replies[k]) }),
{
    let queue = worker.queue;
    let events = worker.emitted(replies);
    lemma_run_of_fresh_worker(worker, replies);
    assert forall|shorter: Seq<LookupReply>| shorter.len() < replies.len() implies !(
    #[trigger] worker.run(shorter)).finished() by {
        lemma_run_of_fresh_worker(worker, shorter);
    }
    assert(queue.no_duplicates());
    queue.unique_seq_to_set();
    assert(queue.to_set() =~= identifiers.to_set());
    assert forall|id: Seq<char>| identifiers.contains(id) implies exists|k: int|
        0 <= k < events.len() && (#[trigger] events[k]).identifier == id by {
        assert(queue.contains(id));
        let k = choose|k: int| 0 <= k < queue.len() && queue[k] == id;
        assert(events[k].identifier == id);
    }
    assert forall|k: int, m: int|
        #![trigger events[k], events[m]]
        0 <= k < events.len() && 0 <= m < events.len() && events[k].identifier
            == events[m].identifier implies k == m by {
        if k < m {
            assert(queue[k] != queue[m]);
        } else if m < k {
            assert(queue[m] != queue[k]);
        }
    }
    assert forall|k: int| 0 <= k < events.len() implies identifiers.contains(
        (#[trigger] events[k]).identifier,
    ) by {
        assert(queue.contains(queue[k]));
    }
}

/// The background worker of one scan.
pub struct EnrichmentWorker {
    queue: Vec<String>,
    answered: usize,
}

impl View for EnrichmentWorker {
    type V = WorkerView;

    closed spec fn view(&self) -> WorkerView {
        WorkerView { queue: string_views(self.queue@), answered: self.answered as nat }
    }
}

impl EnrichmentWorker {
    #[verifier::type_invariant]
    spec fn well_formed(self) -> bool {
        self@.wf()
    }

    /// A worker for the identifiers of a scan. It will look each different
    /// identifier up once, in ascending order.
    pub fn start(identifiers: &Vec<String>) -> (worker: EnrichmentWorker)
        ensures
            is_lookup_queue_of(worker@.queue, string_views(identifiers@)),
            worker@.answered == 0,
            worker@.wf(),
    {
        EnrichmentWorker { queue: unique_identifiers(identifiers), answered: 0 }
    }

    /// The lookup to make next: the identifier, the address to ask and the
    /// pause to make first. `None` once every identifier has been answered.
    pub fn next_request(&self) -> (request: Option<LookupRequest>)
        ensures
            match request {
                Some(r) => self@.next_request() == Some(r@),
                None => self@.next_request() is None,
            },
    {
        proof {
            use_type_invariant(self);
        }
        if self.answered < self.queue.len() {
            let identifier = self.queue[self.answered].clone();
            let url = lookup_url(identifier.as_str());
            let delay_ms = if self.answered == 0 {
                0
            } else {
                PACING_INTERVAL_MS
            };
            Some(LookupRequest { identifier, url, delay_ms })
        } else {
            None
        }
    }

    /// Takes the reply to the lookup that was next and gives the event to
    /// send on. Once every identifier has been answered it gives `None` and
    /// changes nothing.
    pub fn complete(&mut self, reply: &LookupReply) -> (event: Option<ResolutionEvent>)
        ensures
            final(self)@ == old(self)@.complete(*reply),
            final(self)@.wf(),
            match event {
                Some(e) => old(self)@.event_for(*reply) == Some(e@),
                None => old(self)@.event_for(*reply) is None,
            },
    {
        proof {
            use_type_invariant(&*self);
        }
        if self.answered < self.queue.len() {
            let identifier = self.queue[self.answered].clone();
            let status = fetch_character_name(reply);
            self.answered = self.answered + 1;
            Some(ResolutionEvent { identifier, status })
        } else {
            None
        }
    }

    /// Whether every identifier has been answered.
    pub fn is_finished(&self) -> (r: bool)
        ensures
            r == self@.finished(),
    {
        self.answered >= self.queue.len()
    }

    /// How many lookups are still to be made.
    pub fn remaining(&self) -> (n: usize)
        ensures
            n == self@.queue.len() - self@.answered,
    {
        proof {
            use_type_invariant(self);
        }
        self.queue.len() - self.answered
    }
}

} // verus!
