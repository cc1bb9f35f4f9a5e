//! Sorting records by identifier.

use crate::record::{record_views, Record, RecordView};
use crate::text::{
    lemma_str_le_antisymmetric, lemma_str_le_reflexive, lemma_str_le_total,
    lemma_str_le_transitive, str_le, string_le,
};
use vstd::prelude::*;
use vstd::seq_lib::*;

verus! {

/// The identifiers never go down along the sequence.
pub open spec fn sorted_by_identifier(s: Seq<RecordView>) -> bool {
    forall|i: int, j: int|
        0 <= i <= j < s.len() ==> str_le(#[trigger] s[i].identifier, #[trigger] s[j].identifier)
}

/// The records of `s` that carry the identifier `id`, in the order in which
/// they stand in `s`.
pub open spec fn with_identifier(s: Seq<RecordView>, id: Seq<char>) -> Seq<RecordView> {
    s.filter(|r: RecordView| r.identifier == id)
}

/// `out` is `input` sorted by identifier, with records that share an
/// identifier left in the order they had.
pub open spec fn is_stable_sort_of(out: Seq<RecordView>, input: Seq<RecordView>) -> bool {
    &&& sorted_by_identifier(out)
    &&& forall|id: Seq<char>| #[trigger] with_identifier(out, id) == with_identifier(input, id)
}

/// Putting `x` in front of `s` puts it in front of the records of its own
/// identifier and leaves the other identifiers' records as they were.
pub proof fn lemma_group_of_prepend(s: Seq<RecordView>, x: RecordView, id: Seq<char>)
    ensures
        with_identifier(seq![x] + s, id) == if id == x.identifier {
            seq![x] + with_identifier(s, id)
        } else {
            with_identifier(s, id)
        },
{
    let keep = |r: RecordView| r.identifier == id;
    s.lemma_filter_prepend(x, keep);
    if id != x.identifier {
        assert(Seq::<RecordView>::empty() + s.filter(keep) =~= s.filter(keep));
    }
}

/// No record of a sequence carries `id`: none is left when the sequence is
/// narrowed to `id`.
pub proof fn lemma_group_absent(s: Seq<RecordView>, id: Seq<char>)
    requires
        forall|j: int| 0 <= j < s.len() ==> (#[trigger] s[j]).identifier != id,
    ensures
        with_identifier(s, id) == Seq::<RecordView>::empty(),
{
    let keep = |r: RecordView| r.identifier == id;
    let kept = s.filter(keep);
    if kept.len() > 0 {
        let r = kept[0];
        s.lemma_filter_pred(keep, 0);
        assert(kept.contains(r));
        s.lemma_filter_contains_rev(keep, r);
        let j = choose|j: int| 0 <= j < s.len() && s[j] == r;
        assert(s[j].identifier == id);
    }
    assert(kept =~= Seq::<RecordView>::empty());
}

/// Inserting `x` into a sorted sequence, behind the records whose
/// identifier is strictly smaller and in front of all others, keeps the
/// sequence sorted and puts `x` in front of the records of its own
/// identifier.
pub proof fn lemma_insert_in_order(s: Seq<RecordView>, p: int, x: RecordView)
    requires
        sorted_by_identifier(s),
        0 <= p <= s.len(),
        forall|j: int| 0 <= j < p ==> !str_le(x.identifier, (#[trigger] s[j]).identifier),
        p < s.len() ==> str_le(x.identifier, s[p].identifier),
    ensures
        sorted_by_identifier(s.insert(p, x)),
        forall|id: Seq<char>| #[trigger]
            with_identifier(s.insert(p, x), id) == with_identifier(seq![x] + s, id),
{
    let t = s.insert(p, x);
    assert forall|i: int, j: int| 0 <= i <= j < t.len() implies str_le(
        #[trigger] t[i].identifier,
        #[trigger] t[j].identifier,
    ) by {
        lemma_str_le_reflexive(x.identifier);
        if i < p && j == p {
            lemma_str_le_total(x.identifier, s[i].identifier);
        } else if i == p && j > p {
            lemma_str_le_transitive(x.identifier, s[p].identifier, s[j - 1].identifier);
        } else if i < p && j > p {
            assert(str_le(s[i].identifier, s[j - 1].identifier));
        } else if i > p {
            assert(str_le(s[i - 1].identifier, s[j - 1].identifier));
        }
    }
    assert forall|id: Seq<char>| #[trigger]
        with_identifier(t, id) == with_identifier(seq![x] + s, id) by {
        let keep = |r: RecordView| r.identifier == id;
        let front = s.take(p);
        let back = s.skip(p);
        assert(t =~= front + (seq![x] + back));
        assert(s =~= front + back);
        Seq::filter_distributes_over_add(front, seq![x] + back, keep);
        Seq::filter_distributes_over_add(front, back, keep);
        lemma_group_of_prepend(back, x, id);
        lemma_group_of_prepend(s, x, id);
        if id == x.identifier {
            assert forall|j: int| 0 <= j < front.len() implies (#[trigger] front[j]).identifier
                != id by {
                lemma_str_le_reflexive(x.identifier);
                assert(front[j] == s[j]);
            }
            lemma_group_absent(front, id);
            assert(with_identifier(t, id) =~= with_identifier(seq![x] + s, id));
        }
    }
}

/// A sequence whose first record carries `id` has that record first among
/// its records of `id`; a record of another identifier in front changes
/// nothing for `id`.
pub proof fn lemma_group_of_first(s: Seq<RecordView>, id: Seq<char>)
    requires
        s.len() > 0,
    ensures
        with_identifier(s, id) == if id == s[0].identifier {
            seq![s[0]] + with_identifier(s.drop_first(), id)
        } else {
            with_identifier(s.drop_first(), id)
        },
{
    assert(s =~= seq![s[0]] + s.drop_first());
    lemma_group_of_prepend(s.drop_first(), s[0], id);
}

/// The first record of a sorted sequence carries an identifier that is
/// below or equal to that of every record of any sequence with the same
/// groups.
proof fn lemma_first_is_least(a: Seq<RecordView>, b: Seq<RecordView>)
    requires
        sorted_by_identifier(a),
        a.len() > 0,
        b.len() > 0,
        forall|id: Seq<char>| #[trigger] with_identifier(a, id) == with_identifier(b, id),
    ensures
        str_le(a[0].identifier, b[0].identifier),
{
    let id = b[0].identifier;
    let keep = |r: RecordView| r.identifier == id;
    lemma_group_of_first(b, id);
    let group = with_identifier(a, id);
    assert(group == with_identifier(b, id));
    assert(group.len() > 0);
    let r = group[0];
    a.lemma_filter_pred(keep, 0);
    assert(group.contains(r));
    a.lemma_filter_contains_rev(keep, r);
    let j = choose|j: int| 0 <= j < a.len() && a[j] == r;
    assert(str_le(a[0].identifier, a[j].identifier));
}

/// Sorting by identifier without changing the order within an identifier
/// has one result only: two sorted sequences with the same records of each
/// identifier, in the same order, are the same sequence.
pub proof fn law_stable_sort_is_unique(a: Seq<RecordView>, b: Seq<RecordView>)
    requires
        sorted_by_identifier(a),
        sorted_by_identifier(b),
        forall|id: Seq<char>| #[trigger] with_identifier(a, id) == with_identifier(b, id),
    ensures
        a == b,
    decreases a.len(),
{
    if a.len() == 0 {
        if b.len() > 0 {
            lemma_group_of_first(b, b[0].identifier);
            lemma_group_absent(a, b[0].identifier);
            assert(with_identifier(a, b[0].identifier) == with_identifier(b, b[0].identifier));
        }
        assert(a =~= b);
    } else if b.len() == 0 {
        lemma_group_of_first(a, a[0].identifier);
        lemma_group_absent(b, a[0].identifier);
        assert(with_identifier(a, a[0].identifier) == with_identifier(b, a[0].identifier));
    } else {
        let id = a[0].identifier;
        lemma_first_is_least(a, b);
        lemma_first_is_least(b, a);
        lemma_str_le_antisymmetric(a[0].identifier, b[0].identifier);
        let rest_a = a.drop_first();
        let rest_b = b.drop_first();
        lemma_group_of_first(a, id);
        lemma_group_of_first(b, id);
        let group_a = with_identifier(rest_a, id);
        let group_b = with_identifier(rest_b, id);
        assert(seq![a[0]] + group_a == seq![b[0]] + group_b) by {
            assert(with_identifier(a, id) == with_identifier(b, id));
        }
        assert(a[0] == b[0]) by {
            assert((seq![a[0]] + group_a)[0] == a[0]);
            assert((seq![b[0]] + group_b)[0] == b[0]);
        }
        assert(group_a =~= group_b) by {
            assert((seq![a[0]] + group_a).drop_first() =~= group_a);
            assert((seq![b[0]] + group_b).drop_first() =~= group_b);
        }
        assert forall|other: Seq<char>| #[trigger]
            with_identifier(rest_a, other) == with_identifier(rest_b, other) by {
            lemma_group_of_first(a, other);
            lemma_group_of_first(b, other);
            assert(with_identifier(a, other) == with_identifier(b, other));
        }
        assert(sorted_by_identifier(rest_a)) by {
            assert forall|i: int, j: int| 0 <= i <= j < rest_a.len() implies str_le(
                #[trigger] rest_a[i].identifier,
                #[trigger] rest_a[j].identifier,
            ) by {
                assert(str_le(a[i + 1].identifier, a[j + 1].identifier));
            }
        }
        assert(sorted_by_identifier(rest_b)) by {
            assert forall|i: int, j: int| 0 <= i <= j < rest_b.len() implies str_le(
                #[trigger] rest_b[i].identifier,
                #[trigger] rest_b[j].identifier,
            ) by {
                assert(str_le(b[i + 1].identifier, b[j + 1].identifier));
            }
        }
        law_stable_sort_is_unique(rest_a, rest_b);
        assert(a =~= seq![a[0]] + rest_a);
        assert(b =~= seq![b[0]] + rest_b);
    }
}

/// The first place in a sorted vector at which a record with the key may
/// stand in front of every record of the same key.
fn insertion_point(sorted: &Vec<Record>, key: &String) -> (p: usize)
    ensures
        p <= sorted@.len(),
        forall|j: int| 0 <= j < p ==> !str_le(key@, (#[trigger] sorted@[j]).identifier@),
        p < sorted@.len() ==> str_le(key@, sorted@[p as int].identifier@),
{
    let mut p: usize = 0;
    while p < sorted.len() && !string_le(key.as_str(), sorted[p].identifier.as_str())
        invariant
            p <= sorted@.len(),
            forall|j: int| 0 <= j < p ==> !str_le(key@, (#[trigger] sorted@[j]).identifier@),
        decreases sorted@.len() - p,
    {
        p += 1;
    }
    p
}

/// Sorts records by identifier, ascending in the order of strings. Records
/// with the same identifier stay in the order in which they were given.
pub fn sort_by_identifier(records: Vec<Record>) -> (sorted: Vec<Record>)
    ensures
        is_stable_sort_of(record_views(sorted@), record_views(records@)),
        record_views(sorted@).to_multiset() == record_views(records@).to_multiset(),
{
    let ghost input = record_views(records@);
    let mut rest = records;
    let mut sorted: Vec<Record> = Vec::new();
    proof {
        assert(input.skip(input.len() as int) =~= Seq::<RecordView>::empty());
        assert(record_views(sorted@) =~= Seq::<RecordView>::empty());
    }
    while rest.len() > 0
        invariant
            rest@.len() <= input.len(),
            record_views(rest@) == input.take(rest@.len() as int),
            sorted_by_identifier(record_views(sorted@)),
            forall|id: Seq<char>| #[trigger]
                with_identifier(record_views(sorted@), id) == with_identifier(
                    input.skip(rest@.len() as int),
                    id,
                ),
            record_views(sorted@).to_multiset() == input.skip(rest@.len() as int).to_multiset(),
        decreases rest@.len(),
    {
        let ghost before = record_views(sorted@);
        let ghost held = sorted@;
        let ghost n = rest@.len() as int;
        let record = rest.pop().unwrap();
        let p = insertion_point(&sorted, &record.identifier);
        let ghost x = record@;
        sorted.insert(p, record);
        proof {
            assert(x == input[n - 1]) by {
                assert(input.take(n)[n - 1] == input[n - 1]);
            }
            assert(record_views(rest@) =~= input.take(n - 1));
            assert(record_views(sorted@) =~= before.insert(p as int, x));
            assert(input.skip(n - 1) =~= seq![x] + input.skip(n));
            assert forall|j: int| 0 <= j < p implies !str_le(
                x.identifier,
                (#[trigger] before[j]).identifier,
            ) by {
                assert(before[j] == held[j]@);
            }
            lemma_insert_in_order(before, p as int, x);
            assert forall|id: Seq<char>| #[trigger]
                with_identifier(record_views(sorted@), id) == with_identifier(
                    input.skip(n - 1),
                    id,
                ) by {
                lemma_group_of_prepend(before, x, id);
                lemma_group_of_prepend(input.skip(n), x, id);
            }
            to_multiset_insert(before, p as int, x);
            to_multiset_insert(input.skip(n), 0, x);
            assert(input.skip(n).insert(0, x) =~= seq![x] + input.skip(n));
        }
    }
    proof {
        assert(input.skip(0) =~= input);
    }
    sorted
}

} // verus!
