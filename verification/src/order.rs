//! The order of names: by their characters, as a dictionary orders words,
//! with characters in the order of their code points. Missing components are
//! reported in this order.

use crate::text::{chars_of, texts_of};
use vstd::prelude::*;
use vstd::seq_lib::{to_multiset_build, to_multiset_insert};

verus! {

/// `a` is `b` or comes before it.
pub open spec fn name_le(a: Seq<char>, b: Seq<char>) -> bool
    decreases a.len(),
{
    if a.len() == 0 {
        true
    } else if b.len() == 0 {
        false
    } else if a[0] != b[0] {
        a[0] < b[0]
    } else {
        name_le(a.drop_first(), b.drop_first())
    }
}

/// Where `name` goes among `sorted`, looking from `from` on: before the first
/// name that comes after it.
pub open spec fn insertion_point(sorted: Seq<Seq<char>>, name: Seq<char>, from: int) -> int
    decreases sorted.len() - from,
{
    if from < 0 || from >= sorted.len() || !name_le(sorted[from], name) {
        from
    } else {
        insertion_point(sorted, name, from + 1)
    }
}

/// `names` in ascending order. Equal names stay in the order they came in.
pub open spec fn sorted_names(names: Seq<Seq<char>>) -> Seq<Seq<char>>
    decreases names.len(),
{
    if names.len() == 0 {
        Seq::empty()
    } else {
        let before = sorted_names(names.drop_last());
        before.insert(insertion_point(before, names.last(), 0), names.last())
    }
}

/// Each of `names` is its successor or comes before it.
pub open spec fn ascending(names: Seq<Seq<char>>) -> bool {
    forall|i: int, j: int| 0 <= i < j < names.len() ==> name_le(names[i], names[j])
}

/// Of two names, one is the other or comes before it.
pub proof fn lemma_name_le_total(a: Seq<char>, b: Seq<char>)
    ensures
        name_le(a, b) || name_le(b, a),
    decreases a.len(),
{
    if a.len() > 0 && b.len() > 0 {
        if a[0] == b[0] {
            lemma_name_le_total(a.drop_first(), b.drop_first());
        } else {
            assert(a[0] < b[0] || b[0] < a[0]);
        }
    }
}

/// The order of names is transitive.
pub proof fn lemma_name_le_transitive(a: Seq<char>, b: Seq<char>, c: Seq<char>)
    requires
        name_le(a, b),
        name_le(b, c),
    ensures
        name_le(a, c),
    decreases a.len(),
{
    if a.len() > 0 && a[0] == b[0] && b[0] == c[0] {
        lemma_name_le_transitive(a.drop_first(), b.drop_first(), c.drop_first());
    }
}

/// Two names that each are the other or come before it are one name.
pub proof fn lemma_name_le_antisymmetric(a: Seq<char>, b: Seq<char>)
    requires
        name_le(a, b),
        name_le(b, a),
    ensures
        a == b,
    decreases a.len(),
{
    if a.len() > 0 {
        lemma_name_le_antisymmetric(a.drop_first(), b.drop_first());
        assert(a == seq![a[0]] + a.drop_first());
        assert(b == seq![b[0]] + b.drop_first());
    } else {
        assert(a == b);
    }
}

/// The insertion point lies behind every name that does not come after
/// `name`, and at a name that does.
proof fn lemma_insertion_point(sorted: Seq<Seq<char>>, name: Seq<char>, from: int)
    requires
        0 <= from <= sorted.len(),
    ensures
        from <= insertion_point(sorted, name, from) <= sorted.len(),
        forall|k: int| from <= k < insertion_point(sorted, name, from) ==> name_le(sorted[k], name),
        insertion_point(sorted, name, from) < sorted.len() ==> !name_le(
            sorted[insertion_point(sorted, name, from)],
            name,
        ),
    decreases sorted.len() - from,
{
    if from < sorted.len() && name_le(sorted[from], name) {
        lemma_insertion_point(sorted, name, from + 1);
    }
}

/// `sorted_names` sorts: its result is ascending and holds each name as
/// often as `names` does.
pub proof fn lemma_sorted_names_sorts(names: Seq<Seq<char>>)
    ensures
        ascending(sorted_names(names)),
        sorted_names(names).to_multiset() == names.to_multiset(),
        sorted_names(names).len() == names.len(),
    decreases names.len(),
{
    if names.len() == 0 {
        assert(names == Seq::<Seq<char>>::empty());
    } else {
        let before = sorted_names(names.drop_last());
        let name = names.last();
        let at = insertion_point(before, name, 0);
        let after = before.insert(at, name);
        lemma_sorted_names_sorts(names.drop_last());
        lemma_insertion_point(before, name, 0);
        assert forall|i: int, j: int| 0 <= i < j < after.len() implies name_le(
            after[i],
            after[j],
        ) by {
            if j == at {
                assert(after[i] == before[i]);
            } else if i == at {
                assert(after[j] == before[j - 1]);
                lemma_name_le_total(before[at], name);
                if j - 1 > at {
                    lemma_name_le_transitive(name, before[at], before[j - 1]);
                }
            } else {
                let from = if i < at {
                    i
                } else {
                    i - 1
                };
                let to = if j < at {
                    j
                } else {
                    j - 1
                };
                assert(after[i] == before[from]);
                assert(after[j] == before[to]);
            }
        }
        to_multiset_insert(before, at, name);
        to_multiset_build(names.drop_last(), name);
        assert(names.drop_last().push(name) == names);
    }
}

/// Whether `a` is `b` or comes before it.
pub fn name_precedes(a: &str, b: &str) -> (le: bool)
    ensures
        le == name_le(a@, b@),
{
    let left = chars_of(a);
    let right = chars_of(b);
    let mut i: usize = 0;
    assert(left@.skip(0) == left@ && right@.skip(0) == right@);
    while i < left.len() && i < right.len() && left[i] == right[i]
        invariant
            i <= left.len(),
            i <= right.len(),
            name_le(left@, right@) == name_le(left@.skip(i as int), right@.skip(i as int)),
        decreases left.len() - i,
    {
        assert(left@.skip(i as int).drop_first() == left@.skip(i + 1));
        assert(right@.skip(i as int).drop_first() == right@.skip(i + 1));
        i += 1;
    }
    if i >= left.len() {
        true
    } else if i >= right.len() {
        false
    } else {
        left[i] < right[i]
    }
}

/// Sorts names into ascending order.
pub fn sort_names(names: Vec<String>) -> (sorted: Vec<String>)
    ensures
        texts_of(sorted@) == sorted_names(texts_of(names@)),
{
    let mut sorted: Vec<String> = Vec::new();
    let ghost all = texts_of(names@);
    let mut i: usize = 0;
    assert(all.take(0) == Seq::<Seq<char>>::empty());
    while i < names.len()
        invariant
            i <= names.len(),
            all == texts_of(names@),
            texts_of(sorted@) == sorted_names(all.take(i as int)),
        decreases names.len() - i,
    {
        let name = names[i].clone();
        let ghost before = texts_of(sorted@);
        let mut at: usize = 0;
        while at < sorted.len() && name_precedes(sorted[at].as_str(), name.as_str())
            invariant
                at <= sorted.len(),
                before == texts_of(sorted@),
                insertion_point(before, name@, 0) == insertion_point(before, name@, at as int),
            decreases sorted.len() - at,
        {
            at += 1;
        }
        sorted.insert(at, name);
        assert(texts_of(sorted@) == before.insert(at as int, all[i as int]));
        assert(all.take(i + 1).drop_last() == all.take(i as int));
        assert(all.take(i + 1).last() == all[i as int]);
        i += 1;
    }
    assert(all.take(i as int) == all);
    sorted
}

} // verus!
