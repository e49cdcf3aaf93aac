//! The outcome of the matcher does not depend on how its sets are listed:
//! the requirements may come in any order, and of the eligible names only
//! membership matters.

use crate::matcher::{
    after_header, header_matches, is_available, is_candidate_header, lemma_longest_bounds,
    match_outcome, names_wanted, preview_of, scan, settle, substitutions_left, wanted, wanted_all,
    Wanted,
};
use crate::order::{
    ascending, lemma_name_le_antisymmetric, lemma_name_le_total, lemma_sorted_names_sorts, name_le,
    sorted_names,
};
use crate::text::lines_of;
use vstd::prelude::*;
use vstd::seq_lib::{
    lemma_multiset_commutative, to_multiset_contains, to_multiset_len, to_multiset_remove,
};

verus! {

/// What each item of `s` yields under `g`, joined in order.
spec fn expand<A, B>(s: Seq<A>, g: spec_fn(A) -> Seq<B>) -> Seq<B>
    decreases s.len(),
{
    if s.len() == 0 {
        Seq::empty()
    } else {
        g(s[0]) + expand(s.drop_first(), g)
    }
}

/// An item put into a sequence adds what it yields, wherever it is put.
proof fn lemma_expand_insert<A, B>(s: Seq<A>, g: spec_fn(A) -> Seq<B>, k: int, x: A)
    requires
        0 <= k <= s.len(),
    ensures
        expand(s.insert(k, x), g).to_multiset() == expand(s, g).to_multiset().add(
            g(x).to_multiset(),
        ),
    decreases k,
{
    let put = s.insert(k, x);
    if k == 0 {
        assert(put[0] == x);
        assert(put.drop_first() == s);
        lemma_multiset_commutative(g(x), expand(s, g));
    } else {
        assert(put[0] == s[0]);
        assert(put.drop_first() == s.drop_first().insert(k - 1, x));
        lemma_expand_insert(s.drop_first(), g, k - 1, x);
        lemma_multiset_commutative(g(s[0]), expand(put.drop_first(), g));
        lemma_multiset_commutative(g(s[0]), expand(s.drop_first(), g));
    }
    assert(expand(put, g).to_multiset() =~= expand(s, g).to_multiset().add(g(x).to_multiset()));
}

/// Sequences that hold the same items equally often yield the same items
/// equally often.
proof fn lemma_expand_rearranged<A, B>(a: Seq<A>, b: Seq<A>, g: spec_fn(A) -> Seq<B>)
    requires
        a.to_multiset() == b.to_multiset(),
    ensures
        expand(a, g).to_multiset() == expand(b, g).to_multiset(),
    decreases a.len(),
{
    to_multiset_len(a);
    to_multiset_len(b);
    if a.len() > 0 {
        let x = a[0];
        assert(a.contains(x));
        to_multiset_contains(a, x);
        to_multiset_contains(b, x);
        let k = choose|k: int| 0 <= k < b.len() && b[k] == x;
        let rest = b.remove(k);
        to_multiset_remove(a, 0);
        to_multiset_remove(b, k);
        assert(a.remove(0) == a.drop_first());
        lemma_expand_rearranged(a.drop_first(), rest, g);
        assert(rest.insert(k, x) == b);
        lemma_expand_insert(rest, g, k, x);
        lemma_multiset_commutative(g(x), expand(a.drop_first(), g));
        assert(expand(a, g).to_multiset() =~= expand(b, g).to_multiset());
    }
}

/// What a search yields at a header: itself or its stand-in, or nothing.
spec fn settled(previews: Seq<Seq<char>>, header: Seq<char>) -> spec_fn(Wanted) -> Seq<Wanted> {
    |w: Wanted|
        match settle(previews, w, header) {
            None => Seq::empty(),
            Some(v) => seq![v],
        }
}

proof fn lemma_after_header_expands(
    previews: Seq<Seq<char>>,
    pending: Seq<Wanted>,
    header: Seq<char>,
)
    ensures
        after_header(previews, pending, header) == expand(pending, settled(previews, header)),
    decreases pending.len(),
{
    if pending.len() > 0 {
        lemma_after_header_expands(previews, pending.drop_first(), header);
        assert(after_header(previews, pending, header) =~= expand(
            pending,
            settled(previews, header),
        ));
    }
}

proof fn lemma_wanted_all_expands(pairs: Seq<(Seq<char>, Seq<char>)>, target: Seq<char>)
    ensures
        wanted_all(pairs, target) == expand(
            pairs,
            |pair: (Seq<char>, Seq<char>)| seq![wanted(pair, target)],
        ),
    decreases pairs.len(),
{
    let g = |pair: (Seq<char>, Seq<char>)| seq![wanted(pair, target)];
    if pairs.len() > 0 {
        lemma_wanted_all_expands(pairs.drop_first(), target);
        assert(wanted_all(pairs, target) =~= g(pairs[0]) + wanted_all(pairs.drop_first(), target));
    }
    assert(wanted_all(pairs, target) =~= expand(pairs, g));
}

proof fn lemma_names_wanted_expands(pending: Seq<Wanted>)
    ensures
        names_wanted(pending) == expand(pending, |w: Wanted| seq![w.name]),
    decreases pending.len(),
{
    let g = |w: Wanted| seq![w.name];
    if pending.len() > 0 {
        lemma_names_wanted_expands(pending.drop_first());
        assert(names_wanted(pending) =~= g(pending[0]) + names_wanted(pending.drop_first()));
    }
    assert(names_wanted(pending) =~= expand(pending, g));
}

/// Reading a manifest leaves the same searches open, in whatever order
/// they were pending.
proof fn lemma_scan_rearranged(
    previews: Seq<Seq<char>>,
    first: Seq<Wanted>,
    second: Seq<Wanted>,
    lines: Seq<Seq<char>>,
    at: int,
)
    requires
        0 <= at,
        first.to_multiset() == second.to_multiset(),
    ensures
        scan(previews, first, lines, at).to_multiset() == scan(
            previews,
            second,
            lines,
            at,
        ).to_multiset(),
    decreases lines.len() - at,
{
    to_multiset_len(first);
    to_multiset_len(second);
    if first.len() == 0 || at >= lines.len() {
    } else if !is_candidate_header(lines[at]) {
        lemma_scan_rearranged(previews, first, second, lines, at + 1);
    } else if at + 1 >= lines.len() {
    } else if !is_available(lines[at + 1]) {
        lemma_scan_rearranged(previews, first, second, lines, at + 2);
    } else {
        let header = lines[at];
        lemma_after_header_expands(previews, first, header);
        lemma_after_header_expands(previews, second, header);
        lemma_expand_rearranged(first, second, settled(previews, header));
        lemma_scan_rearranged(
            previews,
            after_header(previews, first, header),
            after_header(previews, second, header),
            lines,
            at + 2,
        );
    }
}

/// Ascending sequences that hold the same names equally often are one
/// sequence.
proof fn lemma_ascending_is_unique(a: Seq<Seq<char>>, b: Seq<Seq<char>>)
    requires
        ascending(a),
        ascending(b),
        a.to_multiset() == b.to_multiset(),
    ensures
        a == b,
    decreases a.len(),
{
    to_multiset_len(a);
    to_multiset_len(b);
    if a.len() > 0 {
        assert(a.contains(a[0]));
        assert(b.contains(b[0]));
        to_multiset_contains(a, a[0]);
        to_multiset_contains(b, a[0]);
        to_multiset_contains(a, b[0]);
        to_multiset_contains(b, b[0]);
        let i = choose|i: int| 0 <= i < a.len() && a[i] == b[0];
        let j = choose|j: int| 0 <= j < b.len() && b[j] == a[0];
        lemma_name_le_total(a[0], a[0]);
        if i > 0 {
            assert(name_le(a[0], a[i]));
        }
        if j > 0 {
            assert(name_le(b[0], b[j]));
        }
        lemma_name_le_antisymmetric(a[0], b[0]);
        to_multiset_remove(a, 0);
        to_multiset_remove(b, 0);
        assert(a.remove(0) == a.drop_first());
        assert(b.remove(0) == b.drop_first());
        assert(ascending(a.drop_first())) by {
            assert forall|m: int, n: int| 0 <= m < n < a.drop_first().len() implies name_le(
                a.drop_first()[m],
                a.drop_first()[n],
            ) by {
                assert(a.drop_first()[m] == a[m + 1] && a.drop_first()[n] == a[n + 1]);
            }
        }
        assert(ascending(b.drop_first())) by {
            assert forall|m: int, n: int| 0 <= m < n < b.drop_first().len() implies name_le(
                b.drop_first()[m],
                b.drop_first()[n],
            ) by {
                assert(b.drop_first()[m] == b[m + 1] && b.drop_first()[n] == b[n + 1]);
            }
        }
        lemma_ascending_is_unique(a.drop_first(), b.drop_first());
        assert(a == seq![a[0]] + a.drop_first());
        assert(b == seq![b[0]] + b.drop_first());
    } else {
        assert(a == b);
    }
}

/// The requirements are a set: the outcome of matching a manifest is the
/// same in whatever order the requirements are listed.
pub proof fn lemma_requirement_order_is_irrelevant(
    previews: Seq<Seq<char>>,
    target: Seq<char>,
    first: Seq<(Seq<char>, Seq<char>)>,
    second: Seq<(Seq<char>, Seq<char>)>,
    manifest: Seq<char>,
)
    requires
        first.to_multiset() == second.to_multiset(),
    ensures
        match_outcome(previews, target, first, manifest) == match_outcome(
            previews,
            target,
            second,
            manifest,
        ),
{
    let lines = lines_of(manifest);
    let one = scan(previews, wanted_all(first, target), lines, 0);
    let other = scan(previews, wanted_all(second, target), lines, 0);
    lemma_wanted_all_expands(first, target);
    lemma_wanted_all_expands(second, target);
    lemma_expand_rearranged(
        first,
        second,
        |pair: (Seq<char>, Seq<char>)| seq![wanted(pair, target)],
    );
    lemma_scan_rearranged(
        previews,
        wanted_all(first, target),
        wanted_all(second, target),
        lines,
        0,
    );
    to_multiset_len(one);
    to_multiset_len(other);
    lemma_names_wanted_expands(one);
    lemma_names_wanted_expands(other);
    lemma_expand_rearranged(one, other, |w: Wanted| seq![w.name]);
    lemma_sorted_names_sorts(names_wanted(one));
    lemma_sorted_names_sorts(names_wanted(other));
    lemma_ascending_is_unique(sorted_names(names_wanted(one)), sorted_names(names_wanted(other)));
}

/// `first` and `second` hold the same names.
pub open spec fn same_members(first: Seq<Seq<char>>, second: Seq<Seq<char>>) -> bool {
    forall|name: Seq<char>| first.contains(name) == second.contains(name)
}

proof fn lemma_settle_by_membership(
    first: Seq<Seq<char>>,
    second: Seq<Seq<char>>,
    w: Wanted,
    header: Seq<char>,
)
    requires
        same_members(first, second),
    ensures
        settle(first, w, header) == settle(second, w, header),
    decreases substitutions_left(first, w.name),
{
    if !header_matches(w, header) && first.contains(w.name) {
        lemma_longest_bounds(first, w.name);
        reveal_strlit("-preview");
        lemma_settle_by_membership(first, second, preview_of(w), header);
    }
}

proof fn lemma_after_header_by_membership(
    first: Seq<Seq<char>>,
    second: Seq<Seq<char>>,
    pending: Seq<Wanted>,
    header: Seq<char>,
)
    requires
        same_members(first, second),
    ensures
        after_header(first, pending, header) == after_header(second, pending, header),
    decreases pending.len(),
{
    if pending.len() > 0 {
        lemma_settle_by_membership(first, second, pending[0], header);
        lemma_after_header_by_membership(first, second, pending.drop_first(), header);
    }
}

proof fn lemma_scan_by_membership(
    first: Seq<Seq<char>>,
    second: Seq<Seq<char>>,
    pending: Seq<Wanted>,
    lines: Seq<Seq<char>>,
    at: int,
)
    requires
        0 <= at,
        same_members(first, second),
    ensures
        scan(first, pending, lines, at) == scan(second, pending, lines, at),
    decreases lines.len() - at,
{
    if pending.len() == 0 || at >= lines.len() {
    } else if !is_candidate_header(lines[at]) {
        lemma_scan_by_membership(first, second, pending, lines, at + 1);
    } else if at + 1 >= lines.len() {
    } else if !is_available(lines[at + 1]) {
        lemma_scan_by_membership(first, second, pending, lines, at + 2);
    } else {
        lemma_after_header_by_membership(first, second, pending, lines[at]);
        lemma_scan_by_membership(
            first,
            second,
            after_header(first, pending, lines[at]),
            lines,
            at + 2,
        );
    }
}

/// The eligible names are a set: the outcome of matching a manifest is the
/// same for two listings that hold the same names, however often and in
/// whatever order.
pub proof fn lemma_only_membership_of_previews_matters(
    first: Seq<Seq<char>>,
    second: Seq<Seq<char>>,
    target: Seq<char>,
    pairs: Seq<(Seq<char>, Seq<char>)>,
    manifest: Seq<char>,
)
    requires
        same_members(first, second),
    ensures
        match_outcome(first, target, pairs, manifest) == match_outcome(
            second,
            target,
            pairs,
            manifest,
        ),
{
    lemma_scan_by_membership(first, second, wanted_all(pairs, target), lines_of(manifest), 0);
}

} // verus!
