//! What an outcome of the matcher implies: a satisfied manifest holds, for
//! every requirement, an available section header that shows the component
//! or one of its previews, and matching is a function of its inputs.

use crate::matcher::{
    after_header, header_matches, is_available, is_candidate_header, lemma_longest_bounds,
    match_outcome, names_wanted, preview_of, scan, settle, substitutions_left, wanted, wanted_all,
    Wanted,
};
use crate::order::lemma_sorted_names_sorts;
use crate::text::{lines_of, texts_of};
use vstd::prelude::*;
use vstd::seq_lib::to_multiset_contains;

verus! {

/// The search that stands for `w` after `n` replacements by a preview.
pub open spec fn nth_preview(w: Wanted, n: nat) -> Wanted
    decreases n,
{
    if n == 0 {
        w
    } else {
        nth_preview(preview_of(w), (n - 1) as nat)
    }
}

/// Each of the first `n` replacements of `w` was allowed: the name that was
/// replaced was eligible.
pub open spec fn replaced(previews: Seq<Seq<char>>, w: Wanted, n: nat) -> bool {
    forall|j: nat| j < n ==> previews.contains((#[trigger] nth_preview(w, j)).name)
}

/// `header` shows the component of `w`, or a preview that may stand for it.
pub open spec fn shows(previews: Seq<Seq<char>>, w: Wanted, header: Seq<char>) -> bool {
    exists|n: nat| replaced(previews, w, n) && header_matches(#[trigger] nth_preview(w, n), header)
}

/// Line `at` of `lines` is a section header that shows `w` or a preview that
/// may stand for it, and the line after it declares the section available.
pub open spec fn shown_at(
    previews: Seq<Seq<char>>,
    w: Wanted,
    lines: Seq<Seq<char>>,
    at: int,
) -> bool {
    &&& 0 <= at
    &&& at + 1 < lines.len()
    &&& is_candidate_header(lines[at])
    &&& is_available(lines[at + 1])
    &&& shows(previews, w, lines[at])
}

/// Replacing `a` times and then `b` times is replacing `a + b` times.
proof fn lemma_nth_preview_adds(w: Wanted, a: nat, b: nat)
    ensures
        nth_preview(nth_preview(w, a), b) == nth_preview(w, a + b),
    decreases a,
{
    if a > 0 {
        lemma_nth_preview_adds(preview_of(w), (a - 1) as nat, b);
    }
}

/// Allowed replacements chain.
proof fn lemma_replaced_chains(previews: Seq<Seq<char>>, w: Wanted, a: nat, b: nat)
    requires
        replaced(previews, w, a),
        replaced(previews, nth_preview(w, a), b),
    ensures
        replaced(previews, w, a + b),
{
    assert forall|j: nat| j < a + b implies previews.contains(
        (#[trigger] nth_preview(w, j)).name,
    ) by {
        if j >= a {
            lemma_nth_preview_adds(w, a, (j - a) as nat);
            assert(previews.contains(nth_preview(nth_preview(w, a), (j - a) as nat).name));
        }
    }
}

/// A header that shows a stand-in of `w` shows `w`.
proof fn lemma_shows_through(previews: Seq<Seq<char>>, w: Wanted, n: nat, header: Seq<char>)
    requires
        replaced(previews, w, n),
        shows(previews, nth_preview(w, n), header),
    ensures
        shows(previews, w, header),
{
    let v = nth_preview(w, n);
    let m = choose|m: nat| replaced(previews, v, m) && header_matches(nth_preview(v, m), header);
    lemma_nth_preview_adds(w, n, m);
    lemma_replaced_chains(previews, w, n, m);
    assert(header_matches(nth_preview(w, n + m), header));
}

/// The number of replacements after which `settle` comes to rest on `w`.
spec fn rest_count(previews: Seq<Seq<char>>, w: Wanted, header: Seq<char>) -> nat
    decreases substitutions_left(previews, w.name),
    via rest_count_decreases
{
    if header_matches(w, header) || !previews.contains(w.name) {
        0
    } else {
        1 + rest_count(previews, preview_of(w), header)
    }
}

#[via_fn]
proof fn rest_count_decreases(previews: Seq<Seq<char>>, w: Wanted, header: Seq<char>) {
    if !header_matches(w, header) && previews.contains(w.name) {
        lemma_longest_bounds(previews, w.name);
        reveal_strlit("-preview");
    }
}

/// Where `settle` comes to rest: on a stand-in that the header shows, or on
/// one that goes on being searched.
proof fn lemma_settle_rests(previews: Seq<Seq<char>>, w: Wanted, header: Seq<char>)
    ensures
        replaced(previews, w, rest_count(previews, w, header)),
        match settle(previews, w, header) {
            None => header_matches(nth_preview(w, rest_count(previews, w, header)), header),
            Some(v) => v == nth_preview(w, rest_count(previews, w, header)),
        },
    decreases substitutions_left(previews, w.name),
{
    if !header_matches(w, header) && previews.contains(w.name) {
        lemma_longest_bounds(previews, w.name);
        reveal_strlit("-preview");
        let next = preview_of(w);
        lemma_settle_rests(previews, next, header);
        let n = rest_count(previews, next, header);
        assert forall|j: nat| j < n + 1 implies previews.contains(
            (#[trigger] nth_preview(w, j)).name,
        ) by {
            if j > 0 {
                assert(nth_preview(w, j) == nth_preview(next, (j - 1) as nat));
            }
        }
    }
}

/// Every search that goes on after a header is still pending behind it.
proof fn lemma_after_header_keeps(
    previews: Seq<Seq<char>>,
    pending: Seq<Wanted>,
    header: Seq<char>,
    i: int,
)
    requires
        0 <= i < pending.len(),
        settle(previews, pending[i], header) is Some,
    ensures
        after_header(previews, pending, header).contains(
            settle(previews, pending[i], header).unwrap(),
        ),
    decreases pending.len(),
{
    let rest = after_header(previews, pending.drop_first(), header);
    let kept = settle(previews, pending[i], header).unwrap();
    if i == 0 {
        assert((seq![kept] + rest)[0] == kept);
    } else {
        assert(pending.drop_first()[i - 1] == pending[i]);
        lemma_after_header_keeps(previews, pending.drop_first(), header, i - 1);
        let k = choose|k: int| 0 <= k < rest.len() && rest[k] == kept;
        match settle(previews, pending[0], header) {
            None => {},
            Some(w) => {
                assert((seq![w] + rest)[k + 1] == kept);
            },
        }
    }
}

/// Some line of `lines` at or after `from` is an available section header that
/// shows `w` or a preview that may stand for it.
pub open spec fn shown_from(
    previews: Seq<Seq<char>>,
    w: Wanted,
    lines: Seq<Seq<char>>,
    from: int,
) -> bool {
    exists|at: int| from <= at && shown_at(previews, w, lines, at)
}

/// When nothing is pending after the lines from `at` on, each search that was
/// pending at `at` is shown by an available header at or after `at`.
proof fn lemma_scan_shows_all(
    previews: Seq<Seq<char>>,
    pending: Seq<Wanted>,
    lines: Seq<Seq<char>>,
    at: int,
)
    requires
        0 <= at,
        scan(previews, pending, lines, at).len() == 0,
    ensures
        forall|i: int|
            0 <= i < pending.len() ==> shown_from(previews, #[trigger] pending[i], lines, at),
    decreases lines.len() - at,
{
    if pending.len() == 0 || at >= lines.len() {
    } else if !is_candidate_header(lines[at]) {
        lemma_scan_shows_all(previews, pending, lines, at + 1);
        assert forall|i: int| 0 <= i < pending.len() implies shown_from(
            previews,
            #[trigger] pending[i],
            lines,
            at,
        ) by {
            assert(shown_from(previews, pending[i], lines, at + 1));
            let k = choose|k: int| at + 1 <= k && shown_at(previews, pending[i], lines, k);
            assert(at <= k && shown_at(previews, pending[i], lines, k));
        }
    } else if at + 1 >= lines.len() {
    } else if !is_available(lines[at + 1]) {
        lemma_scan_shows_all(previews, pending, lines, at + 2);
        assert forall|i: int| 0 <= i < pending.len() implies shown_from(
            previews,
            #[trigger] pending[i],
            lines,
            at,
        ) by {
            assert(shown_from(previews, pending[i], lines, at + 2));
            let k = choose|k: int| at + 2 <= k && shown_at(previews, pending[i], lines, k);
            assert(at <= k && shown_at(previews, pending[i], lines, k));
        }
    } else {
        let header = lines[at];
        let later = after_header(previews, pending, header);
        lemma_scan_shows_all(previews, later, lines, at + 2);
        assert forall|i: int| 0 <= i < pending.len() implies shown_from(
            previews,
            #[trigger] pending[i],
            lines,
            at,
        ) by {
            let w = pending[i];
            let n = rest_count(previews, w, header);
            lemma_settle_rests(previews, w, header);
            match settle(previews, w, header) {
                None => {
                    assert(shows(previews, w, header));
                    assert(at <= at && shown_at(previews, w, lines, at));
                },
                Some(v) => {
                    lemma_after_header_keeps(previews, pending, header, i);
                    let j = choose|j: int| 0 <= j < later.len() && later[j] == v;
                    assert(shown_from(previews, later[j], lines, at + 2));
                    let k = choose|k: int| at + 2 <= k && shown_at(previews, v, lines, k);
                    lemma_shows_through(previews, w, n, lines[k]);
                    assert(at <= k && shown_at(previews, w, lines, k));
                },
            }
        }
    }
}

/// A satisfied manifest holds, for every requirement, a section header that
/// is followed by `available = true` and that shows the required component,
/// or a preview that took its place while the manifest was read.
pub proof fn lemma_satisfied_shows_every_requirement(
    previews: Seq<Seq<char>>,
    target: Seq<char>,
    pairs: Seq<(Seq<char>, Seq<char>)>,
    manifest: Seq<char>,
)
    requires
        match_outcome(previews, target, pairs, manifest) is None,
    ensures
        forall|r: int|
            0 <= r < pairs.len() ==> shown_from(
                previews,
                wanted(#[trigger] pairs[r], target),
                lines_of(manifest),
                0,
            ),
{
    let pending = wanted_all(pairs, target);
    lemma_scan_shows_all(previews, pending, lines_of(manifest), 0);
    assert forall|r: int| 0 <= r < pairs.len() implies shown_from(
        previews,
        wanted(#[trigger] pairs[r], target),
        lines_of(manifest),
        0,
    ) by {
        assert(pending[r] == wanted(pairs[r], target));
    }
}

/// `v` stands for one of `pending`: allowed replacements have made it of that
/// search.
pub open spec fn stands_for_one(previews: Seq<Seq<char>>, pending: Seq<Wanted>, v: Wanted) -> bool {
    exists|i: int, n: nat|
        0 <= i < pending.len() && replaced(previews, pending[i], n) && v == #[trigger] nth_preview(pending[i], n)
}

/// The searches that go on after a header are no more than were pending, and
/// each stands for one of those.
proof fn lemma_after_header_descends(
    previews: Seq<Seq<char>>,
    pending: Seq<Wanted>,
    header: Seq<char>,
)
    ensures
        after_header(previews, pending, header).len() <= pending.len(),
        forall|k: int|
            0 <= k < after_header(previews, pending, header).len() ==> stands_for_one(
                previews,
                pending,
                #[trigger] after_header(previews, pending, header)[k],
            ),
    decreases pending.len(),
{
    if pending.len() > 0 {
        let tail = pending.drop_first();
        let rest = after_header(previews, tail, header);
        let later = after_header(previews, pending, header);
        lemma_after_header_descends(previews, tail, header);
        lemma_settle_rests(previews, pending[0], header);
        let shift: int = if settle(previews, pending[0], header) is Some {
            1
        } else {
            0
        };
        assert forall|k: int| 0 <= k < later.len() implies stands_for_one(
            previews,
            pending,
            #[trigger] later[k],
        ) by {
            if k < shift {
                let n = rest_count(previews, pending[0], header);
                assert(later[k] == nth_preview(pending[0], n));
            } else {
                assert(later[k] == rest[k - shift]);
                assert(stands_for_one(previews, tail, rest[k - shift]));
                let (i, n) = choose|i: int, n: nat|
                    0 <= i < tail.len() && replaced(previews, tail[i], n) && rest[k - shift]
                        == #[trigger] nth_preview(tail[i], n);
                assert(tail[i] == pending[i + 1]);
                assert(later[k] == nth_preview(pending[i + 1], n));
            }
        }
    }
}

/// The searches that are open at the end of a manifest are no more than were
/// pending, and each stands for one of those.
proof fn lemma_scan_descends(
    previews: Seq<Seq<char>>,
    pending: Seq<Wanted>,
    lines: Seq<Seq<char>>,
    at: int,
)
    requires
        0 <= at,
    ensures
        scan(previews, pending, lines, at).len() <= pending.len(),
        forall|k: int|
            0 <= k < scan(previews, pending, lines, at).len() ==> stands_for_one(
                previews,
                pending,
                #[trigger] scan(previews, pending, lines, at)[k],
            ),
    decreases lines.len() - at,
{
    let rest = scan(previews, pending, lines, at);
    if pending.len() == 0 || at >= lines.len() || (is_candidate_header(lines[at]) && at + 1
        >= lines.len()) {
        assert forall|k: int| 0 <= k < rest.len() implies stands_for_one(
            previews,
            pending,
            #[trigger] rest[k],
        ) by {
            assert(replaced(previews, pending[k], 0));
            assert(rest[k] == nth_preview(pending[k], 0));
        }
    } else if !is_candidate_header(lines[at]) {
        lemma_scan_descends(previews, pending, lines, at + 1);
    } else if !is_available(lines[at + 1]) {
        lemma_scan_descends(previews, pending, lines, at + 2);
    } else {
        let later = after_header(previews, pending, lines[at]);
        lemma_after_header_descends(previews, pending, lines[at]);
        lemma_scan_descends(previews, later, lines, at + 2);
        assert forall|k: int| 0 <= k < rest.len() implies stands_for_one(
            previews,
            pending,
            #[trigger] rest[k],
        ) by {
            assert(stands_for_one(previews, later, rest[k]));
            let (j, m) = choose|j: int, m: nat|
                0 <= j < later.len() && replaced(previews, later[j], m) && rest[k] == #[trigger] nth_preview(later[j], m);
            assert(stands_for_one(previews, pending, later[j]));
            let (i, n) = choose|i: int, n: nat|
                0 <= i < pending.len() && replaced(previews, pending[i], n) && later[j]
                    == #[trigger] nth_preview(pending[i], n);
            lemma_nth_preview_adds(pending[i], n, m);
            lemma_replaced_chains(previews, pending[i], n, m);
            assert(rest[k] == nth_preview(pending[i], n + m));
        }
    }
}

/// `name` is the name of one of the requirements, or of the preview that
/// allowed replacements have put in its place.
pub open spec fn names_a_requirement(
    previews: Seq<Seq<char>>,
    target: Seq<char>,
    pairs: Seq<(Seq<char>, Seq<char>)>,
    name: Seq<char>,
) -> bool {
    exists|r: int, n: nat|
        0 <= r < pairs.len() && replaced(previews, wanted(pairs[r], target), n) && name
            == (#[trigger] nth_preview(wanted(pairs[r], target), n)).name
}

/// What a manifest leaves unsatisfied comes of the requirements: no more
/// names are reported than components are required, and each reported name
/// is that of a requirement or of the preview that took its place. A
/// requirement that a header has shown is searched no more, so nothing is
/// reported that was not required.
pub proof fn lemma_leftovers_come_of_requirements(
    previews: Seq<Seq<char>>,
    target: Seq<char>,
    pairs: Seq<(Seq<char>, Seq<char>)>,
    manifest: Seq<char>,
)
    requires
        match_outcome(previews, target, pairs, manifest) is Some,
    ensures
        0 < match_outcome(previews, target, pairs, manifest).unwrap().len() <= pairs.len(),
        forall|k: int|
            0 <= k < match_outcome(previews, target, pairs, manifest).unwrap().len()
                ==> names_a_requirement(
                previews,
                target,
                pairs,
                #[trigger] match_outcome(previews, target, pairs, manifest).unwrap()[k],
            ),
{
    let pending = wanted_all(pairs, target);
    let rest = scan(previews, pending, lines_of(manifest), 0);
    let open = names_wanted(rest);
    let names = match_outcome(previews, target, pairs, manifest).unwrap();
    lemma_scan_descends(previews, pending, lines_of(manifest), 0);
    lemma_sorted_names_sorts(open);
    assert forall|k: int| 0 <= k < names.len() implies names_a_requirement(
        previews,
        target,
        pairs,
        #[trigger] names[k],
    ) by {
        assert(names.contains(names[k]));
        to_multiset_contains(names, names[k]);
        to_multiset_contains(open, names[k]);
        let j = choose|j: int| 0 <= j < open.len() && open[j] == names[k];
        assert(stands_for_one(previews, pending, rest[j]));
        let (r, n) = choose|r: int, n: nat|
            0 <= r < pending.len() && replaced(previews, pending[r], n) && rest[j] == #[trigger] nth_preview(pending[r], n);
        assert(pending[r] == wanted(pairs[r], target));
    }
}

/// What a run of the matcher hands back for an outcome.
pub open spec fn reports(leftovers: Option<Vec<String>>, outcome: Option<Seq<Seq<char>>>) -> bool {
    match leftovers {
        None => outcome is None,
        Some(names) => outcome == Some(texts_of(names@)),
    }
}

/// Matching is repeatable: two runs on the same eligible names, target,
/// requirements and manifest are both satisfied, or both report the same
/// missing names in the same order.
pub proof fn lemma_matching_is_repeatable(
    first: Option<Vec<String>>,
    second: Option<Vec<String>>,
    previews: Seq<Seq<char>>,
    target: Seq<char>,
    pairs: Seq<(Seq<char>, Seq<char>)>,
    manifest: Seq<char>,
)
    requires
        reports(first, match_outcome(previews, target, pairs, manifest)),
        reports(second, match_outcome(previews, target, pairs, manifest)),
    ensures
        first is None <==> second is None,
        first is Some ==> texts_of(first.unwrap()@) == texts_of(second.unwrap()@),
{
}

} // verus!
