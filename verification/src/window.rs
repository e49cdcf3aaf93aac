//! The look-back window of a search: which candidates a search comes to
//! judge, and where it ends.

use crate::search::{toolchain_text, SearchView, StepView};
use vstd::prelude::*;

verus! {

/// Where a search stands when its successive candidates, beginning with the
/// current one, are judged as `satisfied` says: `true` for a satisfying
/// manifest, `false` for anything else. A search that is over stays where
/// it is, and the judgements that are left are not consulted.
pub open spec fn run(s: SearchView, satisfied: Seq<bool>) -> (SearchView, StepView)
    decreases satisfied.len(),
{
    if satisfied.len() == 0 || !(s.proposal() is Fetch) {
        (s, s.proposal())
    } else if satisfied[0] {
        s.judged(true)
    } else {
        run(s.judged(false).0, satisfied.drop_first())
    }
}

/// The calendar has the dates of the next `n` candidates of `s`.
pub open spec fn dated(s: SearchView, n: nat) -> bool {
    forall|i: nat| i < n ==> (#[trigger] s.after(i)).candidate() is Some
}

/// A search passes over candidates within its window that do not satisfy.
proof fn lemma_run_passes_over(s: SearchView, satisfied: Seq<bool>, n: nat)
    requires
        n <= satisfied.len(),
        s.tried + n <= s.days,
        dated(s, n),
        forall|i: int| 0 <= i < n ==> !satisfied[i],
    ensures
        run(s, satisfied) == run(s.after(n), satisfied.skip(n as int)),
    decreases n,
{
    if n == 0 {
        assert(s.after(0) == s);
        assert(satisfied.skip(0) == satisfied);
    } else {
        assert(s.after(0) == s);
        assert(s.proposal() is Fetch);
        let rest = satisfied.drop_first();
        assert forall|i: nat| i < n - 1 implies (#[trigger] s.next().after(i)).candidate() is Some by {
            assert(s.next().after(i) == s.after(i + 1));
        }
        lemma_run_passes_over(s.next(), rest, (n - 1) as nat);
        assert(s.next().after((n - 1) as nat) == s.after(n));
        assert(rest.skip(n - 1) == satisfied.skip(n as int));
    }
}

/// The window reaches its last day: when the only satisfying candidate lies
/// exactly `days` days back from the reference date, the search ends in
/// success with the toolchain of that date.
pub proof fn lemma_window_reaches_last_day(s: SearchView, satisfied: Seq<bool>)
    requires
        s.tried == 0,
        s.days >= 1,
        satisfied.len() == s.days,
        forall|i: int| 0 <= i < s.days - 1 ==> !satisfied[i],
        satisfied[s.days - 1],
        dated(s, s.days),
    ensures
        s.after((s.days - 1) as nat).distance() == s.days,
        run(s, satisfied).1 == (StepView::Found {
            toolchain: toolchain_text(
                s.channel,
                s.after((s.days - 1) as nat).candidate().unwrap(),
                s.target,
            ),
        }),
{
    let n = (s.days - 1) as nat;
    lemma_run_passes_over(s, satisfied, n);
    assert(s.after(n).candidate() is Some);
    assert(satisfied.skip(n as int)[0] == satisfied[n as int]);
}

/// The window ends behind its last day: when no candidate up to `days` days
/// back from the reference date satisfies, the search ends in exhaustion,
/// whatever the manifest of the day before would have held.
pub proof fn lemma_window_ends_behind_last_day(s: SearchView, satisfied: Seq<bool>)
    requires
        s.tried == 0,
        satisfied.len() >= s.days,
        forall|i: int| 0 <= i < s.days ==> !satisfied[i],
        dated(s, s.days),
    ensures
        run(s, satisfied).1 == StepView::Exhausted,
{
    lemma_run_passes_over(s, satisfied, s.days);
}

} // verus!
