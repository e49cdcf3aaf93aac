//! The manifest matcher: whether one release manifest offers every required
//! component for a target, and which components are still missing if not.
//!
//! A manifest is read line by line. A section header followed by the line
//! `available = true` is held against every component that is still wanted. A
//! wanted component that the header does not show, and whose name is eligible
//! for a preview, is from then on searched under its preview name.

use crate::component::pairs_of;
use crate::order::{sort_names, sorted_names};
use crate::preview::PreviewEligible;
use crate::text::{
    chars_of, is_prefix, is_suffix, line_spans, lines_of, span_ends_with, span_equals,
    span_starts_with, spans_of, texts_of, Span,
};
use vstd::prelude::*;
use vstd::string::*;

verus! {

/// A component that a manifest is searched for: its name, and the two patterns
/// that a section header must begin and end with to show it.
pub struct Wanted {
    pub name: Seq<char>,
    pub prefix: Seq<char>,
    pub suffix: Seq<char>,
}

/// What the header of a required component's section begins with.
pub open spec fn header_prefix(name: Seq<char>) -> Seq<char> {
    "[pkg."@ + name + ".target"@
}

/// What the header of a preview component's section begins with.
pub open spec fn preview_prefix(name: Seq<char>) -> Seq<char> {
    "[pkg."@ + name + ".target."@
}

/// What the header of a component's section for `target` ends with.
pub open spec fn header_suffix(arch: Seq<char>, target: Seq<char>) -> Seq<char> {
    arch + "-"@ + target + "]"@
}

/// The search for a required component, given as its name and architecture
/// suffix, on `target`.
pub open spec fn wanted(pair: (Seq<char>, Seq<char>), target: Seq<char>) -> Wanted {
    Wanted {
        name: pair.0,
        prefix: header_prefix(pair.0),
        suffix: header_suffix(pair.1, target),
    }
}

/// The searches for all of `pairs`, in order.
pub open spec fn wanted_all(pairs: Seq<(Seq<char>, Seq<char>)>, target: Seq<char>) -> Seq<Wanted> {
    Seq::new(pairs.len(), |i: int| wanted(pairs[i], target))
}

/// The search that takes the place of `w` once its preview is searched instead:
/// the name gains `-preview`, the target suffix stays.
pub open spec fn preview_of(w: Wanted) -> Wanted {
    Wanted {
        name: w.name + "-preview"@,
        prefix: preview_prefix(w.name + "-preview"@),
        suffix: w.suffix,
    }
}

/// `header` shows the component that `w` searches for.
pub open spec fn header_matches(w: Wanted, header: Seq<char>) -> bool {
    is_prefix(w.prefix, header) && is_suffix(w.suffix, header)
}

/// `line` has the shape of a package section header.
pub open spec fn is_candidate_header(line: Seq<char>) -> bool {
    is_prefix("[pkg."@, line) && is_suffix("]"@, line)
}

/// `line` declares the section above it available.
pub open spec fn is_available(line: Seq<char>) -> bool {
    line == "available = true"@
}

/// The length of the longest of `names`.
pub open spec fn longest(names: Seq<Seq<char>>) -> nat
    decreases names.len(),
{
    if names.len() == 0 {
        0
    } else {
        let rest = longest(names.drop_last());
        if names.last().len() > rest {
            names.last().len()
        } else {
            rest
        }
    }
}

/// No name among `names` is longer than `longest(names)`.
pub proof fn lemma_longest_bounds(names: Seq<Seq<char>>, name: Seq<char>)
    requires
        names.contains(name),
    ensures
        name.len() <= longest(names),
    decreases names.len(),
{
    if names.last() != name {
        let i = choose|i: int| 0 <= i < names.len() && names[i] == name;
        assert(names.drop_last()[i] == name);
        lemma_longest_bounds(names.drop_last(), name);
    }
}

/// A bound on how often a component called `name` can still be replaced by
/// its preview: every replacement makes the name longer, and only names among
/// `previews` are replaced.
pub open spec fn substitutions_left(previews: Seq<Seq<char>>, name: Seq<char>) -> nat {
    if name.len() <= longest(previews) {
        (longest(previews) + 1 - name.len()) as nat
    } else {
        0
    }
}

/// What becomes of the search `w` at an available section header: `None` when
/// the header shows the component; otherwise, while the name is eligible, the
/// preview takes its place and is held against the same header; otherwise the
/// search goes on unchanged.
pub open spec fn settle(previews: Seq<Seq<char>>, w: Wanted, header: Seq<char>) -> Option<Wanted>
    decreases substitutions_left(previews, w.name),
    via settle_decreases
{
    if header_matches(w, header) {
        None
    } else if previews.contains(w.name) {
        settle(previews, preview_of(w), header)
    } else {
        Some(w)
    }
}

#[via_fn]
proof fn settle_decreases(previews: Seq<Seq<char>>, w: Wanted, header: Seq<char>) {
    if !header_matches(w, header) && previews.contains(w.name) {
        lemma_longest_bounds(previews, w.name);
        reveal_strlit("-preview");
    }
}

/// The searches that go on after an available section header, in the order of
/// `pending`.
pub open spec fn after_header(
    previews: Seq<Seq<char>>,
    pending: Seq<Wanted>,
    header: Seq<char>,
) -> Seq<Wanted>
    decreases pending.len(),
{
    if pending.len() == 0 {
        Seq::empty()
    } else {
        let rest = after_header(previews, pending.drop_first(), header);
        match settle(previews, pending[0], header) {
            None => rest,
            Some(w) => seq![w] + rest,
        }
    }
}

/// The searches that are still open when the lines from `at` on have been read.
/// Reading stops as soon as nothing is pending. A line that is no candidate
/// header is passed over. A candidate header takes the line after it along: if
/// there is none, reading stops; if it does not declare the section available,
/// both lines are passed over; otherwise the header is held against `pending`.
pub open spec fn scan(
    previews: Seq<Seq<char>>,
    pending: Seq<Wanted>,
    lines: Seq<Seq<char>>,
    at: int,
) -> Seq<Wanted>
    decreases lines.len() - at,
{
    if pending.len() == 0 || at < 0 || at >= lines.len() {
        pending
    } else if !is_candidate_header(lines[at]) {
        scan(previews, pending, lines, at + 1)
    } else if at + 1 >= lines.len() {
        pending
    } else if !is_available(lines[at + 1]) {
        scan(previews, pending, lines, at + 2)
    } else {
        scan(previews, after_header(previews, pending, lines[at]), lines, at + 2)
    }
}

/// The names that `pending` searches for, in order.
pub open spec fn names_wanted(pending: Seq<Wanted>) -> Seq<Seq<char>> {
    Seq::new(pending.len(), |i: int| pending[i].name)
}

/// The outcome of matching a manifest against the required components:
/// `None` when the manifest satisfies them all, otherwise the names that are
/// still searched for at its end, previews under their preview names, sorted
/// by name.
pub open spec fn match_outcome(
    previews: Seq<Seq<char>>,
    target: Seq<char>,
    pairs: Seq<(Seq<char>, Seq<char>)>,
    manifest: Seq<char>,
) -> Option<Seq<Seq<char>>> {
    let rest = scan(previews, wanted_all(pairs, target), lines_of(manifest), 0);
    if rest.len() == 0 {
        None
    } else {
        Some(sorted_names(names_wanted(rest)))
    }
}

/// A search in progress, with its patterns ready to be compared.
struct Pending {
    name: String,
    prefix: Vec<char>,
    suffix: Vec<char>,
}

impl Pending {
    spec fn model(&self) -> Wanted {
        Wanted { name: self.name@, prefix: self.prefix@, suffix: self.suffix@ }
    }

    fn new(name: &String, arch: &String, target: &str) -> (pending: Pending)
        ensures
            pending.model() == wanted((name@, arch@), target@),
    {
        let prefix = "[pkg.".to_owned().concat(name.as_str()).concat(".target");
        let suffix = arch.clone().concat("-").concat(target).concat("]");
        Pending {
            name: name.clone(),
            prefix: chars_of(prefix.as_str()),
            suffix: chars_of(suffix.as_str()),
        }
    }

    fn into_preview(self) -> (preview: Pending)
        ensures
            preview.model() == preview_of(self.model()),
    {
        let name = self.name.concat("-preview");
        let prefix = "[pkg.".to_owned().concat(name.as_str()).concat(".target.");
        Pending { name, prefix: chars_of(prefix.as_str()), suffix: self.suffix }
    }
}

spec fn models_of(pending: Seq<Pending>) -> Seq<Wanted> {
    Seq::new(pending.len(), |i: int| pending[i].model())
}

fn initial_pending(component_pairs: &[(String, String)], target: &str) -> (pending: Vec<Pending>)
    ensures
        models_of(pending@) == wanted_all(pairs_of(component_pairs@), target@),
{
    let mut pending: Vec<Pending> = Vec::new();
    let mut i: usize = 0;
    while i < component_pairs.len()
        invariant
            i <= component_pairs.len(),
            models_of(pending@) == wanted_all(pairs_of(component_pairs@), target@).take(i as int),
        decreases component_pairs.len() - i,
    {
        let item = Pending::new(&component_pairs[i].0, &component_pairs[i].1, target);
        let ghost all = wanted_all(pairs_of(component_pairs@), target@);
        let ghost before = models_of(pending@);
        assert(item.model() == all[i as int]);
        pending.push(item);
        i += 1;
        assert(models_of(pending@) == before.push(all[i - 1]));
        assert(all.take(i as int) == all.take(i - 1).push(all[i - 1]));
    }
    pending
}

/// Holds one available section header against every pending search.
fn judge_header(
    previews: &PreviewEligible,
    pending: &mut Vec<Pending>,
    chars: &Vec<char>,
    header: Span,
)
    requires
        header.fits(chars@.len()),
    ensures
        models_of(final(pending)@) == after_header(
            previews@,
            models_of(old(pending)@),
            header.of(chars@),
        ),
{
    let ghost line = header.of(chars@);
    let ghost before = models_of(pending@);
    let mut i: usize = 0;
    assert(before.take(0) + after_header(previews@, before.skip(0), line) == after_header(
        previews@,
        before,
        line,
    )) by {
        assert(before.skip(0) == before);
    }
    while i < pending.len()
        invariant
            i <= pending.len(),
            header.fits(chars@.len()),
            line == header.of(chars@),
            after_header(previews@, before, line) == models_of(pending@).take(i as int)
                + after_header(previews@, models_of(pending@).skip(i as int), line),
        decreases pending.len() - i, substitutions_left(previews@, pending@[i as int].name@),
    {
        let ghost models = models_of(pending@);
        let ghost w = models[i as int];
        assert(models.skip(i as int)[0] == w);
        assert(models.skip(i as int).drop_first() == models.skip(i + 1));
        if span_starts_with(chars, header, &pending[i].prefix) && span_ends_with(
            chars,
            header,
            &pending[i].suffix,
        ) {
            pending.remove(i);
            assert(models_of(pending@).take(i as int) == models.take(i as int));
            assert(models_of(pending@).skip(i as int) == models.skip(i + 1));
        } else if previews.contains(&pending[i].name) {
            let current = pending.remove(i);
            pending.insert(i, current.into_preview());
            proof {
                let after = models_of(pending@);
                assert(after.take(i as int) == models.take(i as int));
                assert(after.skip(i as int)[0] == preview_of(w));
                assert(after.skip(i as int).drop_first() == models.skip(i + 1));
                lemma_longest_bounds(previews@, w.name);
                reveal_strlit("-preview");
            }
        } else {
            i += 1;
            assert(models.take(i as int) == models.take(i - 1) + seq![w]);
        }
    }
    assert(models_of(pending@).take(i as int) == models_of(pending@));
}

/// Matches one manifest against the required components. Returns `None` when
/// the manifest offers them all for `target`, and otherwise the components
/// that are still missing at its end, sorted by name.
pub fn leftover_components(
    previews: &PreviewEligible,
    target: &str,
    component_pairs: &[(String, String)],
    text: &str,
) -> (leftovers: Option<Vec<String>>)
    ensures
        match leftovers {
            None => match_outcome(previews@, target@, pairs_of(component_pairs@), text@) is None,
            Some(names) => match_outcome(previews@, target@, pairs_of(component_pairs@), text@)
                == Some(texts_of(names@)),
        },
{
    let chars = chars_of(text);
    let spans = line_spans(&chars);
    let opening = chars_of("[pkg.");
    let closing = chars_of("]");
    let available = chars_of("available = true");
    let mut pending = initial_pending(component_pairs, target);
    let ghost lines = lines_of(text@);
    let ghost start = models_of(pending@);
    let mut at: usize = 0;
    while at < spans.len() && pending.len() > 0
        invariant
            at <= spans.len(),
            chars@ == text@,
            lines == lines_of(text@),
            spans_of(chars@, spans@) == lines,
            forall|i: int| 0 <= i < spans.len() ==> (#[trigger] spans[i]).fits(chars@.len()),
            opening@ == "[pkg."@,
            closing@ == "]"@,
            available@ == "available = true"@,
            scan(previews@, start, lines, 0) == scan(previews@, models_of(pending@), lines, at as int),
        decreases spans.len() - at,
    {
        let header = spans[at];
        assert(header.of(chars@) == spans_of(chars@, spans@)[at as int]);
        if !span_starts_with(&chars, header, &opening) || !span_ends_with(
            &chars,
            header,
            &closing,
        ) {
            at += 1;
        } else if at + 1 >= spans.len() {
            at = spans.len();
        } else {
            let follower = spans[at + 1];
            assert(follower.of(chars@) == spans_of(chars@, spans@)[at + 1]);
            if span_equals(&chars, follower, &available) {
                judge_header(previews, &mut pending, &chars, header);
            }
            at += 2;
        }
    }
    if pending.len() == 0 {
        return None;
    }
    let mut names: Vec<String> = Vec::new();
    let mut i: usize = 0;
    while i < pending.len()
        invariant
            i <= pending.len(),
            texts_of(names@) == names_wanted(models_of(pending@)).take(i as int),
        decreases pending.len() - i,
    {
        let ghost all = names_wanted(models_of(pending@));
        let ghost before = texts_of(names@);
        names.push(pending[i].name.clone());
        i += 1;
        assert(texts_of(names@) == before.push(all[i - 1]));
        assert(all.take(i as int) == all.take(i - 1).push(all[i - 1]));
    }
    assert(names_wanted(models_of(pending@)).take(i as int) == names_wanted(models_of(pending@)));
    Some(sort_names(names))
}

} // verus!
