//! The requirement resolver: which components a release must offer. The
//! requested components are taken as they are; the components that a
//! toolchain manager lists as present are added, but for source bundles and
//! standard-library packages. The result is a set: no pair occurs twice.

use crate::component::{
    component_pair, get_pair_from_component, pairs_of, parse_toolchain, toolchain_parts,
};
use crate::text::{
    chars_of, is_prefix, is_suffix, line_spans, lines_of, span_ends_with, span_starts_with,
    spans_of, texts_of, Span,
};
use vstd::prelude::*;
use vstd::string::*;

verus! {

/// A listed entry without the annotation behind it. A line that is annotated
/// neither as default nor as installed lists nothing, which the empty text
/// stands for.
pub open spec fn without_annotation(line: Seq<char>) -> Seq<char> {
    if is_suffix(" (default)"@, line) {
        line.take(line.len() - " (default)"@.len())
    } else if is_suffix(" (installed)"@, line) {
        line.take(line.len() - " (installed)"@.len())
    } else {
        Seq::empty()
    }
}

/// A listed entry without the target that it ends with, and without the one
/// character that joins the two. An entry that does not end with the target
/// stays as it is; one that is nothing but the target becomes empty.
pub open spec fn without_target(entry: Seq<char>, target: Seq<char>) -> Seq<char> {
    if !is_suffix(target, entry) {
        entry
    } else if entry.len() > target.len() {
        entry.take(entry.len() - target.len() - 1)
    } else {
        Seq::empty()
    }
}

/// The component that a line of a component listing names for `target`.
pub open spec fn listed_component(line: Seq<char>, target: Seq<char>) -> Seq<char> {
    without_target(without_annotation(line), target)
}

/// Whether a listed component is taken up: source bundles and
/// standard-library packages are not, nor is an empty name.
pub open spec fn is_taken_up(component: Seq<char>) -> bool {
    component.len() > 0 && !is_prefix("rust-src"@, component) && !is_prefix(
        "rust-std"@,
        component,
    )
}

/// The pairs of the components that the lines of a listing add, in order.
pub open spec fn discovered(lines: Seq<Seq<char>>, target: Seq<char>) -> Seq<
    (Seq<char>, Seq<char>),
>
    decreases lines.len(),
{
    if lines.len() == 0 {
        Seq::empty()
    } else {
        let before = discovered(lines.drop_last(), target);
        let component = listed_component(lines.last(), target);
        if is_taken_up(component) {
            before.push(component_pair(component))
        } else {
            before
        }
    }
}

/// The pairs of the requested components, in order.
pub open spec fn requested(components: Seq<Seq<char>>) -> Seq<(Seq<char>, Seq<char>)> {
    Seq::new(components.len(), |i: int| component_pair(components[i]))
}

/// `pairs` without repetitions: each pair stays where it first occurs.
pub open spec fn distinct(pairs: Seq<(Seq<char>, Seq<char>)>) -> Seq<(Seq<char>, Seq<char>)>
    decreases pairs.len(),
{
    if pairs.len() == 0 {
        Seq::empty()
    } else {
        let before = distinct(pairs.drop_last());
        if before.contains(pairs.last()) {
            before
        } else {
            before.push(pairs.last())
        }
    }
}

/// The requirement set: the requested components, then those that the
/// listing adds, each pair once.
pub open spec fn required(
    components: Seq<Seq<char>>,
    listing: Option<Seq<char>>,
    target: Seq<char>,
) -> Seq<(Seq<char>, Seq<char>)> {
    match listing {
        Some(text) => distinct(requested(components) + discovered(lines_of(text), target)),
        None => distinct(requested(components)),
    }
}

/// `distinct` yields a set with the members of its argument: no pair occurs
/// twice in it, and a pair occurs in it exactly if it occurs in the argument.
pub proof fn lemma_distinct_is_a_set(pairs: Seq<(Seq<char>, Seq<char>)>)
    ensures
        distinct(pairs).no_duplicates(),
        forall|pair: (Seq<char>, Seq<char>)|
            distinct(pairs).contains(pair) <==> pairs.contains(pair),
    decreases pairs.len(),
{
    if pairs.len() > 0 {
        let before = pairs.drop_last();
        let last = pairs.last();
        lemma_distinct_is_a_set(before);
        assert forall|pair: (Seq<char>, Seq<char>)|
            distinct(pairs).contains(pair) <==> pairs.contains(pair) by {
            if pairs.contains(pair) {
                let i = choose|i: int| 0 <= i < pairs.len() && pairs[i] == pair;
                if i < before.len() {
                    assert(before[i] == pair);
                    assert(before.contains(pair));
                }
                if !distinct(before).contains(last) {
                    if distinct(before).contains(pair) {
                        let k = choose|k: int|
                            0 <= k < distinct(before).len() && distinct(before)[k] == pair;
                        assert(distinct(before).push(last)[k] == pair);
                    } else {
                        assert(distinct(before).push(last)[distinct(before).len() as int] == pair);
                    }
                }
            }
            if distinct(pairs).contains(pair) {
                let k = choose|k: int| 0 <= k < distinct(pairs).len() && distinct(pairs)[k] == pair;
                if k < distinct(before).len() {
                    assert(distinct(before)[k] == pair);
                    assert(before.contains(pair));
                    let i = choose|i: int| 0 <= i < before.len() && before[i] == pair;
                    assert(pairs[i] == pair);
                } else {
                    assert(pairs[pairs.len() - 1] == pair);
                }
            }
        }
    }
}

/// Every requested component is required, whatever its name: nothing is
/// excluded from what was asked for.
pub proof fn lemma_requested_are_required(
    components: Seq<Seq<char>>,
    listing: Option<Seq<char>>,
    target: Seq<char>,
    i: int,
)
    requires
        0 <= i < components.len(),
    ensures
        required(components, listing, target).contains(component_pair(components[i])),
        required(components, listing, target).no_duplicates(),
{
    let asked = requested(components);
    assert(asked[i] == component_pair(components[i]));
    match listing {
        Some(text) => {
            let all = asked + discovered(lines_of(text), target);
            assert(all[i] == asked[i]);
            assert(all.contains(asked[i]));
            lemma_distinct_is_a_set(all);
        },
        None => {
            assert(asked.contains(asked[i]));
            lemma_distinct_is_a_set(asked);
        },
    }
}

/// Adds `pair` to `set` unless it is there.
fn insert_pair(set: &mut Vec<(String, String)>, pair: (String, String))
    ensures
        pairs_of(final(set)@) == if pairs_of(old(set)@).contains((pair.0@, pair.1@)) {
            pairs_of(old(set)@)
        } else {
            pairs_of(old(set)@).push((pair.0@, pair.1@))
        },
{
    let ghost held = pairs_of(set@);
    let mut i: usize = 0;
    while i < set.len()
        invariant
            i <= set.len(),
            held == pairs_of(set@),
            forall|j: int| 0 <= j < i ==> held[j] != (pair.0@, pair.1@),
        decreases set.len() - i,
    {
        if set[i].0 == pair.0 && set[i].1 == pair.1 {
            assert(held[i as int] == (pair.0@, pair.1@));
            return;
        }
        i += 1;
    }
    set.push(pair);
    assert(pairs_of(set@) == held.push((pair.0@, pair.1@)));
}

/// The part of a listing line that names a component for `target`.
fn listed_span(chars: &Vec<char>, line: Span, target: &Vec<char>) -> (entry: Span)
    requires
        line.fits(chars@.len()),
    ensures
        entry.fits(chars@.len()),
        entry.of(chars@) == listed_component(line.of(chars@), target@),
{
    let default = chars_of(" (default)");
    let installed = chars_of(" (installed)");
    let end = if span_ends_with(chars, line, &default) {
        line.end - default.len()
    } else if span_ends_with(chars, line, &installed) {
        line.end - installed.len()
    } else {
        line.start
    };
    let bare = Span { start: line.start, end };
    assert(bare.of(chars@) == without_annotation(line.of(chars@)));
    if !span_ends_with(chars, bare, target) {
        bare
    } else if bare.end - bare.start > target.len() {
        let entry = Span { start: bare.start, end: bare.end - target.len() - 1 };
        assert(entry.of(chars@) == bare.of(chars@).take(
            bare.of(chars@).len() - target@.len() - 1,
        ));
        entry
    } else {
        let entry = Span { start: bare.start, end: bare.start };
        assert(entry.of(chars@) == Seq::<char>::empty());
        entry
    }
}

/// Builds the requirement set from the requested components and, where a
/// component listing of the toolchain manager is given, from the components
/// that it marks as default or installed for `target`.
pub fn resolve_requirements(components: Vec<String>, listing: Option<&str>, target: &str) -> (set:
    Vec<(String, String)>)
    ensures
        pairs_of(set@) == required(
            texts_of(components@),
            match listing {
                Some(text) => Some(text@),
                None => None,
            },
            target@,
        ),
{
    let mut set: Vec<(String, String)> = Vec::new();
    let ghost asked = requested(texts_of(components@));
    let mut i: usize = 0;
    assert(asked.take(0) == Seq::<(Seq<char>, Seq<char>)>::empty());
    while i < components.len()
        invariant
            i <= components.len(),
            asked == requested(texts_of(components@)),
            pairs_of(set@) == distinct(asked.take(i as int)),
        decreases components.len() - i,
    {
        let pair = get_pair_from_component(components[i].clone());
        assert(asked.take(i + 1).drop_last() == asked.take(i as int));
        assert(asked.take(i + 1).last() == (pair.0@, pair.1@));
        insert_pair(&mut set, pair);
        i += 1;
    }
    assert(asked.take(i as int) == asked);
    match listing {
        None => set,
        Some(text) => {
            let chars = chars_of(text);
            let spans = line_spans(&chars);
            let goal = chars_of(target);
            let source = chars_of("rust-src");
            let library = chars_of("rust-std");
            let ghost lines = lines_of(text@);
            let mut at: usize = 0;
            assert(lines.take(0) == Seq::<Seq<char>>::empty());
            assert(asked + discovered(lines.take(0), target@) == asked);
            while at < spans.len()
                invariant
                    at <= spans.len(),
                    chars@ == text@,
                    lines == lines_of(text@),
                    spans_of(chars@, spans@) == lines,
                    forall|k: int| 0 <= k < spans.len() ==> (#[trigger] spans[k]).fits(chars@.len()),
                    goal@ == target@,
                    source@ == "rust-src"@,
                    library@ == "rust-std"@,
                    pairs_of(set@) == distinct(asked + discovered(lines.take(at as int), target@)),
                decreases spans.len() - at,
            {
                let line = spans[at];
                assert(line.of(chars@) == spans_of(chars@, spans@)[at as int]);
                assert(lines.take(at + 1).drop_last() == lines.take(at as int));
                assert(lines.take(at + 1).last() == lines[at as int]);
                let ghost before = discovered(lines.take(at as int), target@);
                let entry = listed_span(&chars, line, &goal);
                if entry.end > entry.start && !span_starts_with(&chars, entry, &source)
                    && !span_starts_with(&chars, entry, &library) {
                    let name = text.substring_char(entry.start, entry.end).to_owned();
                    let pair = get_pair_from_component(name);
                    assert((asked + before.push((pair.0@, pair.1@))).drop_last() == asked + before);
                    assert((asked + before.push((pair.0@, pair.1@))).last() == (pair.0@, pair.1@));
                    insert_pair(&mut set, pair);
                }
                at += 1;
            }
            assert(lines.take(at as int) == lines);
            set
        },
    }
}

/// Why a toolchain listing names no default toolchain to work on.
#[derive(Clone, Copy, Debug, PartialEq, Eq)]
pub enum ToolchainError {
    /// No line of the listing is marked as the default.
    NoDefault,
    /// The default toolchain has no hyphen between channel and target.
    InvalidFormat,
}

/// The first entry among `lines`, from line `from` on, that is marked as the
/// default, without its mark.
pub open spec fn default_entry(lines: Seq<Seq<char>>, from: int) -> Option<Seq<char>>
    decreases lines.len() - from,
{
    if from < 0 || from >= lines.len() {
        None
    } else if is_suffix(" (default)"@, lines[from]) {
        Some(lines[from].take(lines[from].len() - " (default)"@.len()))
    } else {
        default_entry(lines, from + 1)
    }
}

/// The channel and target of the toolchain that a toolchain listing marks
/// as the default.
pub fn default_toolchain(listing: &str) -> (found: Result<(String, String), ToolchainError>)
    ensures
        match default_entry(lines_of(listing@), 0) {
            None => found == Err::<(String, String), ToolchainError>(ToolchainError::NoDefault),
            Some(entry) => match toolchain_parts(entry) {
                None => found == Err::<(String, String), ToolchainError>(
                    ToolchainError::InvalidFormat,
                ),
                Some(parts) => found is Ok && (found->Ok_0.0@, found->Ok_0.1@) == parts,
            },
        },
{
    let chars = chars_of(listing);
    let spans = line_spans(&chars);
    let mark = chars_of(" (default)");
    let ghost lines = lines_of(listing@);
    let mut at: usize = 0;
    while at < spans.len()
        invariant
            at <= spans.len(),
            chars@ == listing@,
            lines == lines_of(listing@),
            spans_of(chars@, spans@) == lines,
            forall|k: int| 0 <= k < spans.len() ==> (#[trigger] spans[k]).fits(chars@.len()),
            mark@ == " (default)"@,
            default_entry(lines, 0) == default_entry(lines, at as int),
        decreases spans.len() - at,
    {
        let line = spans[at];
        assert(line.of(chars@) == spans_of(chars@, spans@)[at as int]);
        if span_ends_with(&chars, line, &mark) {
            let entry = listing.substring_char(line.start, line.end - mark.len());
            assert(entry@ == lines[at as int].take(lines[at as int].len() - mark@.len()));
            return match parse_toolchain(entry) {
                Ok(parts) => Ok(parts),
                Err(_) => Err(ToolchainError::InvalidFormat),
            };
        }
        at += 1;
    }
    Err(ToolchainError::NoDefault)
}

} // verus!
