//! Component names: how a component string splits into a base name and an
//! architecture suffix, and how a toolchain name splits into channel and target.

use crate::text::{chars_of, find_from, is_prefix, position_from, span_starts_with, Span};
use vstd::prelude::*;
use vstd::string::*;

verus! {

/// Where the search for the splitting hyphen of a component string begins:
/// behind a leading `rust-`, or at the start when there is none.
pub open spec fn split_start(component: Seq<char>) -> int {
    if is_prefix("rust-"@, component) {
        "rust-"@.len() as int
    } else {
        0
    }
}

/// The base name and architecture suffix of a component string. The string
/// splits at its first hyphen at or after `split_start`, which belongs to
/// neither part; without such a hyphen the whole string is the name and the
/// suffix is empty.
pub open spec fn component_pair(component: Seq<char>) -> (Seq<char>, Seq<char>) {
    let at = find_from(component, '-', split_start(component));
    if at < component.len() {
        (component.take(at), component.skip(at + 1))
    } else {
        (component, Seq::empty())
    }
}

/// The channel and target of a toolchain name: what stands before and behind
/// its first hyphen. A name without a hyphen has neither.
pub open spec fn toolchain_parts(toolchain: Seq<char>) -> Option<(Seq<char>, Seq<char>)> {
    let at = find_from(toolchain, '-', 0);
    if at < toolchain.len() {
        Some((toolchain.take(at), toolchain.skip(at + 1)))
    } else {
        None
    }
}

/// Splits a component string into its base name and architecture suffix.
pub fn get_pair_from_component(component: String) -> (pair: (String, String))
    ensures
        (pair.0@, pair.1@) == component_pair(component@),
{
    let text = component.as_str();
    let chars = chars_of(text);
    let whole = Span { start: 0, end: chars.len() };
    let lead = chars_of("rust-");
    assert(whole.of(chars@) == chars@);
    let start = if span_starts_with(&chars, whole, &lead) {
        lead.len()
    } else {
        0
    };
    let at = position_from(&chars, '-', start);
    if at < chars.len() {
        let name = text.substring_char(0, at).to_owned();
        let arch = text.substring_char(at + 1, chars.len()).to_owned();
        (name, arch)
    } else {
        (component, String::new())
    }
}

/// Splits a toolchain name into its channel and its target.
pub fn parse_toolchain(toolchain: &str) -> (parsed: Result<(String, String), &'static str>)
    ensures
        match parsed {
            Ok(parts) => toolchain_parts(toolchain@) == Some((parts.0@, parts.1@)),
            Err(message) => toolchain_parts(toolchain@) is None && message@
                == "Invalid toolchain format."@,
        },
{
    let chars = chars_of(toolchain);
    let hyphen = position_from(&chars, '-', 0);
    if hyphen < chars.len() {
        let channel = toolchain.substring_char(0, hyphen).to_owned();
        let target = toolchain.substring_char(hyphen + 1, chars.len()).to_owned();
        Ok((channel, target))
    } else {
        Err("Invalid toolchain format.")
    }
}

/// The text of both halves of each pair, in order.
pub open spec fn pairs_of(pairs: Seq<(String, String)>) -> Seq<(Seq<char>, Seq<char>)> {
    Seq::new(pairs.len(), |i: int| (pairs[i].0@, pairs[i].1@))
}

} // verus!
