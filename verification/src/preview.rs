//! The components for which a `-preview` publication is an acceptable
//! substitute.

use crate::text::texts_of;
use vstd::prelude::*;
use vstd::string::*;

verus! {

/// The names that are eligible when none is chosen.
pub open spec fn standard_previews() -> Seq<Seq<char>> {
    seq!["rustfmt"@, "rls"@, "clippy"@]
}

/// The base names of the components that may be replaced by their preview
/// publication. Only membership matters; the order is that of the listing.
pub struct PreviewEligible {
    pub names: Vec<String>,
}

impl View for PreviewEligible {
    type V = Seq<Seq<char>>;

    open spec fn view(&self) -> Seq<Seq<char>> {
        texts_of(self.names@)
    }
}

impl PreviewEligible {
    /// The standard eligible names: `rustfmt`, `rls` and `clippy`.
    pub fn standard() -> (previews: PreviewEligible)
        ensures
            previews@ == standard_previews(),
    {
        let mut names: Vec<String> = Vec::new();
        names.push("rustfmt".to_owned());
        names.push("rls".to_owned());
        names.push("clippy".to_owned());
        PreviewEligible { names }
    }

    /// The chosen names, or the standard ones when none is chosen.
    pub fn new(chosen: Vec<String>) -> (previews: PreviewEligible)
        ensures
            previews@ == if chosen@.len() == 0 {
                standard_previews()
            } else {
                texts_of(chosen@)
            },
    {
        if chosen.len() == 0 {
            PreviewEligible::standard()
        } else {
            PreviewEligible { names: chosen }
        }
    }

    /// Whether `name` is eligible.
    pub fn contains(&self, name: &String) -> (found: bool)
        ensures
            found == self@.contains(name@),
    {
        let mut i: usize = 0;
        while i < self.names.len()
            invariant
                i <= self.names.len(),
                forall|j: int| 0 <= j < i ==> self@[j] != name@,
            decreases self.names.len() - i,
        {
            if self.names[i] == *name {
                assert(self@[i as int] == name@);
                return true;
            }
            i += 1;
        }
        false
    }
}

} // verus!
