//! How a date that did not satisfy is reported.

use vstd::prelude::*;

verus! {

/// What is said of the components that a manifest lacks.
#[derive(Clone, Copy, Debug, PartialEq, Eq, Structural)]
pub enum Shortfall {
    /// None of the required components was available.
    NoneAvailable,
    /// One component was missing.
    One,
    /// Several components were missing.
    Several,
}

/// Which report applies when `missing` of `required` components are missing.
/// That nothing was available comes first: it is said also where only one
/// component was required.
pub open spec fn shortfall_of(required: nat, missing: nat) -> Shortfall {
    if missing == required {
        Shortfall::NoneAvailable
    } else if missing == 1 {
        Shortfall::One
    } else {
        Shortfall::Several
    }
}

/// Which report applies when `missing` of `required` components are missing.
pub fn shortfall(required: usize, missing: usize) -> (said: Shortfall)
    ensures
        said == shortfall_of(required as nat, missing as nat),
{
    if missing == required {
        Shortfall::NoneAvailable
    } else if missing == 1 {
        Shortfall::One
    } else {
        Shortfall::Several
    }
}

} // verus!
