//! The ways in which a run fails for good, and the exit code of each.

use vstd::prelude::*;

verus! {

/// A failure that ends the run.
#[derive(Clone, Copy, Debug, PartialEq, Eq, Structural)]
pub enum Failure {
    /// The toolchain manager ran and reported a failure.
    ManagerFailed,
    /// The output of the toolchain manager is no text.
    OutputNotText,
    /// No installed toolchain is marked as the default.
    NoDefaultToolchain,
    /// No date within the look-back window was satisfying.
    NoMatchInWindow,
    /// The toolchain that was found could not be installed.
    InstallFailed,
    /// The previous toolchain could not be moved aside.
    KeepPreviousToolchain,
    /// The previous toolchain could not be removed.
    RemovePreviousToolchain,
    /// The new toolchain could not be moved into place.
    MoveNewToolchain,
    /// The hashes of the previous toolchain could not be moved aside.
    KeepPreviousHashes,
    /// The hashes of the previous toolchain could not be removed.
    RemovePreviousHashes,
    /// The hashes of the new toolchain could not be moved into place.
    MoveNewHashes,
}

impl Failure {
    /// The exit code that reports the failure.
    pub open spec fn code(self) -> int {
        match self {
            Failure::ManagerFailed => 1,
            Failure::OutputNotText => 2,
            Failure::NoDefaultToolchain => 3,
            Failure::NoMatchInWindow => 5,
            Failure::InstallFailed => 6,
            Failure::KeepPreviousToolchain => 7,
            Failure::RemovePreviousToolchain => 8,
            Failure::MoveNewToolchain => 9,
            Failure::KeepPreviousHashes => 10,
            Failure::RemovePreviousHashes => 11,
            Failure::MoveNewHashes => 12,
        }
    }

    /// The exit code that reports the failure.
    pub fn exit_code(&self) -> (code: i32)
        ensures
            code == self.code(),
    {
        match self {
            Failure::ManagerFailed => 1,
            Failure::OutputNotText => 2,
            Failure::NoDefaultToolchain => 3,
            Failure::NoMatchInWindow => 5,
            Failure::InstallFailed => 6,
            Failure::KeepPreviousToolchain => 7,
            Failure::RemovePreviousToolchain => 8,
            Failure::MoveNewToolchain => 9,
            Failure::KeepPreviousHashes => 10,
            Failure::RemovePreviousHashes => 11,
            Failure::MoveNewHashes => 12,
        }
    }
}

/// Every failure has an exit code of its own, and none has the code of
/// success.
pub proof fn lemma_exit_codes_tell_failures_apart(a: Failure, b: Failure)
    ensures
        a.code() != 0,
        a != b ==> a.code() != b.code(),
{
}

} // verus!
