//! Replacing an installed toolchain by a new one: which entries of the
//! toolchain manager's home are moved or removed, in which order, and how
//! the run fails where a step fails. The steps themselves are carried out
//! by the caller; after a failed step nothing is undone.

use crate::failure::Failure;
use vstd::prelude::*;
use vstd::string::*;

verus! {

/// One step of a replacement.
#[derive(Debug, PartialEq, Eq)]
pub struct SwapStep {
    /// The directory of the manager's home in which the step works.
    pub directory: String,
    /// The entry of that directory that is moved or removed.
    pub from: String,
    /// The name that the entry is moved to; none where it is removed.
    pub to: Option<String>,
    /// How the run fails if the step fails.
    pub failure: Failure,
}

/// A `SwapStep`, with text in place of strings.
pub struct SwapStepView {
    pub directory: Seq<char>,
    pub from: Seq<char>,
    pub to: Option<Seq<char>>,
    pub failure: Failure,
}

impl View for SwapStep {
    type V = SwapStepView;

    open spec fn view(&self) -> SwapStepView {
        SwapStepView {
            directory: self.directory@,
            from: self.from@,
            to: match self.to {
                Some(name) => Some(name@),
                None => None,
            },
            failure: self.failure,
        }
    }
}

/// The steps of `steps`, with text in place of strings.
pub open spec fn steps_of(steps: Seq<SwapStep>) -> Seq<SwapStepView> {
    Seq::new(steps.len(), |i: int| steps[i]@)
}

/// How the previous entry of a directory makes room: it is kept under its
/// name with `-old` behind it, or removed.
pub open spec fn make_room(
    directory: Seq<char>,
    toolchain: Seq<char>,
    keep_old: bool,
    keeping: Failure,
    removing: Failure,
) -> SwapStepView {
    if keep_old {
        SwapStepView {
            directory,
            from: toolchain,
            to: Some(toolchain + "-old"@),
            failure: keeping,
        }
    } else {
        SwapStepView { directory, from: toolchain, to: None, failure: removing }
    }
}

/// How the new entry of a directory takes the place of the previous one.
pub open spec fn move_in(
    directory: Seq<char>,
    toolchain: Seq<char>,
    new_toolchain: Seq<char>,
    moving: Failure,
) -> SwapStepView {
    SwapStepView { directory, from: new_toolchain, to: Some(toolchain), failure: moving }
}

/// The steps that put `new_toolchain` in the place of `toolchain`: first among
/// the toolchains, then among their hashes.
pub open spec fn swap_plan(
    toolchain: Seq<char>,
    new_toolchain: Seq<char>,
    keep_old: bool,
) -> Seq<SwapStepView> {
    seq![
        make_room(
            "toolchains"@,
            toolchain,
            keep_old,
            Failure::KeepPreviousToolchain,
            Failure::RemovePreviousToolchain,
        ),
        move_in("toolchains"@, toolchain, new_toolchain, Failure::MoveNewToolchain),
        make_room(
            "update-hashes"@,
            toolchain,
            keep_old,
            Failure::KeepPreviousHashes,
            Failure::RemovePreviousHashes,
        ),
        move_in("update-hashes"@, toolchain, new_toolchain, Failure::MoveNewHashes),
    ]
}

/// Every step of a replacement fails in a way of its own, so that the exit
/// code tells where a replacement stopped.
pub proof fn lemma_steps_fail_apart(
    toolchain: Seq<char>,
    new_toolchain: Seq<char>,
    keep_old: bool,
    i: int,
    j: int,
)
    requires
        0 <= i < j < swap_plan(toolchain, new_toolchain, keep_old).len(),
    ensures
        swap_plan(toolchain, new_toolchain, keep_old)[i].failure.code() != swap_plan(
            toolchain,
            new_toolchain,
            keep_old,
        )[j].failure.code(),
{
}

fn room_step(directory: &str, toolchain: &str, keep_old: bool, keeping: Failure, removing: Failure) -> (step:
    SwapStep)
    ensures
        step@ == make_room(directory@, toolchain@, keep_old, keeping, removing),
{
    if keep_old {
        SwapStep {
            directory: directory.to_owned(),
            from: toolchain.to_owned(),
            to: Some(toolchain.to_owned().concat("-old")),
            failure: keeping,
        }
    } else {
        SwapStep {
            directory: directory.to_owned(),
            from: toolchain.to_owned(),
            to: None,
            failure: removing,
        }
    }
}

fn move_step(directory: &str, toolchain: &str, new_toolchain: &str, moving: Failure) -> (step:
    SwapStep)
    ensures
        step@ == move_in(directory@, toolchain@, new_toolchain@, moving),
{
    SwapStep {
        directory: directory.to_owned(),
        from: new_toolchain.to_owned(),
        to: Some(toolchain.to_owned()),
        failure: moving,
    }
}

/// Plans the replacement of `toolchain` by `new_toolchain`. With `keep_old`
/// the previous entries are kept under another name; without it they are
/// removed.
pub fn replace_plan(toolchain: &str, new_toolchain: &str, keep_old: bool) -> (steps: Vec<SwapStep>)
    ensures
        steps_of(steps@) == swap_plan(toolchain@, new_toolchain@, keep_old),
{
    let mut steps: Vec<SwapStep> = Vec::new();
    steps.push(
        room_step(
            "toolchains",
            toolchain,
            keep_old,
            Failure::KeepPreviousToolchain,
            Failure::RemovePreviousToolchain,
        ),
    );
    steps.push(move_step("toolchains", toolchain, new_toolchain, Failure::MoveNewToolchain));
    steps.push(
        room_step(
            "update-hashes",
            toolchain,
            keep_old,
            Failure::KeepPreviousHashes,
            Failure::RemovePreviousHashes,
        ),
    );
    steps.push(move_step("update-hashes", toolchain, new_toolchain, Failure::MoveNewHashes));
    steps
}

} // verus!
