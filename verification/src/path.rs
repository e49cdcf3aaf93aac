//! Paths as they are given on the command line, where `~` stands for the
//! home directory.

use crate::text::chars_of;
use vstd::prelude::*;
use vstd::string::*;

verus! {

/// What a path that begins with `~` names below the home directory: the
/// path without its first two characters, the `~` and the separator behind
/// it. A path that does not begin with `~` names nothing there.
pub open spec fn below_home(path: Seq<char>) -> Option<Seq<char>> {
    if path.len() > 0 && path[0] == '~' {
        if path.len() >= 2 {
            Some(path.skip(2))
        } else {
            Some(Seq::empty())
        }
    } else {
        None
    }
}

/// The part of `path` that is to be joined to the home directory, if the
/// path begins with `~`.
pub fn home_relative(path: &str) -> (rest: Option<String>)
    ensures
        match rest {
            Some(text) => below_home(path@) == Some(text@),
            None => below_home(path@) is None,
        },
{
    let chars = chars_of(path);
    if chars.len() == 0 || chars[0] != '~' {
        None
    } else if chars.len() >= 2 {
        Some(path.substring_char(2, chars.len()).to_owned())
    } else {
        Some(String::new())
    }
}

} // verus!
