use toolchain_find::failure::Failure;
use toolchain_find::replace::{replace_plan, SwapStep};

const OLD: &str = "nightly-x86_64-unknown-linux-gnu";
const NEW: &str = "nightly-2019-03-09-x86_64-unknown-linux-gnu";

fn step(directory: &str, from: &str, to: Option<&str>, failure: Failure) -> SwapStep {
    SwapStep {
        directory: directory.to_string(),
        from: from.to_string(),
        to: to.map(|name| name.to_string()),
        failure,
    }
}

#[test]
fn previous_toolchain_is_removed_before_the_new_one_moves_in() {
    assert_eq!(
        replace_plan(OLD, NEW, false),
        vec![
            step("toolchains", OLD, None, Failure::RemovePreviousToolchain),
            step("toolchains", NEW, Some(OLD), Failure::MoveNewToolchain),
            step("update-hashes", OLD, None, Failure::RemovePreviousHashes),
            step("update-hashes", NEW, Some(OLD), Failure::MoveNewHashes),
        ]
    );
}

#[test]
fn previous_toolchain_is_kept_under_another_name() {
    let aside = "nightly-x86_64-unknown-linux-gnu-old";
    assert_eq!(
        replace_plan(OLD, NEW, true),
        vec![
            step("toolchains", OLD, Some(aside), Failure::KeepPreviousToolchain),
            step("toolchains", NEW, Some(OLD), Failure::MoveNewToolchain),
            step("update-hashes", OLD, Some(aside), Failure::KeepPreviousHashes),
            step("update-hashes", NEW, Some(OLD), Failure::MoveNewHashes),
        ]
    );
}

#[test]
fn steps_of_a_replacement_have_exit_codes_of_their_own() {
    for keep_old in [false, true].iter() {
        let codes: Vec<i32> =
            replace_plan(OLD, NEW, *keep_old).iter().map(|step| step.failure.exit_code()).collect();
        for (i, a) in codes.iter().enumerate() {
            for b in codes[i + 1..].iter() {
                assert_ne!(a, b);
            }
        }
    }
}
