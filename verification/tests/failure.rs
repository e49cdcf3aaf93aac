use toolchain_find::failure::Failure;
use toolchain_find::report::{shortfall, Shortfall};

const FAILURES: [Failure; 11] = [
    Failure::ManagerFailed,
    Failure::OutputNotText,
    Failure::NoDefaultToolchain,
    Failure::NoMatchInWindow,
    Failure::InstallFailed,
    Failure::KeepPreviousToolchain,
    Failure::RemovePreviousToolchain,
    Failure::MoveNewToolchain,
    Failure::KeepPreviousHashes,
    Failure::RemovePreviousHashes,
    Failure::MoveNewHashes,
];

#[test]
fn exit_codes_of_the_failures() {
    let codes: Vec<i32> = FAILURES.iter().map(|failure| failure.exit_code()).collect();
    assert_eq!(codes, vec![1, 2, 3, 5, 6, 7, 8, 9, 10, 11, 12]);
}

#[test]
fn exit_codes_tell_failures_apart() {
    for (i, a) in FAILURES.iter().enumerate() {
        assert_ne!(a.exit_code(), 0);
        for b in FAILURES[i + 1..].iter() {
            assert_ne!(a.exit_code(), b.exit_code());
        }
    }
}

#[test]
fn one_missing_component_is_reported_in_the_singular() {
    assert_eq!(shortfall(3, 1), Shortfall::One);
    assert_eq!(shortfall(2, 1), Shortfall::One);
}

#[test]
fn several_missing_components_are_reported_in_the_plural() {
    assert_eq!(shortfall(3, 2), Shortfall::Several);
    assert_eq!(shortfall(10, 9), Shortfall::Several);
}

#[test]
fn nothing_available_is_reported_first() {
    assert_eq!(shortfall(3, 3), Shortfall::NoneAvailable);
    assert_eq!(shortfall(1, 1), Shortfall::NoneAvailable);
    assert_eq!(shortfall(0, 0), Shortfall::NoneAvailable);
}
