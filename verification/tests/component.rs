use toolchain_find::component::{get_pair_from_component, parse_toolchain};

fn split(component: &str) -> (String, String) {
    get_pair_from_component(component.to_string())
}

fn pair(name: &str, arch: &str) -> (String, String) {
    (name.to_string(), arch.to_string())
}

#[test]
fn standard_library_component_splits_behind_its_base_name() {
    assert_eq!(
        split("rust-std-x86_64-unknown-linux-gnu"),
        pair("rust-std", "x86_64-unknown-linux-gnu")
    );
}

#[test]
fn component_without_a_further_hyphen_is_its_own_name() {
    assert_eq!(split("rust-src"), pair("rust-src", ""));
    assert_eq!(split("rust-analysis"), pair("rust-analysis", ""));
    assert_eq!(split("rustfmt"), pair("rustfmt", ""));
    assert_eq!(split("cargo"), pair("cargo", ""));
    assert_eq!(split(""), pair("", ""));
    assert_eq!(split("rust-"), pair("rust-", ""));
}

#[test]
fn component_without_the_rust_prefix_splits_at_its_first_hyphen() {
    assert_eq!(split("cargo-x86_64"), pair("cargo", "x86_64"));
    assert_eq!(split("clippy-preview"), pair("clippy", "preview"));
    assert_eq!(split("llvm-tools-preview"), pair("llvm", "tools-preview"));
    assert_eq!(split("rustfmt-"), pair("rustfmt", ""));
    assert_eq!(split("-x"), pair("", "x"));
    assert_eq!(split("rust"), pair("rust", ""));
    assert_eq!(split("rustc-dev"), pair("rustc", "dev"));
}

#[test]
fn hyphen_right_behind_the_rust_prefix_splits_there() {
    assert_eq!(split("rust--x"), pair("rust-", "x"));
    assert_eq!(split("rust-analysis-x86_64-apple-darwin"), pair("rust-analysis", "x86_64-apple-darwin"));
}

#[test]
fn toolchain_splits_at_its_first_hyphen() {
    assert_eq!(
        parse_toolchain("nightly-x86_64-unknown-linux-gnu"),
        Ok(pair("nightly", "x86_64-unknown-linux-gnu"))
    );
    assert_eq!(parse_toolchain("stable-"), Ok(pair("stable", "")));
    assert_eq!(parse_toolchain("-gnu"), Ok(pair("", "gnu")));
    assert_eq!(
        parse_toolchain("nightly-2019-03-09-x86_64-pc-windows-msvc"),
        Ok(pair("nightly", "2019-03-09-x86_64-pc-windows-msvc"))
    );
}

#[test]
fn toolchain_without_a_hyphen_is_invalid() {
    assert_eq!(parse_toolchain("nightly"), Err("Invalid toolchain format."));
    assert_eq!(parse_toolchain(""), Err("Invalid toolchain format."));
}
