use toolchain_find::path::home_relative;

#[test]
fn path_below_home_loses_the_tilde_and_the_separator() {
    assert_eq!(home_relative("~/.rustup"), Some(".rustup".to_string()));
    assert_eq!(home_relative("~/a/b"), Some("a/b".to_string()));
    assert_eq!(home_relative("~/"), Some(String::new()));
    assert_eq!(home_relative("~ab"), Some("b".to_string()));
}

#[test]
fn tilde_alone_is_the_home_directory() {
    assert_eq!(home_relative("~"), Some(String::new()));
}

#[test]
fn other_paths_are_not_below_home() {
    assert_eq!(home_relative("rustup"), None);
    assert_eq!(home_relative("/usr/bin/rustup"), None);
    assert_eq!(home_relative("a~"), None);
    assert_eq!(home_relative(""), None);
}
