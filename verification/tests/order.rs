use toolchain_find::order::{name_precedes, sort_names};

fn strings(items: &[&str]) -> Vec<String> {
    items.iter().map(|item| item.to_string()).collect()
}

#[test]
fn names_are_ordered_like_words_in_a_dictionary() {
    assert!(name_precedes("cargo", "clippy"));
    assert!(!name_precedes("clippy", "cargo"));
    assert!(name_precedes("rust", "rust-std"));
    assert!(!name_precedes("rust-std", "rust"));
    assert!(name_precedes("rls", "rls"));
    assert!(name_precedes("", "a"));
    assert!(name_precedes("", ""));
    assert!(!name_precedes("a", ""));
    assert!(name_precedes("Zebra", "apple"));
    assert!(name_precedes("rust-std", "rustc"));
    assert!(name_precedes("z", "é"));
}

#[test]
fn name_order_is_that_of_strings() {
    let names = ["", "a", "ab", "b", "rust-std", "rustc", "rls-preview", "rls", "é", "z", "Z", "-"];
    for a in names.iter() {
        for b in names.iter() {
            assert_eq!(name_precedes(a, b), a <= b, "for {:?} and {:?}", a, b);
        }
    }
}

#[test]
fn names_are_sorted_in_ascending_order() {
    assert_eq!(
        sort_names(strings(&["rustfmt-preview", "cargo", "rls", "rust-analysis", "cargo"])),
        strings(&["cargo", "cargo", "rls", "rust-analysis", "rustfmt-preview"])
    );
    assert_eq!(sort_names(Vec::new()), Vec::<String>::new());
    assert_eq!(sort_names(strings(&["rustc"])), strings(&["rustc"]));
}

#[test]
fn sorting_agrees_with_the_standard_library() {
    let names = strings(&["rustc", "rust-std", "", "clippy-preview", "clippy", "é", "z", "Z", "cargo"]);
    let mut expected = names.clone();
    expected.sort();
    assert_eq!(sort_names(names), expected);
}
