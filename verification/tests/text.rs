use toolchain_find::text::{
    chars_of, line_spans, position_from, span_ends_with, span_equals, span_starts_with, Span,
};

fn lines_by_library(text: &str) -> Vec<String> {
    let chars = chars_of(text);
    line_spans(&chars).iter().map(|span| chars[span.start..span.end].iter().collect()).collect()
}

fn lines_by_std(text: &str) -> Vec<String> {
    text.lines().map(|line| line.to_string()).collect()
}

fn whole(chars: &Vec<char>) -> Span {
    Span { start: 0, end: chars.len() }
}

#[test]
fn chars_of_keeps_every_character_in_order() {
    assert_eq!(chars_of("a-é]"), vec!['a', '-', 'é', ']']);
    assert_eq!(chars_of(""), Vec::<char>::new());
}

#[test]
fn lines_of_plain_text() {
    assert_eq!(lines_by_library("one\ntwo\nthree"), vec!["one", "two", "three"]);
}

#[test]
fn final_line_ending_adds_no_line() {
    assert_eq!(lines_by_library("one\ntwo\n"), vec!["one", "two"]);
    assert_eq!(lines_by_library("\n"), vec![""]);
    assert_eq!(lines_by_library(""), Vec::<String>::new());
}

#[test]
fn carriage_return_belongs_to_the_ending_only_before_a_line_feed() {
    assert_eq!(lines_by_library("one\r\ntwo\r\n"), vec!["one", "two"]);
    assert_eq!(lines_by_library("one\rtwo\n"), vec!["one\rtwo"]);
    assert_eq!(lines_by_library("one\r"), vec!["one\r"]);
    assert_eq!(lines_by_library("one\r\r\ntwo"), vec!["one\r", "two"]);
    assert_eq!(lines_by_library("\r\n"), vec![""]);
}

#[test]
fn lines_agree_with_the_standard_library() {
    let fixtures = [
        "",
        "a",
        "a\n",
        "a\r\n",
        "a\rb\n",
        "a\n\nb",
        "\n",
        "\n\n",
        "a\r",
        "\r\n",
        "\r",
        "x\r\r\ny",
        "[pkg.cargo.target.x86_64-unknown-linux-gnu]\navailable = true\n",
        "é\nü\r\nß",
    ];
    for text in fixtures.iter() {
        assert_eq!(lines_by_library(text), lines_by_std(text), "for {:?}", text);
    }
}

#[test]
fn position_of_the_first_occurrence() {
    let chars = chars_of("rust-std-x86_64");
    assert_eq!(position_from(&chars, '-', 0), 4);
    assert_eq!(position_from(&chars, '-', 5), 8);
    assert_eq!(position_from(&chars, '-', 9), 15);
    assert_eq!(position_from(&chars, '-', 15), 15);
}

#[test]
fn prefixes_and_suffixes_of_a_span() {
    let chars = chars_of("[pkg.cargo.target.x86_64-unknown-linux-gnu]");
    assert!(span_starts_with(&chars, whole(&chars), &chars_of("[pkg.")));
    assert!(span_starts_with(&chars, whole(&chars), &chars_of("")));
    assert!(!span_starts_with(&chars, whole(&chars), &chars_of("[pkg.rustc")));
    assert!(span_ends_with(&chars, whole(&chars), &chars_of("-unknown-linux-gnu]")));
    assert!(span_ends_with(&chars, whole(&chars), &chars_of("")));
    assert!(!span_ends_with(&chars, whole(&chars), &chars_of("-unknown-linux-musl]")));
    let inner = Span { start: 5, end: 10 };
    assert!(span_equals(&chars, inner, &chars_of("cargo")));
    assert!(!span_equals(&chars, inner, &chars_of("carg")));
    assert!(!span_equals(&chars, inner, &chars_of("cargo.")));
    assert!(span_starts_with(&chars, inner, &chars_of("car")));
    assert!(!span_starts_with(&chars, inner, &chars_of("cargo.")));
    assert!(span_ends_with(&chars, inner, &chars_of("go")));
    assert!(!span_ends_with(&chars, inner, &chars_of(".cargo")));
}

#[test]
fn lines_agree_with_the_standard_library_on_every_short_text() {
    let alphabet = ['a', '\n', '\r'];
    let mut texts = vec![String::new()];
    let mut from = 0;
    for _ in 0..7 {
        let until = texts.len();
        for i in from..until {
            for c in alphabet.iter() {
                let mut longer = texts[i].clone();
                longer.push(*c);
                texts.push(longer);
            }
        }
        from = until;
    }
    assert_eq!(texts.len(), 3280);
    for text in texts.iter() {
        assert_eq!(lines_by_library(text), lines_by_std(text), "for {:?}", text);
    }
}
