use toolchain_find::matcher::leftover_components;
use toolchain_find::preview::PreviewEligible;

/// A small generator of numbers that gives the same run every time.
struct Numbers(u64);

impl Numbers {
    fn below(&mut self, bound: usize) -> usize {
        self.0 = self.0.wrapping_mul(6364136223846793005).wrapping_add(1442695040888963407);
        ((self.0 >> 33) as usize) % bound
    }

    fn pick<'a>(&mut self, items: &[&'a str]) -> &'a str {
        items[self.below(items.len())]
    }
}

/// What becomes of one search at an available header, by the string functions
/// of the standard library.
fn settled(previews: &[String], name: &str, prefix: &str, end: &str, header: &str) -> Option<(String, String)> {
    let mut name = name.to_string();
    let mut prefix = prefix.to_string();
    loop {
        if header.starts_with(&prefix) && header.ends_with(end) {
            return None;
        }
        if !previews.contains(&name) {
            return Some((name, prefix));
        }
        name.push_str("-preview");
        prefix = format!("[pkg.{}.target.", name);
    }
}

/// The outcome of matching, by the string functions of the standard library.
fn expected(previews: &[String], target: &str, pairs: &[(String, String)], text: &str) -> Option<Vec<String>> {
    let mut pending: Vec<(String, String, String)> = pairs
        .iter()
        .map(|(name, arch)| {
            (name.clone(), format!("[pkg.{}.target", name), format!("{}-{}]", arch, target))
        })
        .collect();
    let lines: Vec<&str> = text.lines().collect();
    let mut at = 0;
    while at < lines.len() && !pending.is_empty() {
        let header = lines[at];
        if !header.starts_with("[pkg.") || !header.ends_with(']') {
            at += 1;
        } else if at + 1 == lines.len() {
            break;
        } else {
            if lines[at + 1] == "available = true" {
                let mut later = Vec::new();
                for (name, prefix, end) in pending.iter() {
                    if let Some((name, prefix)) = settled(previews, name, prefix, end, header) {
                        later.push((name, prefix, end.clone()));
                    }
                }
                pending = later;
            }
            at += 2;
        }
    }
    if pending.is_empty() {
        None
    } else {
        let mut names: Vec<String> = pending.into_iter().map(|(name, _, _)| name).collect();
        names.sort();
        Some(names)
    }
}

const NAMES: [&str; 7] =
    ["cargo", "rls", "rls-preview", "rustfmt", "rustfmt-preview", "rust-std", "rls-preview-preview"];
const ARCHES: [&str; 3] = ["", "x86_64", "aarch64"];
const TARGETS: [&str; 2] = ["unknown-linux-gnu", "apple-darwin"];
const ENDINGS: [&str; 3] = ["\n", "\r\n", "\n\n"];

fn some_line(numbers: &mut Numbers) -> String {
    match numbers.below(10) {
        0 | 1 | 2 | 3 => {
            let joint = numbers.pick(&[".target.", ".target.", ".target", "."]);
            format!(
                "[pkg.{}{}{}-{}]",
                numbers.pick(&NAMES),
                joint,
                numbers.pick(&ARCHES),
                numbers.pick(&TARGETS)
            )
        }
        4 | 5 | 6 | 7 => "available = true".to_string(),
        8 => "available = false".to_string(),
        _ => numbers.pick(&["", "[pkg.cargo]", "version = \"1\"", "available = true ", "[renames.rls]"]).to_string(),
    }
}

#[test]
fn matching_agrees_with_the_string_functions_of_the_standard_library() {
    let mut numbers = Numbers(2019);
    let mut satisfied = 0;
    let mut unsatisfied = 0;
    for _ in 0..3000 {
        let mut text = String::new();
        for _ in 0..numbers.below(16) {
            text.push_str(&some_line(&mut numbers));
            text.push_str(numbers.pick(&ENDINGS));
        }
        if numbers.below(4) == 0 {
            text.push_str(&some_line(&mut numbers));
        }
        let mut pairs = Vec::new();
        for _ in 0..numbers.below(4) {
            pairs.push((numbers.pick(&NAMES).to_string(), numbers.pick(&ARCHES).to_string()));
        }
        let mut chosen = Vec::new();
        for _ in 0..numbers.below(4) {
            chosen.push(numbers.pick(&NAMES).to_string());
        }
        let target = numbers.pick(&TARGETS);
        let previews = PreviewEligible { names: chosen.clone() };
        let outcome = leftover_components(&previews, target, &pairs, &text);
        assert_eq!(outcome, expected(&chosen, target, &pairs, &text), "for {:?} in {:?}", pairs, text);
        match outcome {
            None => satisfied += 1,
            Some(_) => unsatisfied += 1,
        }
    }
    assert!(satisfied > 300);
    assert!(unsatisfied > 300);
}
