use toolchain_find::calendar::date_before;
use toolchain_find::preview::PreviewEligible;
use toolchain_find::search::{
    judge, manifest_url, toolchain_identifier, Fetched, Search, Step, Verdict,
};

const TARGET: &str = "x86_64-unknown-linux-gnu";

// The day number of 1999-09-03.
const TODAY: i32 = 730_000;

fn pair(name: &str, arch: &str) -> (String, String) {
    (name.to_string(), arch.to_string())
}

fn section(name: &str) -> String {
    format!("[pkg.{}.target.-{}]\navailable = true\n", name, TARGET)
}

fn requirements() -> Vec<(String, String)> {
    vec![pair("rustfmt", ""), pair("cargo", "")]
}

fn complete() -> Fetched {
    Fetched::Manifest(section("rustfmt") + &section("cargo"))
}

fn lacking() -> Fetched {
    Fetched::Manifest(section("cargo"))
}

fn fetch(date: &str) -> Step {
    Step::Fetch {
        date: date.to_string(),
        url: format!("https://static.rust-lang.org/dist/{}/channel-rust-nightly.toml", date),
    }
}

fn found(date: &str) -> Step {
    Step::Found { toolchain: format!("nightly-{}-{}", date, TARGET) }
}

fn begin(offset: usize, days: usize) -> (Search, Step) {
    Search::begin("nightly".to_string(), TARGET.to_string(), TODAY, offset, days, &requirements())
}

#[test]
fn day_numbers_have_the_dates_of_the_calendar() {
    assert_eq!(date_before(730_000, 0), Some("1999-09-03".to_string()));
    assert_eq!(date_before(730_000, 3), Some("1999-08-31".to_string()));
    assert_eq!(date_before(719_163, 0), Some("1970-01-01".to_string()));
    assert_eq!(date_before(719_163, 1), Some("1969-12-31".to_string()));
    assert_eq!(date_before(719_163 + 59, 0), Some("1970-03-01".to_string()));
    assert_eq!(date_before(730_000 + 179, 0), Some("2000-02-29".to_string()));
    assert_eq!(date_before(1, 0), Some("0001-01-01".to_string()));
}

#[test]
fn days_outside_the_calendar_have_no_date() {
    assert_eq!(date_before(i32::MAX, 0), None);
    assert_eq!(date_before(i32::MIN, 0), None);
    assert_eq!(date_before(i32::MIN, 1), None);
    assert_eq!(date_before(0, usize::MAX), None);
    assert_eq!(date_before(730_000, 200_000_000), None);
}

#[test]
fn manifest_address_names_date_and_channel() {
    assert_eq!(
        manifest_url("2019-03-09", "nightly"),
        "https://static.rust-lang.org/dist/2019-03-09/channel-rust-nightly.toml"
    );
}

#[test]
fn toolchain_name_joins_channel_date_and_target() {
    assert_eq!(
        toolchain_identifier("nightly", "2019-03-09", TARGET),
        "nightly-2019-03-09-x86_64-unknown-linux-gnu"
    );
}

#[test]
fn search_begins_at_the_offset() {
    let (search, step) = begin(0, 30);
    assert_eq!(step, fetch("1999-09-03"));
    assert_eq!(search.tried, 0);
    let (_, step) = begin(2, 30);
    assert_eq!(step, fetch("1999-09-01"));
}

#[test]
fn search_with_no_requirement_has_nothing_to_match() {
    let (_, step) =
        Search::begin("nightly".to_string(), TARGET.to_string(), TODAY, 0, 30, &Vec::new());
    assert_eq!(step, Step::NothingToMatch);
}

#[test]
fn window_of_no_days_is_exhausted_at_once() {
    let (_, step) = begin(0, 0);
    assert_eq!(step, Step::Exhausted);
}

#[test]
fn second_day_is_found_when_the_first_lacks_a_component() {
    let previews = PreviewEligible::standard();
    let (mut search, step) = begin(0, 3);
    assert_eq!(step, fetch("1999-09-03"));
    let (verdict, step) = search.advance(&previews, &requirements(), &lacking());
    assert_eq!(verdict, Verdict::Unsatisfied(vec!["rustfmt-preview".to_string()]));
    assert_eq!(step, fetch("1999-09-02"));
    let (verdict, step) = search.advance(&previews, &requirements(), &complete());
    assert_eq!(verdict, Verdict::Satisfied);
    assert_eq!(step, found("1999-09-02"));
    assert_eq!(step, Step::Found { toolchain: "nightly-1999-09-02-x86_64-unknown-linux-gnu".to_string() });
}

#[test]
fn last_day_of_the_window_is_still_judged() {
    let previews = PreviewEligible::standard();
    let (mut search, step) = begin(0, 3);
    assert_eq!(step, fetch("1999-09-03"));
    let (_, step) = search.advance(&previews, &requirements(), &lacking());
    assert_eq!(step, fetch("1999-09-02"));
    let (_, step) = search.advance(&previews, &requirements(), &lacking());
    assert_eq!(step, fetch("1999-09-01"));
    let (verdict, step) = search.advance(&previews, &requirements(), &complete());
    assert_eq!(verdict, Verdict::Satisfied);
    assert_eq!(step, found("1999-09-01"));
}

#[test]
fn day_behind_the_window_is_never_fetched() {
    let previews = PreviewEligible::standard();
    let (mut search, mut step) = begin(0, 3);
    let mut fetched = Vec::new();
    while let Step::Fetch { date, .. } = step {
        fetched.push(date);
        step = search.advance(&previews, &requirements(), &lacking()).1;
    }
    assert_eq!(step, Step::Exhausted);
    assert_eq!(fetched, vec!["1999-09-03", "1999-09-02", "1999-09-01"]);
    let (verdict, step) = search.advance(&previews, &requirements(), &complete());
    assert_eq!(verdict, Verdict::Satisfied);
    assert_eq!(step, Step::Exhausted);
}

#[test]
fn failed_fetches_go_back_a_day_like_lacking_manifests() {
    let previews = PreviewEligible::standard();
    let (mut search, _) = begin(1, 4);
    let (verdict, step) = search.advance(&previews, &requirements(), &Fetched::Unreachable);
    assert_eq!(verdict, Verdict::Unreachable);
    assert_eq!(step, fetch("1999-09-01"));
    let (verdict, step) = search.advance(&previews, &requirements(), &Fetched::Undecodable);
    assert_eq!(verdict, Verdict::Undecodable);
    assert_eq!(step, fetch("1999-08-31"));
    let (verdict, step) = search.advance(&previews, &requirements(), &complete());
    assert_eq!(verdict, Verdict::Satisfied);
    assert_eq!(step, found("1999-08-31"));
    assert_eq!(search.tried, 2);
}

#[test]
fn search_steps_on_a_judgement_alone() {
    let (mut search, _) = begin(0, 2);
    assert_eq!(search.step(false), fetch("1999-09-02"));
    assert_eq!(search.step(true), found("1999-09-02"));
    assert_eq!(search.step(false), Step::Exhausted);
    assert_eq!(search.step(true), Step::Exhausted);
}

#[test]
fn search_leaves_the_calendar_instead_of_failing() {
    let (_, step) = begin(usize::MAX, 3);
    assert_eq!(step, Step::OutOfCalendar);
    let first = -95_000_000;
    let (mut search, step) =
        Search::begin("nightly".to_string(), TARGET.to_string(), first, 0, 1_000_000_000, &requirements());
    assert!(matches!(step, Step::Fetch { .. }));
    let mut step = search.step(false);
    let mut steps = 1;
    while let Step::Fetch { .. } = step {
        step = search.step(false);
        steps += 1;
    }
    assert_eq!(step, Step::OutOfCalendar);
    assert!(steps < 1_000_000);
}

#[test]
fn judgement_of_fetched_material() {
    let previews = PreviewEligible::standard();
    assert_eq!(judge(&previews, TARGET, &requirements(), &complete()), Verdict::Satisfied);
    assert_eq!(
        judge(&previews, TARGET, &requirements(), &Fetched::Manifest(String::new())),
        Verdict::Unsatisfied(vec!["cargo".to_string(), "rustfmt".to_string()])
    );
    assert_eq!(judge(&previews, TARGET, &requirements(), &Fetched::Unreachable), Verdict::Unreachable);
    assert_eq!(judge(&previews, TARGET, &requirements(), &Fetched::Undecodable), Verdict::Undecodable);
}

#[test]
fn search_from_today_proposes_a_date_of_the_calendar() {
    let (search, step) =
        Search::begin_today("nightly".to_string(), TARGET.to_string(), 0, 30, &requirements());
    assert!(search.today > 730_000);
    match step {
        Step::Fetch { date, url } => {
            assert_eq!(Some(date.clone()), date_before(search.today, 0));
            assert_eq!(date.len(), 10);
            assert_eq!(url, manifest_url(&date, "nightly"));
        }
        other => panic!("no fetch proposed: {:?}", other),
    }
}
