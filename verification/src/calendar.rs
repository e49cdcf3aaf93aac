//! Calendar days. A day is held as its number in the proleptic Gregorian
//! calendar, with 1 for January 1 of the year 1; chrono turns the number into
//! a date and reads the clock.

use vstd::prelude::*;

verus! {

// The text that chrono gives for the date with day number `day`, in the
// format `%Y-%m-%d`; `None` for a number outside the dates chrono represents.
pub uninterp spec fn date_text(day: i32) -> Option<Seq<char>>;

/// The text of the date with day number `day`, where `day` is any integer:
/// a number that no `i32` holds has no date.
pub open spec fn day_text(day: int) -> Option<Seq<char>> {
    if i32::MIN <= day <= i32::MAX {
        date_text(day as i32)
    } else {
        None
    }
}

/// Calls `chrono::NaiveDate::from_num_days_from_ce_opt` and, on the date it
/// gives, `chrono::NaiveDate::format` with `%Y-%m-%d`. Trusted: the result is
/// the same for the same day number, and is `None` exactly when chrono has no
/// date for it. The text itself is not described here.
#[verifier::external_body]
pub(crate) fn format_day(day: i32) -> (text: Option<String>)
    ensures
        match text {
            Some(t) => date_text(day) == Some(t@),
            None => date_text(day) is None,
        },
{
    match chrono::NaiveDate::from_num_days_from_ce_opt(day) {
        Some(date) => Some(date.format("%Y-%m-%d").to_string()),
        None => None,
    }
}

/// Calls `chrono::Utc::now` and gives the day number of its date,
/// `chrono::Datelike::num_days_from_ce`. Trusted, with nothing claimed of the
/// result: it depends on the clock. chrono panics when the clock stands
/// before 1970.
#[verifier::external_body]
pub(crate) fn utc_today() -> i32 {
    chrono::Datelike::num_days_from_ce(&chrono::Utc::now().date_naive())
}

/// The text of the date `back` days before the day with number `day`, if
/// there is such a date.
pub fn date_before(day: i32, back: usize) -> (text: Option<String>)
    ensures
        match text {
            Some(t) => day_text(day - back) == Some(t@),
            None => day_text(day - back) is None,
        },
{
    if back > 0xffff_ffff {
        return None;
    }
    let wanted: i64 = day as i64 - back as i64;
    if wanted < i32::MIN as i64 {
        return None;
    }
    format_day(wanted as i32)
}

} // verus!
