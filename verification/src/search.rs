//! The backward date search, as a machine that is stepped from outside.
//!
//! The search proposes one date at a time, starting at the first candidate and
//! going back one day per step. Whoever drives it fetches the manifest of the
//! proposed date and hands back what came of it; the search judges it with
//! the matcher and says what to do next. The window of `days` dates is
//! checked before every proposal, so no date beyond it is ever fetched.

use crate::calendar::{date_before, day_text, utc_today};
use crate::component::pairs_of;
use crate::matcher::{leftover_components, match_outcome};
use crate::preview::PreviewEligible;
use crate::text::texts_of;
use vstd::prelude::*;
use vstd::string::*;

verus! {

/// What became of fetching the manifest of a proposed date.
#[derive(Debug, PartialEq, Eq)]
pub enum Fetched {
    /// The request failed in transport.
    Unreachable,
    /// An answer came, but its body is no text.
    Undecodable,
    /// The text of the manifest.
    Manifest(String),
}

/// How a proposed date was judged.
#[derive(Debug, PartialEq, Eq)]
pub enum Verdict {
    /// There was no manifest to judge: the request failed in transport.
    Unreachable,
    /// There was no manifest to judge: the answer was no text.
    Undecodable,
    /// The manifest lacks the named components.
    Unsatisfied(Vec<String>),
    /// The manifest offers every required component.
    Satisfied,
}

/// What the driver of a search does next.
#[derive(Debug, PartialEq, Eq)]
pub enum Step {
    /// Fetch the manifest at `url`, which is that of `date`, and hand back
    /// what came of it.
    Fetch { date: String, url: String },
    /// The search is over: `toolchain` names the release that was found.
    Found { toolchain: String },
    /// The search is over: no date within the window was satisfying.
    Exhausted,
    /// The search is over: the next date lies outside the calendar.
    OutOfCalendar,
    /// There is nothing to search for: no component is required.
    NothingToMatch,
}

/// A `Step`, with text in place of strings.
pub enum StepView {
    Fetch { date: Seq<char>, url: Seq<char> },
    Found { toolchain: Seq<char> },
    Exhausted,
    OutOfCalendar,
    NothingToMatch,
}

impl View for Step {
    type V = StepView;

    open spec fn view(&self) -> StepView {
        match *self {
            Step::Fetch { date, url } => StepView::Fetch { date: date@, url: url@ },
            Step::Found { toolchain } => StepView::Found { toolchain: toolchain@ },
            Step::Exhausted => StepView::Exhausted,
            Step::OutOfCalendar => StepView::OutOfCalendar,
            Step::NothingToMatch => StepView::NothingToMatch,
        }
    }
}

/// A search in progress.
#[derive(Debug, PartialEq, Eq)]
pub struct Search {
    /// The release channel whose manifests are searched.
    pub channel: String,
    /// The target platform.
    pub target: String,
    /// The day number of today.
    pub today: i32,
    /// How many days before today the first candidate lies.
    pub offset: usize,
    /// The look-back window: how many candidates may be judged.
    pub days: usize,
    /// How many candidates have been judged and found wanting.
    pub tried: usize,
}

/// A `Search`, with text in place of strings and unbounded numbers.
pub struct SearchView {
    pub channel: Seq<char>,
    pub target: Seq<char>,
    pub today: int,
    pub offset: nat,
    pub days: nat,
    pub tried: nat,
}

impl View for Search {
    type V = SearchView;

    open spec fn view(&self) -> SearchView {
        SearchView {
            channel: self.channel@,
            target: self.target@,
            today: self.today as int,
            offset: self.offset as nat,
            days: self.days as nat,
            tried: self.tried as nat,
        }
    }
}

impl SearchView {
    /// The same search with one more candidate found wanting.
    pub open spec fn next(self) -> SearchView {
        SearchView { tried: self.tried + 1, ..self }
    }

    /// The same search with `n` more candidates found wanting.
    pub open spec fn after(self, n: nat) -> SearchView {
        SearchView { tried: self.tried + n, ..self }
    }

    /// The distance of the current candidate from the reference date of the
    /// search, which is the day after the first candidate.
    pub open spec fn distance(self) -> nat {
        self.tried + 1
    }

    /// The date of the current candidate, if the calendar has it.
    pub open spec fn candidate(self) -> Option<Seq<char>> {
        day_text(self.today - self.offset - self.tried)
    }

    /// What to do about the current candidate before it is fetched. The
    /// window is checked first.
    pub open spec fn proposal(self) -> StepView {
        if self.distance() > self.days {
            StepView::Exhausted
        } else {
            match self.candidate() {
                Some(date) => StepView::Fetch { date, url: manifest_url_text(date, self.channel) },
                None => StepView::OutOfCalendar,
            }
        }
    }

    /// What to do once the current candidate was judged.
    pub open spec fn judged(self, satisfied: bool) -> (SearchView, StepView) {
        if self.distance() > self.days {
            (self, StepView::Exhausted)
        } else if satisfied {
            match self.candidate() {
                Some(date) => (
                    self,
                    StepView::Found {
                        toolchain: toolchain_text(self.channel, date, self.target),
                    },
                ),
                None => (self, StepView::OutOfCalendar),
            }
        } else {
            (self.next(), self.next().proposal())
        }
    }
}

/// The address of the manifest of `channel` for `date`.
pub open spec fn manifest_url_text(date: Seq<char>, channel: Seq<char>) -> Seq<char> {
    "https://static.rust-lang.org/dist/"@ + date + "/channel-rust-"@ + channel + ".toml"@
}

/// The name of the toolchain of `channel` that was released on `date` for
/// `target`.
pub open spec fn toolchain_text(
    channel: Seq<char>,
    date: Seq<char>,
    target: Seq<char>,
) -> Seq<char> {
    channel + "-"@ + date + "-"@ + target
}

/// How fetched material is judged: only the text of a manifest that offers
/// every required component satisfies.
pub open spec fn satisfies(
    previews: Seq<Seq<char>>,
    target: Seq<char>,
    pairs: Seq<(Seq<char>, Seq<char>)>,
    fetched: Fetched,
) -> bool {
    match fetched {
        Fetched::Manifest(text) => match_outcome(previews, target, pairs, text@) is None,
        _ => false,
    }
}

/// The verdict on fetched material.
pub open spec fn verdict_on(
    verdict: Verdict,
    previews: Seq<Seq<char>>,
    target: Seq<char>,
    pairs: Seq<(Seq<char>, Seq<char>)>,
    fetched: Fetched,
) -> bool {
    match fetched {
        Fetched::Unreachable => verdict is Unreachable,
        Fetched::Undecodable => verdict is Undecodable,
        Fetched::Manifest(text) => match match_outcome(previews, target, pairs, text@) {
            None => verdict is Satisfied,
            Some(names) => verdict is Unsatisfied && texts_of(verdict->Unsatisfied_0@) == names,
        },
    }
}

/// The address of the manifest of `channel` for `date`.
pub fn manifest_url(date: &str, channel: &str) -> (url: String)
    ensures
        url@ == manifest_url_text(date@, channel@),
{
    "https://static.rust-lang.org/dist/".to_owned().concat(date).concat("/channel-rust-").concat(
        channel,
    ).concat(".toml")
}

/// The name of the toolchain of `channel` that was released on `date` for
/// `target`.
pub fn toolchain_identifier(channel: &str, date: &str, target: &str) -> (toolchain: String)
    ensures
        toolchain@ == toolchain_text(channel@, date@, target@),
{
    channel.to_owned().concat("-").concat(date).concat("-").concat(target)
}

/// Judges what came of fetching the manifest of one date.
pub fn judge(
    previews: &PreviewEligible,
    target: &str,
    requirements: &[(String, String)],
    fetched: &Fetched,
) -> (verdict: Verdict)
    ensures
        verdict_on(verdict, previews@, target@, pairs_of(requirements@), *fetched),
        verdict is Satisfied <==> satisfies(previews@, target@, pairs_of(requirements@), *fetched),
{
    match fetched {
        Fetched::Unreachable => Verdict::Unreachable,
        Fetched::Undecodable => Verdict::Undecodable,
        Fetched::Manifest(text) => {
            match leftover_components(previews, target, requirements, text.as_str()) {
                None => Verdict::Satisfied,
                Some(names) => Verdict::Unsatisfied(names),
            }
        },
    }
}

impl Search {
    /// The date of the current candidate, if the calendar has it.
    fn candidate_date(&self) -> (date: Option<String>)
        ensures
            match date {
                Some(text) => self@.candidate() == Some(text@),
                None => self@.candidate() is None,
            },
    {
        if self.offset > 0xffff_ffff || self.today as i64 - (self.offset as i64) < i32::MIN as i64 {
            return None;
        }
        let first: i64 = self.today as i64 - self.offset as i64;
        date_before(first as i32, self.tried)
    }

    /// What to do about the current candidate before it is fetched.
    fn propose(&self) -> (step: Step)
        ensures
            step@ == self@.proposal(),
    {
        if self.tried >= self.days {
            return Step::Exhausted;
        }
        match self.candidate_date() {
            Some(date) => {
                let url = manifest_url(date.as_str(), self.channel.as_str());
                Step::Fetch { date, url }
            },
            None => Step::OutOfCalendar,
        }
    }

    /// Begins a search for `requirements` among the manifests of `channel`:
    /// the first candidate lies `offset` days before `today`, and at most
    /// `days` candidates are judged. With no requirement there is nothing to
    /// search for.
    pub fn begin(
        channel: String,
        target: String,
        today: i32,
        offset: usize,
        days: usize,
        requirements: &[(String, String)],
    ) -> (begun: (Search, Step))
        ensures
            begun.0@ == (SearchView {
                channel: channel@,
                target: target@,
                today: today as int,
                offset: offset as nat,
                days: days as nat,
                tried: 0,
            }),
            begun.1@ == if requirements@.len() == 0 {
                StepView::NothingToMatch
            } else {
                begun.0@.proposal()
            },
    {
        let search = Search { channel, target, today, offset, days, tried: 0 };
        if requirements.len() == 0 {
            return (search, Step::NothingToMatch);
        }
        let step = search.propose();
        (search, step)
    }

    /// Begins a search as `begin` does, with today's date in UTC, which is
    /// read from the clock.
    pub fn begin_today(
        channel: String,
        target: String,
        offset: usize,
        days: usize,
        requirements: &[(String, String)],
    ) -> (begun: (Search, Step))
        ensures
            begun.0@ == (SearchView {
                channel: channel@,
                target: target@,
                today: begun.0.today as int,
                offset: offset as nat,
                days: days as nat,
                tried: 0,
            }),
            begun.1@ == if requirements@.len() == 0 {
                StepView::NothingToMatch
            } else {
                begun.0@.proposal()
            },
    {
        Search::begin(channel, target, utc_today(), offset, days, requirements)
    }

    /// Takes note of how the current candidate was judged, and says what to do
    /// next: a satisfying candidate ends the search with its toolchain; any
    /// other gives way to the candidate of the day before.
    pub fn step(&mut self, satisfied: bool) -> (step: Step)
        ensures
            (final(self)@, step@) == old(self)@.judged(satisfied),
    {
        if self.tried >= self.days {
            return Step::Exhausted;
        }
        if satisfied {
            return match self.candidate_date() {
                Some(date) => Step::Found {
                    toolchain: toolchain_identifier(
                        self.channel.as_str(),
                        date.as_str(),
                        self.target.as_str(),
                    ),
                },
                None => Step::OutOfCalendar,
            };
        }
        self.tried = self.tried + 1;
        self.propose()
    }

    /// Judges what came of fetching the manifest of the current candidate,
    /// and says what to do next.
    pub fn advance(
        &mut self,
        previews: &PreviewEligible,
        requirements: &[(String, String)],
        fetched: &Fetched,
    ) -> (judged: (Verdict, Step))
        ensures
            verdict_on(
                judged.0,
                previews@,
                old(self)@.target,
                pairs_of(requirements@),
                *fetched,
            ),
            (final(self)@, judged.1@) == old(self)@.judged(
                satisfies(previews@, old(self)@.target, pairs_of(requirements@), *fetched),
            ),
    {
        let verdict = judge(previews, self.target.as_str(), requirements, fetched);
        let satisfied = match verdict {
            Verdict::Satisfied => true,
            _ => false,
        };
        let step = self.step(satisfied);
        (verdict, step)
    }
}

} // verus!
