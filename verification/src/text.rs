//! Character-level text helpers: prefixes, suffixes, searching and line
//! splitting. Text is modelled as `Seq<char>`, the view of `str` and `String`.

use vstd::prelude::*;

verus! {

/// `pattern` occurs at the very start of `s`.
pub open spec fn is_prefix(pattern: Seq<char>, s: Seq<char>) -> bool {
    pattern.len() <= s.len() && s.take(pattern.len() as int) == pattern
}

/// `pattern` occurs at the very end of `s`.
pub open spec fn is_suffix(pattern: Seq<char>, s: Seq<char>) -> bool {
    pattern.len() <= s.len() && s.skip(s.len() - pattern.len()) == pattern
}

/// The position of the first `c` in `s` at or after `from`, or `s.len()` if
/// there is none.
pub open spec fn find_from(s: Seq<char>, c: char, from: int) -> int
    decreases s.len() - from,
{
    if from < 0 || from >= s.len() {
        s.len() as int
    } else if s[from] == c {
        from
    } else {
        find_from(s, c, from + 1)
    }
}

/// `find_from` returns the least position at or after `from` that holds `c`.
pub proof fn lemma_find_from(s: Seq<char>, c: char, from: int)
    requires
        0 <= from <= s.len(),
    ensures
        from <= find_from(s, c, from) <= s.len(),
        find_from(s, c, from) < s.len() ==> s[find_from(s, c, from)] == c,
        forall|j: int| from <= j < find_from(s, c, from) ==> s[j] != c,
    decreases s.len() - from,
{
    if from < s.len() && s[from] != c {
        lemma_find_from(s, c, from + 1);
    }
}

/// A half-open range of character positions in some text.
#[derive(Clone, Copy, Debug)]
pub struct Span {
    pub start: usize,
    pub end: usize,
}

impl Span {
    /// The range lies within a text of `len` characters.
    pub open spec fn fits(self, len: nat) -> bool {
        self.start <= self.end <= len
    }

    /// The characters of `s` that the range covers.
    pub open spec fn of(self, s: Seq<char>) -> Seq<char> {
        s.subrange(self.start as int, self.end as int)
    }
}

/// The lines of `s` that begin at or after position `from`, when a line begins
/// at `from`.
pub open spec fn lines_from(s: Seq<char>, from: int) -> Seq<Seq<char>>
    decreases s.len() + 1 - from,
    via lines_from_decreases
{
    if from < 0 || from >= s.len() {
        Seq::empty()
    } else {
        let stop = find_from(s, '\n', from);
        seq![line_between(s, from, stop)] + lines_from(s, stop + 1)
    }
}

#[via_fn]
proof fn lines_from_decreases(s: Seq<char>, from: int) {
    if 0 <= from < s.len() {
        lemma_find_from(s, '\n', from);
    }
}

/// The line that begins at `from` and whose line feed, if it has one, is at
/// `stop`. A carriage return just before the line feed belongs to the line
/// ending; one at the end of an unterminated last line belongs to the line.
pub open spec fn line_between(s: Seq<char>, from: int, stop: int) -> Seq<char> {
    if stop < s.len() && from < stop && s[stop - 1] == '\r' {
        s.subrange(from, stop - 1)
    } else {
        s.subrange(from, stop)
    }
}

/// The lines of a text. Lines end at a line feed, optionally preceded by a
/// carriage return; the ending is not part of the line, and a final line need
/// not have one. A text that ends with a line ending has no empty line after it.
pub open spec fn lines_of(s: Seq<char>) -> Seq<Seq<char>> {
    lines_from(s, 0)
}

/// What each of `spans` covers in `s`.
pub open spec fn spans_of(s: Seq<char>, spans: Seq<Span>) -> Seq<Seq<char>> {
    Seq::new(spans.len(), |i: int| spans[i].of(s))
}

/// The text of each of `strings`, in order.
pub open spec fn texts_of(strings: Seq<String>) -> Seq<Seq<char>> {
    Seq::new(strings.len(), |i: int| strings[i]@)
}

/// The characters of a string, in order.
pub fn chars_of(s: &str) -> (chars: Vec<char>)
    ensures
        chars@ == s@,
{
    let mut chars: Vec<char> = Vec::new();
    for c in it: s.chars()
        invariant
            it.seq() == s@,
            chars@ == s@.take(it.index() as int),
    {
        chars.push(c);
    }
    chars
}

/// Whether the part of `chars` that `span` covers begins with `pattern`.
pub fn span_starts_with(chars: &Vec<char>, span: Span, pattern: &Vec<char>) -> (found: bool)
    requires
        span.fits(chars@.len()),
    ensures
        found == is_prefix(pattern@, span.of(chars@)),
{
    let ghost line = span.of(chars@);
    if pattern.len() > span.end - span.start {
        return false;
    }
    let mut i: usize = 0;
    while i < pattern.len()
        invariant
            span.fits(chars@.len()),
            line == span.of(chars@),
            i <= pattern.len() <= line.len(),
            line.take(i as int) == pattern@.take(i as int),
        decreases pattern.len() - i,
    {
        if chars[span.start + i] != pattern[i] {
            assert(line.take(pattern.len() as int)[i as int] != pattern@[i as int]);
            return false;
        }
        i += 1;
        assert(line.take(i as int) == line.take(i - 1).push(line[i - 1]));
        assert(pattern@.take(i as int) == pattern@.take(i - 1).push(pattern@[i - 1]));
    }
    assert(pattern@.take(i as int) == pattern@);
    true
}

/// Whether the part of `chars` that `span` covers ends with `pattern`.
pub fn span_ends_with(chars: &Vec<char>, span: Span, pattern: &Vec<char>) -> (found: bool)
    requires
        span.fits(chars@.len()),
    ensures
        found == is_suffix(pattern@, span.of(chars@)),
{
    let ghost line = span.of(chars@);
    if pattern.len() > span.end - span.start {
        return false;
    }
    let tail = Span { start: span.end - pattern.len(), end: span.end };
    assert(tail.of(chars@) == line.skip(line.len() - pattern.len()));
    let found = span_starts_with(chars, tail, pattern);
    assert(found == (tail.of(chars@) == pattern@)) by {
        assert(tail.of(chars@).take(pattern.len() as int) == tail.of(chars@));
    }
    found
}

/// Whether the part of `chars` that `span` covers is exactly `pattern`.
pub fn span_equals(chars: &Vec<char>, span: Span, pattern: &Vec<char>) -> (same: bool)
    requires
        span.fits(chars@.len()),
    ensures
        same == (span.of(chars@) == pattern@),
{
    if pattern.len() != span.end - span.start {
        return false;
    }
    let same = span_starts_with(chars, span, pattern);
    assert(span.of(chars@).take(pattern.len() as int) == span.of(chars@));
    same
}

/// The position of the first `c` in `chars` at or after `from`, or the length
/// of `chars` if there is none.
pub fn position_from(chars: &Vec<char>, c: char, from: usize) -> (at: usize)
    requires
        from <= chars.len(),
    ensures
        at == find_from(chars@, c, from as int),
        from <= at <= chars.len(),
{
    let mut at: usize = from;
    while at < chars.len() && chars[at] != c
        invariant
            from <= at <= chars.len(),
            find_from(chars@, c, from as int) == find_from(chars@, c, at as int),
        decreases chars.len() - at,
    {
        at += 1;
    }
    at
}

/// The range of each line of `chars`, in order.
pub fn line_spans(chars: &Vec<char>) -> (spans: Vec<Span>)
    ensures
        spans_of(chars@, spans@) == lines_of(chars@),
        forall|i: int| 0 <= i < spans.len() ==> (#[trigger] spans[i]).fits(chars@.len()),
{
    let mut spans: Vec<Span> = Vec::new();
    let mut from: usize = 0;
    while from < chars.len()
        invariant
            from <= chars.len(),
            lines_of(chars@) == spans_of(chars@, spans@) + lines_from(chars@, from as int),
            forall|i: int| 0 <= i < spans.len() ==> (#[trigger] spans[i]).fits(chars@.len()),
        decreases chars.len() - from,
    {
        let stop = position_from(chars, '\n', from);
        let end = if stop < chars.len() && from < stop && chars[stop - 1] == '\r' {
            stop - 1
        } else {
            stop
        };
        let span = Span { start: from, end };
        let ghost before = spans@;
        spans.push(span);
        assert(span.of(chars@) == line_between(chars@, from as int, stop as int));
        assert(spans_of(chars@, spans@) == spans_of(chars@, before) + seq![span.of(chars@)]);
        if stop < chars.len() {
            from = stop + 1;
        } else {
            from = stop;
            assert(lines_from(chars@, stop + 1) == lines_from(chars@, stop as int));
        }
    }
    assert(lines_from(chars@, from as int) == Seq::<Seq<char>>::empty());
    spans
}

} // verus!
