pub mod location;

pub use location::Location;

use crate::text::{chars_of, string_of, whitespace};
use vstd::prelude::*;

verus! {

/// The offsets at which the lines of `text` begin: `0`, then the offset
/// after each line feed, in increasing order.
pub open spec fn line_starts(text: Seq<char>) -> Seq<int>
    decreases text.len(),
{
    if text.len() == 0 {
        seq![0int]
    } else if text.last() == '\n' {
        line_starts(text.drop_last()).push(text.len() as int)
    } else {
        line_starts(text.drop_last())
    }
}

/// The index of the last entry of `starts` that is at most `p`
/// (`0` when there is none).
pub open spec fn line_of(starts: Seq<int>, p: int) -> int
    decreases starts.len(),
{
    if starts.len() <= 1 {
        0
    } else if starts.last() <= p {
        starts.len() - 1
    } else {
        line_of(starts.drop_last(), p)
    }
}

/// The location of offset `p` in `text`: the line that holds it and the
/// distance from that line's start.
pub open spec fn location_of(text: Seq<char>, p: int) -> Location {
    let starts = line_starts(text);
    let line = line_of(starts, p);
    Location { position: p as usize, line: line as usize, offset: (p - starts[line]) as usize }
}

/// How many leading characters of `s`, from index `i` on, are whitespace.
pub open spec fn leading_space(s: Seq<char>, i: int) -> int
    decreases s.len() - i,
{
    if 0 <= i < s.len() && whitespace(s[i]) {
        1 + leading_space(s, i + 1)
    } else {
        0
    }
}

/// How many trailing characters of `s`, before index `j`, are whitespace.
pub open spec fn trailing_space(s: Seq<char>, j: int) -> int
    decreases j,
{
    if 0 < j <= s.len() && whitespace(s[j - 1]) {
        1 + trailing_space(s, j - 1)
    } else {
        0
    }
}

/// `s` without its leading and trailing whitespace.
pub open spec fn trimmed(s: Seq<char>) -> Seq<char> {
    let lead = leading_space(s, 0);
    if lead == s.len() {
        Seq::empty()
    } else {
        s.subrange(lead, s.len() - trailing_space(s, s.len() as int))
    }
}

/// The text of line `line`, line feed included, before trimming.
pub open spec fn raw_line(text: Seq<char>, line: int) -> Seq<char> {
    let starts = line_starts(text);
    let end = if line + 1 < starts.len() {
        starts[line + 1]
    } else {
        text.len() as int
    };
    text.subrange(starts[line], end)
}

/// The table of line starts is strictly increasing, begins with `0`, stays
/// within the text, and every later entry follows a line feed.
pub proof fn lemma_line_starts(text: Seq<char>)
    ensures
        1 <= line_starts(text).len() <= text.len() + 1,
        line_starts(text)[0] == 0,
        forall|k: int|
            0 <= k < line_starts(text).len() ==> 0 <= #[trigger] line_starts(text)[k]
                <= text.len(),
        forall|i: int, j: int|
            0 <= i < j < line_starts(text).len() ==> line_starts(text)[i] < line_starts(text)[j],
        forall|k: int|
            1 <= k < line_starts(text).len() ==> text[#[trigger] line_starts(text)[k] - 1]
                == '\n',
    decreases text.len(),
{
    if text.len() > 0 {
        lemma_line_starts(text.drop_last());
    }
}

/// `line_of` picks the one line whose start is at most `p` and whose
/// successor, if any, starts after `p`.
pub proof fn lemma_line_of(starts: Seq<int>, p: int, line: int)
    requires
        starts.len() >= 1,
        forall|i: int, j: int| 0 <= i < j < starts.len() ==> starts[i] < starts[j],
        0 <= line < starts.len(),
        starts[line] <= p,
        line + 1 < starts.len() ==> p < starts[line + 1],
    ensures
        line_of(starts, p) == line,
    decreases starts.len(),
{
    if starts.len() > 1 && starts.last() > p {
        lemma_line_of(starts.drop_last(), p, line);
    }
}

/// Every offset at or after the first line start lies in a line: `line_of`
/// gives a line that starts at or before the offset and whose successor,
/// if any, starts after it.
pub proof fn lemma_line_of_holds(starts: Seq<int>, p: int)
    requires
        starts.len() >= 1,
        starts[0] <= p,
    ensures
        0 <= line_of(starts, p) < starts.len(),
        starts[line_of(starts, p)] <= p,
        line_of(starts, p) + 1 < starts.len() ==> p < starts[line_of(starts, p) + 1],
    decreases starts.len(),
{
    if starts.len() > 1 && starts.last() > p {
        lemma_line_of_holds(starts.drop_last(), p);
    }
}

/// Whether offset `p` lies in line `line` of the table `starts`: the line
/// starts at or before `p` and the next line, if any, starts after `p`.
pub open spec fn in_line(starts: Seq<int>, p: int, line: int) -> bool {
    &&& 0 <= line < starts.len()
    &&& starts[line] <= p
    &&& line + 1 < starts.len() ==> p < starts[line + 1]
}

/// Every offset of a text lies in exactly one line, and its location
/// tells which; the offset within the line is the distance from the
/// line's start.
pub proof fn lemma_location(text: Seq<char>, p: int)
    requires
        0 <= p <= text.len() <= usize::MAX,
    ensures
        location_of(text, p).position == p,
        in_line(line_starts(text), p, location_of(text, p).line as int),
        location_of(text, p).offset == p - line_starts(text)[location_of(text, p).line as int],
        forall|line: int| #[trigger]
            in_line(line_starts(text), p, line) ==> line == location_of(text, p).line,
{
    let starts = line_starts(text);
    lemma_line_starts(text);
    lemma_line_of_holds(starts, p);
    assert forall|line: int| #[trigger] in_line(starts, p, line) implies line == line_of(
        starts,
        p,
    ) by {
        lemma_line_of(starts, p, line);
    }
}

/// A source text together with its table of line starts.
#[derive(Debug)]
pub struct SourceCode {
    code: String,
    chars: Vec<char>,
    line_breaks: Vec<usize>,
}

impl View for SourceCode {
    type V = Seq<char>;

    closed spec fn view(&self) -> Seq<char> {
        self.chars@
    }
}

impl SourceCode {
    #[verifier::type_invariant]
    closed spec fn valid(&self) -> bool {
        &&& self.code@ == self.chars@
        &&& self.line_breaks.len() + 1 == line_starts(self.chars@).len()
        &&& forall|k: int|
            0 <= k < self.line_breaks.len() ==> #[trigger] self.line_breaks[k] == line_starts(
                self.chars@,
            )[k + 1]
    }

    /// The line starts after the first, as the table holds them.
    spec fn breaks(&self) -> Seq<usize> {
        self.line_breaks@
    }

    /// The source text `code`, with its lines found.
    pub fn new(code: String) -> (sc: SourceCode)
        ensures
            sc@ == code@,
    {
        let chars = chars_of(code.as_str());
        let mut lines: Vec<usize> = Vec::new();
        let mut position: usize = 0;
        while position < chars.len()
            invariant
                position <= chars.len(),
                lines.len() + 1 == line_starts(chars@.take(position as int)).len(),
                forall|k: int|
                    0 <= k < lines.len() ==> #[trigger] lines[k] == line_starts(
                        chars@.take(position as int),
                    )[k + 1],
            decreases chars.len() - position,
        {
            assert(chars@.take(position + 1).drop_last() == chars@.take(position as int));
            if chars[position] == '\n' {
                lines.push(position + 1);
            }
            position += 1;
        }
        assert(chars@.take(position as int) == chars@);
        SourceCode { code, chars, line_breaks: lines }
    }

    /// The text as it was given.
    pub fn code(&self) -> (s: &String)
        ensures
            s@ == self@,
    {
        proof {
            use_type_invariant(self);
        }
        &self.code
    }

    /// The characters of the text.
    pub fn chars(&self) -> (v: &Vec<char>)
        ensures
            v@ == self@,
            self@.len() <= usize::MAX,
    {
        assert(self.chars@.len() == self.chars.len());
        &self.chars
    }

    /// The offsets after each line feed: the starts of every line but the first.
    pub fn line_breaks(&self) -> (v: &Vec<usize>)
        ensures
            v.len() + 1 == line_starts(self@).len(),
            forall|k: int| 0 <= k < v.len() ==> #[trigger] v[k] == line_starts(self@)[k + 1],
    {
        proof {
            use_type_invariant(self);
        }
        &self.line_breaks
    }

    /// How many of the table's entries are at most `position`.
    fn breaks_up_to(&self, position: usize) -> (n: usize)
        ensures
            n <= self.breaks().len(),
            forall|k: int| 0 <= k < n ==> self.breaks()[k] <= position,
            forall|k: int| n <= k < self.breaks().len() ==> self.breaks()[k] > position,
    {
        proof {
            use_type_invariant(self);
            lemma_line_starts(self.chars@);
        }
        let mut lo: usize = 0;
        let mut hi: usize = self.line_breaks.len();
        while lo < hi
            invariant
                lo <= hi <= self.line_breaks.len(),
                self.line_breaks.len() + 1 == line_starts(self.chars@).len(),
                forall|k: int|
                    0 <= k < self.line_breaks.len() ==> #[trigger] self.line_breaks[k]
                        == line_starts(self.chars@)[k + 1],
                forall|i: int, j: int|
                    0 <= i < j < line_starts(self.chars@).len() ==> line_starts(self.chars@)[i]
                        < line_starts(self.chars@)[j],
                forall|k: int| 0 <= k < lo ==> self.line_breaks[k] <= position,
                forall|k: int| hi <= k < self.line_breaks.len() ==> self.line_breaks[k] > position,
            decreases hi - lo,
        {
            let mid = lo + (hi - lo) / 2;
            if self.line_breaks[mid] <= position {
                assert forall|k: int| 0 <= k < mid + 1 implies self.line_breaks[k] <= position by {
                    if k < mid {
                        assert(line_starts(self.chars@)[k + 1] < line_starts(self.chars@)[mid + 1]);
                    }
                }
                lo = mid + 1;
            } else {
                assert forall|k: int| mid <= k < self.line_breaks.len() implies self.line_breaks[k]
                    > position by {
                    if k > mid {
                        assert(line_starts(self.chars@)[mid + 1] < line_starts(self.chars@)[k + 1]);
                    }
                }
                hi = mid;
            }
        }
        lo
    }

    /// The location of `position`, when it lies within the text or at its end.
    pub fn to_location(&self, position: usize) -> (l: Option<Location>)
        ensures
            l == if position <= self@.len() {
                Some(location_of(self@, position as int))
            } else {
                None
            },
    {
        if position > self.chars.len() {
            return None;
        }
        proof {
            use_type_invariant(self);
            lemma_line_starts(self.chars@);
        }
        let line = self.breaks_up_to(position);
        let lb = if line == 0 {
            0
        } else {
            self.line_breaks[line - 1]
        };
        proof {
            if line < self.line_breaks.len() {
                assert(self.breaks()[line as int] > position);
            }
            if line > 0 {
                assert(self.breaks()[line - 1] <= position);
            }
            lemma_line_of(line_starts(self.chars@), position as int, line as int);
        }
        Some(Location::new(position, line, position - lb))
    }

    /// Line `line` of the text without its surrounding whitespace, when the
    /// text has such a line.
    pub fn get_line(&self, line: usize) -> (r: Option<String>)
        ensures
            match r {
                Some(s) => line < line_starts(self@).len() && s@ == trimmed(raw_line(self@, line as int)),
                None => line >= line_starts(self@).len(),
            },
    {
        proof {
            use_type_invariant(self);
            lemma_line_starts(self.chars@);
        }
        if line > self.line_breaks.len() {
            return None;
        }
        let line_start = if line == 0 {
            0
        } else {
            self.line_breaks[line - 1]
        };
        let line_end = if line < self.line_breaks.len() {
            self.line_breaks[line]
        } else {
            self.chars.len()
        };
        assert(line_start <= line_end) by {
            if line < self.line_breaks.len() {
                assert(line_starts(self.chars@)[line as int] < line_starts(self.chars@)[line + 1]);
            }
        }
        let ghost raw = raw_line(self@, line as int);
        let mut from = line_start;
        while from < line_end && self.chars[from].is_whitespace()
            invariant
                line_start <= from <= line_end <= self.chars.len(),
                raw == self.chars@.subrange(line_start as int, line_end as int),
                leading_space(raw, 0) == (from - line_start) + leading_space(
                    raw,
                    from - line_start,
                ),
            decreases line_end - from,
        {
            from += 1;
        }
        if from == line_end {
            return Some(String::new());
        }
        assert(raw[from - line_start] == self.chars@[from as int]);
        assert(leading_space(raw, 0) == from - line_start);
        let mut to = line_end;
        while to > from && self.chars[to - 1].is_whitespace()
            invariant
                line_start <= from < to <= line_end <= self.chars.len(),
                !whitespace(self.chars@[from as int]),
                raw == self.chars@.subrange(line_start as int, line_end as int),
                trailing_space(raw, raw.len() as int) == (line_end - to) + trailing_space(
                    raw,
                    to - line_start,
                ),
            decreases to,
        {
            to -= 1;
        }
        assert(to > from);
        assert(raw[to - 1 - line_start] == self.chars@[to - 1]);
        assert(trailing_space(raw, raw.len() as int) == line_end - to);
        assert(raw.subrange(from - line_start, to - line_start) == self.chars@.subrange(
            from as int,
            to as int,
        ));
        Some(string_of(&self.chars, from, to))
    }

    /// The characters from `from` up to `to`, when both lie within the text
    /// and are in order.
    pub fn get_code_range(&self, from: usize, to: usize) -> (r: Option<String>)
        ensures
            match r {
                Some(s) => from <= to <= self@.len() && s@ == self@.subrange(from as int, to as int),
                None => !(from <= to <= self@.len()),
            },
    {
        let len = self.chars.len();
        if from > len || to > len || to < from {
            None
        } else {
            Some(string_of(&self.chars, from, to))
        }
    }
}

} // verus!
