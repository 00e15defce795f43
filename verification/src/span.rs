//! Spans of source code and the position of every character of a text.

use crate::positions::Position;
use crate::text::{nat_digits, push_chars, push_str, push_u64, string_from_chars, chars_of};
use std::rc::Rc;
use vstd::prelude::*;

verus! {

impl Position {
    /// The first position of every text: line 1, column 1.
    pub fn one() -> (p: Position)
        ensures
            p.line == 1,
            p.column == 1,
    {
        Position { line: 1, column: 1 }
    }

    /// Constructs a position from its line and column.
    pub fn new(line: u32, column: u32) -> (p: Position)
        ensures
            p.line == line,
            p.column == column,
    {
        Position { line, column }
    }

    /// The position one column to the left, on the same line.
    /// Not defined at the first column.
    pub fn one_back(self) -> (p: Position)
        requires
            self.column >= 1,
        ensures
            p.line == self.line,
            p.column == self.column - 1,
    {
        Position { line: self.line, column: self.column - 1 }
    }
}

/// A region of source code. Both start and end are inclusive.
#[derive(Debug, PartialEq, Eq)]
pub struct Span {
    /// The file path this span points to (empty when there is none).
    pub file: Rc<String>,
    /// The start position of the span, inclusive.
    pub start: Position,
    /// The end position of the span, inclusive.
    pub end: Position,
}

impl Clone for Span {
    fn clone(&self) -> (r: Self)
        ensures
            r == *self,
    {
        Span { file: self.file.clone(), start: self.start, end: self.end }
    }
}

/// The line number shown for a position: lines are shown counted from 0 (a
/// line 0, which no lexed position has, wraps around to `u32::MAX`).
pub open spec fn shown_line(line: u32) -> nat {
    if line == 0 {
        u32::MAX as nat
    } else {
        (line - 1) as nat
    }
}

/// How a span is displayed: `file:line:column` of its start, where the file
/// is `<file>` when there is none and lines are counted from 0.
pub open spec fn span_text(s: Span) -> Seq<char> {
    (if s.file@.len() == 0 { "<file>"@ } else { s.file@ }) + seq![':'] + nat_digits(
        shown_line(s.start.line),
    ) + seq![':'] + nat_digits(s.start.column as nat)
}

/// The file path of code that does not come from a file: empty.
pub fn no_path() -> (p: Rc<String>)
    ensures
        p@ == Seq::<char>::empty(),
{
    Rc::new(String::new())
}

impl Span {
    /// Constructs a span.
    pub fn new(start: Position, end: Position, file: Rc<String>) -> (s: Span)
        ensures
            s.start == start,
            s.end == end,
            s.file == file,
    {
        Span { file, start, end }
    }

    /// The display text of this span (see [`span_text`]).
    pub fn to_string(&self) -> (s: String)
        ensures
            s@ == span_text(*self),
    {
        let v = span_chars(self);
        string_from_chars(&v)
    }
}

/// The display text of a span, as characters.
pub fn span_chars(s: &Span) -> (v: Vec<char>)
    ensures
        v@ == span_text(*s),
{
    proof {
        reveal_strlit("<file>");
    }
    let mut v: Vec<char> = Vec::new();
    let file: &String = &s.file;
    let fchars = chars_of(file.as_str());
    if fchars.len() == 0 {
        push_str(&mut v, "<file>");
    } else {
        push_chars(&mut v, &fchars);
    }
    v.push(':');
    let shown: u32 = if s.start.line == 0 {
        u32::MAX
    } else {
        s.start.line - 1
    };
    push_u64(&mut v, shown as u64);
    v.push(':');
    push_u64(&mut v, s.start.column as u64);
    assert(v@ =~= span_text(*s));
    v
}

/// The line and column reached after reading `s` from the start of a text.
pub open spec fn pos_after(s: Seq<char>) -> (int, int)
    decreases s.len(),
{
    if s.len() == 0 {
        (1, 1)
    } else {
        let p = pos_after(s.drop_last());
        if s.last() == '\n' {
            (p.0 + 1, 1)
        } else {
            (p.0, p.1 + 1)
        }
    }
}

/// The position of the character at index `i` of the text `s`.
pub open spec fn position_at(s: Seq<char>, i: int) -> Position {
    let p = pos_after(s.take(i));
    Position { line: p.0 as u32, column: p.1 as u32 }
}

/// Whether the lines and columns of a text fit in `u32`: every line is
/// shorter than `u32::MAX` characters and there are at most `u32::MAX`
/// lines, so that no position reached while reading it overflows.
pub open spec fn positions_fit(s: Seq<char>) -> bool {
    forall|i: int|
        #![trigger pos_after(s.take(i))]
        0 <= i <= s.len() ==> pos_after(s.take(i)).0 <= u32::MAX && pos_after(s.take(i)).1 <= u32::MAX
}

/// Whether the lines and columns of a text fit in `u32` (see
/// [`positions_fit`]).
pub fn check_positions_fit(text: &Vec<char>) -> (r: bool)
    ensures
        r == positions_fit(text@),
{
    let mut line: u64 = 1;
    let mut column: u64 = 1;
    let mut i: usize = 0;
    assert(text@.take(0) =~= Seq::<char>::empty());
    while i < text.len()
        invariant
            0 <= i <= text@.len(),
            line == pos_after(text@.take(i as int)).0,
            column == pos_after(text@.take(i as int)).1,
            forall|k: int|
                #![trigger pos_after(text@.take(k))]
                0 <= k <= i ==> pos_after(text@.take(k)).0 <= u32::MAX && pos_after(text@.take(k)).1
                    <= u32::MAX,
        decreases text@.len() - i,
    {
        assert(text@.take(i + 1).drop_last() =~= text@.take(i as int));
        assert(text@.take(i + 1).last() == text@[i as int]);
        if text[i] == '\n' {
            if line == 0xffff_ffff {
                assert(pos_after(text@.take(i + 1)).0 > u32::MAX);
                return false;
            }
            line = line + 1;
            column = 1;
        } else {
            if column == 0xffff_ffff {
                assert(pos_after(text@.take(i + 1)).1 > u32::MAX);
                return false;
            }
            column = column + 1;
        }
        i = i + 1;
    }
    true
}

/// Lines and columns stay between 1 and one more than the number of characters read.
pub proof fn lemma_pos_after_bounds(s: Seq<char>)
    ensures
        1 <= pos_after(s).0 <= s.len() + 1,
        1 <= pos_after(s).1 <= s.len() + 1,
    decreases s.len(),
{
    if s.len() > 0 {
        lemma_pos_after_bounds(s.drop_last());
    }
}

/// Reading more characters moves strictly forward: the position reached after a
/// longer prefix is later (by line, then column) than after a shorter one.
pub proof fn lemma_pos_after_increasing(s: Seq<char>, i: int, j: int)
    requires
        0 <= i < j <= s.len(),
    ensures
        pos_after(s.take(i)).0 < pos_after(s.take(j)).0 || (pos_after(s.take(i)).0 == pos_after(
            s.take(j),
        ).0 && pos_after(s.take(i)).1 < pos_after(s.take(j)).1),
    decreases j - i,
{
    assert(s.take(j).drop_last() =~= s.take(j - 1));
    if j - 1 > i {
        lemma_pos_after_increasing(s, i, j - 1);
    }
}

/// Distinct characters of a text (short enough for positions to fit in `u32`)
/// have distinct positions.
pub proof fn lemma_positions_distinct(s: Seq<char>, i: int, j: int)
    requires
        0 <= i < s.len(),
        0 <= j < s.len(),
        i != j,
        positions_fit(s),
    ensures
        position_at(s, i) != position_at(s, j),
{
    lemma_pos_after_bounds(s.take(i));
    lemma_pos_after_bounds(s.take(j));
    assert(pos_after(s.take(i)).0 <= u32::MAX && pos_after(s.take(i)).1 <= u32::MAX);
    assert(pos_after(s.take(j)).0 <= u32::MAX && pos_after(s.take(j)).1 <= u32::MAX);
    if i < j {
        lemma_pos_after_increasing(s, i, j);
    } else {
        lemma_pos_after_increasing(s, j, i);
    }
}

/// Positions of a text grow with the index: a later character has a later position.
pub proof fn lemma_positions_ordered(s: Seq<char>, i: int, j: int)
    requires
        0 <= i < j < s.len(),
        positions_fit(s),
    ensures
        position_at(s, i).line < position_at(s, j).line || (position_at(s, i).line == position_at(
            s,
            j,
        ).line && position_at(s, i).column < position_at(s, j).column),
{
    lemma_pos_after_bounds(s.take(i));
    lemma_pos_after_bounds(s.take(j));
    assert(pos_after(s.take(i)).0 <= u32::MAX && pos_after(s.take(i)).1 <= u32::MAX);
    assert(pos_after(s.take(j)).0 <= u32::MAX && pos_after(s.take(j)).1 <= u32::MAX);
    lemma_pos_after_increasing(s, i, j);
}

/// Reading one more character from `position_at(s, i)` gives `position_at(s, i + 1)`.
pub proof fn lemma_position_step(s: Seq<char>, i: int)
    requires
        0 <= i < s.len(),
        positions_fit(s),
    ensures
        s[i] == '\n' ==> position_at(s, i + 1).line == position_at(s, i).line + 1,
        s[i] == '\n' ==> position_at(s, i + 1).column == 1,
        s[i] != '\n' ==> position_at(s, i + 1).line == position_at(s, i).line,
        s[i] != '\n' ==> position_at(s, i + 1).column == position_at(s, i).column + 1,
        1 <= position_at(s, i).line <= i + 1,
        1 <= position_at(s, i).column <= i + 1,
{
    assert(s.take(i + 1).drop_last() =~= s.take(i));
    lemma_pos_after_bounds(s.take(i));
    lemma_pos_after_bounds(s.take(i + 1));
    assert(pos_after(s.take(i)).0 <= u32::MAX && pos_after(s.take(i)).1 <= u32::MAX);
    assert(pos_after(s.take(i + 1)).0 <= u32::MAX && pos_after(s.take(i + 1)).1 <= u32::MAX);
}

/// An iterator over the characters of a text together with their positions.
pub struct CharPositions {
    text: Vec<char>,
    idx: usize,
    pos: Position,
}

impl CharPositions {
    /// The characters of the whole text.
    pub closed spec fn text(&self) -> Seq<char> {
        self.text@
    }

    /// The index of the next character to be returned.
    pub closed spec fn index(&self) -> int {
        self.idx as int
    }

    /// The internal consistency of the iterator: `pos` is the position of the
    /// next character, and the positions of the text fit in `u32`.
    pub closed spec fn wf(&self) -> bool {
        &&& self.idx <= self.text@.len()
        &&& positions_fit(self.text@)
        &&& self.pos == position_at(self.text@, self.idx as int)
    }

    /// Starts iterating over `text` from its first character.
    pub fn new(text: &str) -> (it: CharPositions)
        requires
            positions_fit(text@),
        ensures
            it.wf(),
            it.text() == text@,
            it.index() == 0,
    {
        let t = chars_of(text);
        assert(t@.take(0) =~= Seq::<char>::empty());
        CharPositions { text: t, idx: 0, pos: Position { line: 1, column: 1 } }
    }

    /// Starts iterating over the given characters from the first one.
    pub fn from_chars(text: Vec<char>) -> (it: CharPositions)
        requires
            positions_fit(text@),
        ensures
            it.wf(),
            it.text() == text@,
            it.index() == 0,
    {
        assert(text@.take(0) =~= Seq::<char>::empty());
        CharPositions { text, idx: 0, pos: Position { line: 1, column: 1 } }
    }

    /// Returns the next character and its position, or `None` at the end of the text.
    pub fn next(&mut self) -> (r: Option<(Position, char)>)
        requires
            old(self).wf(),
        ensures
            final(self).wf(),
            final(self).text() == old(self).text(),
            old(self).index() < old(self).text().len() ==> r == Some(
                (position_at(old(self).text(), old(self).index()), old(self).text()[old(self).index()]),
            ),
            old(self).index() < old(self).text().len() ==> final(self).index() == old(self).index()
                + 1,
            old(self).index() >= old(self).text().len() ==> r.is_none(),
            old(self).index() >= old(self).text().len() ==> final(self).index() == old(self).index(),
    {
        if self.idx >= self.text.len() {
            return None;
        }
        let c = self.text[self.idx];
        let p = self.pos;
        proof {
            lemma_position_step(self.text@, self.idx as int);
        }
        if c == '\n' {
            self.pos = Position { line: self.pos.line + 1, column: 1 };
        } else {
            self.pos = Position { line: self.pos.line, column: self.pos.column + 1 };
        }
        self.idx = self.idx + 1;
        Some((p, c))
    }

    /// Collects all remaining characters with their positions.
    pub fn collect_vec(&mut self) -> (v: Vec<(Position, char)>)
        requires
            old(self).wf(),
        ensures
            final(self).wf(),
            final(self).text() == old(self).text(),
            final(self).index() == old(self).text().len() || old(self).index() > old(self).text().len(),
            v@.len() == old(self).text().len() - old(self).index() || (old(self).index() > old(self).text().len() && v@.len() == 0),
            forall|k: int|
                0 <= k < v@.len() ==> #[trigger] v@[k] == (
                    position_at(old(self).text(), old(self).index() + k),
                    old(self).text()[old(self).index() + k],
                ),
    {
        let mut v: Vec<(Position, char)> = Vec::new();
        let ghost start = self.index();
        loop
            invariant
                self.wf(),
                self.text() == old(self).text(),
                start == old(self).index(),
                start <= self.text().len() ==> self.index() == start + v@.len(),
                start > self.text().len() ==> v@.len() == 0 && self.index() == start,
                forall|k: int|
                    0 <= k < v@.len() ==> #[trigger] v@[k] == (
                        position_at(self.text(), start + k),
                        self.text()[start + k],
                    ),
            ensures
                self.wf(),
                self.text() == old(self).text(),
                self.index() >= self.text().len(),
                start <= self.text().len() ==> self.index() == start + v@.len(),
                start > self.text().len() ==> v@.len() == 0 && self.index() == start,
                forall|k: int|
                    0 <= k < v@.len() ==> #[trigger] v@[k] == (
                        position_at(self.text(), start + k),
                        self.text()[start + k],
                    ),
            decreases self.text().len() - self.index(),
        {
            match self.next() {
                Some(x) => {
                    v.push(x);
                },
                None => {
                    break;
                },
            }
        }
        v
    }
}

/// The position of the last character of a non-empty text.
pub fn last_pos(code: &str) -> (p: Position)
    requires
        code@.len() > 0,
        positions_fit(code@),
    ensures
        p == position_at(code@, code@.len() - 1),
{
    let mut it = CharPositions::new(code);
    let mut last = it.next().unwrap();
    loop
        invariant
            it.wf(),
            it.text() == code@,
            1 <= it.index() <= code@.len(),
            last.0 == position_at(code@, it.index() - 1),
        ensures
            last.0 == position_at(code@, code@.len() - 1),
        decreases code@.len() - it.index(),
    {
        match it.next() {
            Some(x) => {
                last = x;
            },
            None => {
                break;
            },
        }
    }
    last.0
}

} // verus!
