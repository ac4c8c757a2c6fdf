//! Source positions: a line and column cursor that moves one character at a
//! time.

use vstd::prelude::*;

verus! {

/// A place in the source text, counted from line 0, column 0.
#[derive(Clone, Copy, Debug, PartialEq, Eq, Structural)]
pub struct Position {
    pub line: usize,
    pub column: usize,
}

/// The position reached from `position` by reading the character `ch`.
pub open spec fn position_step(position: Position, ch: char) -> Position {
    if ch == '\n' {
        Position { line: (position.line + 1) as usize, column: 0 }
    } else {
        Position { line: position.line, column: (position.column + 1) as usize }
    }
}

/// The number of line breaks in `text`.
pub open spec fn line_breaks(text: Seq<char>) -> nat
    decreases text.len(),
{
    if text.len() == 0 {
        0
    } else {
        line_breaks(text.drop_last()) + if text.last() == '\n' { 1nat } else { 0nat }
    }
}

/// The number of characters of `text` that follow its last line break.
pub open spec fn tail_width(text: Seq<char>) -> nat
    decreases text.len(),
{
    if text.len() == 0 || text.last() == '\n' {
        0
    } else {
        tail_width(text.drop_last()) + 1
    }
}

/// Where a cursor that started at the origin stands after reading `text`.
pub open spec fn position_after(text: Seq<char>) -> Position {
    Position { line: line_breaks(text) as usize, column: tail_width(text) as usize }
}

/// True when `a` is at or before `b` in reading order.
pub open spec fn position_le(a: Position, b: Position) -> bool {
    a.line < b.line || (a.line == b.line && a.column <= b.column)
}

impl Position {
    /// The origin: line 0, column 0.
    pub fn new() -> (position: Position)
        ensures
            position == (Position { line: 0, column: 0 }),
            position == position_after(Seq::<char>::empty()),
    {
        Position { line: 0, column: 0 }
    }

    /// Moves to the start of the next line.
    pub fn newline(&mut self)
        requires
            old(self).line < usize::MAX,
        ensures
            *final(self) == (Position { line: (old(self).line + 1) as usize, column: 0 }),
            *final(self) == position_step(*old(self), '\n'),
    {
        self.line = self.line + 1;
        self.column = 0;
    }

    /// Moves one column to the right.
    pub fn shift(&mut self)
        requires
            old(self).column < usize::MAX,
        ensures
            *final(self) == (Position {
                line: old(self).line,
                column: (old(self).column + 1) as usize,
            }),
    {
        self.column = self.column + 1;
    }

    /// Moves past the character `ch`: to the next line for a line break, one
    /// column to the right for anything else.
    pub fn advance(&mut self, ch: char)
        requires
            old(self).line < usize::MAX,
            old(self).column < usize::MAX,
        ensures
            *final(self) == position_step(*old(self), ch),
    {
        if ch == '\n' {
            self.newline();
        } else {
            self.shift();
        }
    }
}

/// Both counters of a position are bounded by the number of characters read.
pub proof fn lemma_position_bounded(text: Seq<char>)
    ensures
        line_breaks(text) + tail_width(text) <= text.len(),
    decreases text.len(),
{
    if text.len() > 0 {
        lemma_position_bounded(text.drop_last());
    }
}

/// Reading one more character moves the cursor by one step.
pub proof fn lemma_position_after_push(text: Seq<char>, ch: char)
    requires
        text.len() < usize::MAX,
    ensures
        position_after(text.push(ch)) == position_step(position_after(text), ch),
{
    assert(text.push(ch).drop_last() =~= text);
    lemma_position_bounded(text);
}

/// The counters of a prefix of a text never exceed, in reading order, those
/// of the whole text.
proof fn lemma_counters_grow(text: Seq<char>, shorter: int)
    requires
        0 <= shorter <= text.len(),
    ensures
        line_breaks(text.take(shorter)) <= line_breaks(text),
        line_breaks(text.take(shorter)) == line_breaks(text) ==> tail_width(text.take(shorter))
            <= tail_width(text),
    decreases text.len(),
{
    if shorter == text.len() {
        assert(text.take(shorter) =~= text);
    } else {
        assert(text.drop_last().take(shorter) =~= text.take(shorter));
        lemma_counters_grow(text.drop_last(), shorter);
    }
}

/// A cursor never moves backwards: the position after a prefix of a text is
/// at or before the position after the whole text.
pub proof fn lemma_position_monotonic(text: Seq<char>, shorter: int)
    requires
        0 <= shorter <= text.len() <= usize::MAX,
    ensures
        position_le(position_after(text.take(shorter)), position_after(text)),
{
    lemma_counters_grow(text, shorter);
    lemma_position_bounded(text);
    lemma_position_bounded(text.take(shorter));
}

} // verus!
