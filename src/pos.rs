//! Positions and ranges in a document, in zero-based lines and characters.

use vstd::prelude::*;

verus! {

/// A zero-based line/character coordinate in a document.
#[derive(Clone, Copy, Debug, PartialEq, Eq, Structural)]
pub struct Position {
    pub line: u32,
    pub character: u32,
}

/// A half-open span of a document, from `start` to `end`.
#[derive(Clone, Copy, Debug, PartialEq, Eq, Structural)]
pub struct Range {
    pub start: Position,
    pub end: Position,
}

/// `a` comes at or before `b` in document order.
pub open spec fn pos_le(a: Position, b: Position) -> bool {
    a.line < b.line || (a.line == b.line && a.character <= b.character)
}

/// `a` comes strictly before `b` in document order.
pub open spec fn pos_lt(a: Position, b: Position) -> bool {
    a.line < b.line || (a.line == b.line && a.character < b.character)
}

impl Position {
    pub fn new(line: u32, character: u32) -> (r: Position)
        ensures
            r.line == line,
            r.character == character,
    {
        Position { line, character }
    }

    pub fn le(&self, other: &Position) -> (r: bool)
        ensures
            r == pos_le(*self, *other),
    {
        self.line < other.line || (self.line == other.line && self.character <= other.character)
    }

    pub fn lt(&self, other: &Position) -> (r: bool)
        ensures
            r == pos_lt(*self, *other),
    {
        self.line < other.line || (self.line == other.line && self.character < other.character)
    }
}

impl Range {
    pub open spec fn spec_contains(self, p: Position) -> bool {
        pos_le(self.start, p) && pos_le(p, self.end)
    }

    pub open spec fn spec_contains_exclusive(self, p: Position) -> bool {
        pos_lt(self.start, p) && pos_lt(p, self.end)
    }

    /// The range from `(start_line, start_character)` to `(end_line, end_character)`.
    pub fn new_simple(start_line: u32, start_character: u32, end_line: u32, end_character: u32) -> (r: Range)
        ensures
            r.start == Position::new_spec(start_line, start_character),
            r.end == Position::new_spec(end_line, end_character),
    {
        Range {
            start: Position { line: start_line, character: start_character },
            end: Position { line: end_line, character: end_character },
        }
    }

    /// The empty range at `p`.
    pub fn empty_at(p: Position) -> (r: Range)
        ensures
            r.start == p,
            r.end == p,
    {
        Range { start: p, end: p }
    }

    /// `p` lies within the range, both ends included.
    pub fn contains(&self, p: Position) -> (r: bool)
        ensures
            r == self.spec_contains(p),
    {
        self.start.le(&p) && p.le(&self.end)
    }

    /// `p` lies strictly inside the range, both ends excluded.
    pub fn contains_exclusive(&self, p: Position) -> (r: bool)
        ensures
            r == self.spec_contains_exclusive(p),
    {
        self.start.lt(&p) && p.lt(&self.end)
    }
}

impl Position {
    pub open spec fn new_spec(line: u32, character: u32) -> Position {
        Position { line, character }
    }
}

} // verus!
