use vstd::prelude::*;

verus! {

/// A place in a source text: line, column and absolute character offset.
#[derive(Clone, Copy, Debug, PartialEq, Eq, Structural)]
pub struct Pos {
    pub line: usize,
    pub column: usize,
    pub offset: usize,
}

/// The stretch of source text between two places.
#[derive(Clone, Copy, Debug, PartialEq, Eq, Structural)]
pub struct Span {
    pub from: Pos,
    pub to: Pos,
}

impl Pos {
    /// The very beginning of a text.
    pub open spec fn origin() -> Pos {
        Pos { line: 0, column: 0, offset: 0 }
    }

    pub fn new(line: usize, column: usize, offset: usize) -> (pos: Pos)
        ensures
            pos == (Pos { line, column, offset }),
    {
        Pos { line, column, offset }
    }
}

impl Span {
    /// The empty span at the beginning of a text.
    pub open spec fn empty() -> Span {
        Span { from: Pos::origin(), to: Pos::origin() }
    }

    pub fn new(from: Pos, to: Pos) -> (span: Span)
        ensures
            span == (Span { from, to }),
    {
        Span { from, to }
    }

    /// The place a diagnostic about this span is anchored to: its start.
    pub fn to_pos(&self) -> (pos: Pos)
        ensures
            pos == self.from,
    {
        self.from
    }
}

impl Default for Span {
    fn default() -> (span: Span)
        ensures
            span == Span::empty(),
    {
        let zero = Pos { line: 0, column: 0, offset: 0 };
        Span { from: zero, to: zero }
    }
}

} // verus!
