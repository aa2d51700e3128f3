//! A cursor over the characters of a text that tracks line and column.
use vstd::prelude::*;

verus! {

/// A place in the source text: 1-based line and column.
#[derive(Debug, Clone, Copy, PartialEq, Eq, Structural)]
pub struct Position {
    pub line: usize,
    pub column: usize,
}

/// The place of the first character.
pub open spec fn start() -> Position {
    Position { line: 1, column: 1 }
}

/// One more than `n`, held at the largest `usize`.
pub open spec fn bump(n: usize) -> usize {
    if n < usize::MAX {
        (n + 1) as usize
    } else {
        n
    }
}

/// The place after `c` has been read at `p`: a newline starts the next line.
pub open spec fn advance(p: Position, c: char) -> Position {
    if c == '\n' {
        Position { line: bump(p.line), column: 1 }
    } else {
        Position { line: p.line, column: bump(p.column) }
    }
}

/// The place reached after reading all of `s` from the start.
pub open spec fn position_after(s: Seq<char>) -> Position
    decreases s.len(),
{
    if s.len() == 0 {
        start()
    } else {
        advance(position_after(s.drop_last()), s.last())
    }
}

impl Position {
    pub fn new() -> (r: Position)
        ensures
            r == start(),
    {
        Position { line: 1, column: 1 }
    }

    /// Moves past `c`.
    pub fn advance(&mut self, c: char)
        ensures
            *final(self) == advance(*old(self), c),
    {
        if c == '\n' {
            self.line = if self.line < usize::MAX { self.line + 1 } else { self.line };
            self.column = 1;
        } else {
            self.column = if self.column < usize::MAX { self.column + 1 } else { self.column };
        }
    }
}

/// A cursor over the characters of a text, which knows the place of the next character.
#[derive(Debug, Clone)]
pub struct InputReader {
    stream: Vec<char>,
    index: usize,
    position: Position,
}

impl InputReader {
    /// All characters of the text, those already read included.
    pub closed spec fn spec_text(&self) -> Seq<char> {
        self.stream@
    }

    /// How many characters have been read.
    pub closed spec fn spec_index(&self) -> nat {
        self.index as nat
    }

    /// The place of the next character.
    pub closed spec fn spec_position(&self) -> Position {
        self.position
    }

    /// The characters not read yet.
    pub open spec fn rest(&self) -> Seq<char> {
        self.spec_text().subrange(self.spec_index() as int, self.spec_text().len() as int)
    }

    pub open spec fn wf(&self) -> bool {
        &&& self.spec_index() <= self.spec_text().len()
        &&& self.spec_position() == position_after(
            self.spec_text().take(self.spec_index() as int),
        )
    }

    pub fn new(input: &str) -> (r: InputReader)
        ensures
            r.wf(),
            r.spec_text() == input@,
            r.spec_index() == 0,
    {
        let stream = crate::text::chars_of(input);
        let r = InputReader { stream, index: 0, position: Position::new() };
        assert(r.spec_text().take(0) =~= Seq::<char>::empty());
        r
    }

    /// Reads the next character, if any is left.
    pub fn consume(&mut self) -> (r: Option<char>)
        requires
            old(self).wf(),
        ensures
            final(self).wf(),
            final(self).spec_text() == old(self).spec_text(),
            old(self).spec_index() < old(self).spec_text().len() ==> {
                &&& r == Some(old(self).spec_text()[old(self).spec_index() as int])
                &&& final(self).spec_index() == old(self).spec_index() + 1
            },
            old(self).spec_index() == old(self).spec_text().len() ==> {
                &&& r is None
                &&& *final(self) == *old(self)
            },
    {
        if self.index >= self.stream.len() {
            return None;
        }
        let c = self.stream[self.index];
        proof {
            let t = self.stream@;
            let i = self.index as int;
            assert(t.take(i + 1).drop_last() =~= t.take(i));
        }
        self.position.advance(c);
        self.index = self.index + 1;
        Some(c)
    }

    /// The character `n` places after the next one, if there is one.
    pub fn peek_at(&self, n: usize) -> (r: Option<char>)
        requires
            self.wf(),
        ensures
            n < self.rest().len() ==> r == Some(self.rest()[n as int]),
            n >= self.rest().len() ==> r is None,
    {
        if n < self.stream.len() - self.index {
            Some(self.stream[self.index + n])
        } else {
            None
        }
    }

    /// The next character, if there is one.
    pub fn peek(&self) -> (r: Option<char>)
        requires
            self.wf(),
        ensures
            self.rest().len() > 0 ==> r == Some(self.rest()[0]),
            self.rest().len() == 0 ==> r is None,
    {
        self.peek_at(0)
    }

    /// Whether every character has been read.
    pub fn is_empty(&self) -> (r: bool)
        requires
            self.wf(),
        ensures
            r == (self.rest().len() == 0),
    {
        self.index >= self.stream.len()
    }

    /// The place of the next character.
    pub fn position(&self) -> (r: Position)
        ensures
            r == self.spec_position(),
    {
        self.position
    }

    /// How many characters have been read.
    pub fn index(&self) -> (r: usize)
        ensures
            r == self.spec_index(),
    {
        self.index
    }
}

} // verus!
