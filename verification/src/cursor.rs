//! The position snapshot of one reading session: byte offset, character
//! offset, line and column, all derived from the same source text.

use vstd::prelude::*;

use crate::reader::Reader;
use crate::text::{bytes_len, line_start, newline_count};

verus! {

/// A specific position inside a `Reader`.
///
/// Cursors are cheap, immutable value objects; a rule saves one to remember
/// "where we were" and hands it back to the reader to roll back. The four
/// coordinates are redundant views of one position, tied together by
/// [`Cursor::wf`].
#[derive(Debug, Clone, Copy, PartialEq, Eq, Structural)]
pub struct Cursor {
    pub offset: usize,
    pub char_offset: usize,
    pub line: usize,
    pub column: usize,
}

impl Cursor {
    /// The cursor is a sound position of the text `s`: the byte offset is the
    /// UTF-8 width of the consumed prefix, the line counts the line breaks
    /// crossed (starting at 1), and the column counts the characters since
    /// the last line break (starting at 1).
    pub open spec fn wf(self, s: Seq<char>) -> bool {
        &&& self.char_offset <= s.len()
        &&& self.offset == bytes_len(s.take(self.char_offset as int))
        &&& self.line == 1 + newline_count(s.take(self.char_offset as int))
        &&& self.column == 1 + self.char_offset - line_start(s, self.char_offset as int)
    }

    // GETTERS ----------------------------------------------------------------
    /// The position of the `Cursor` in bytes.
    pub fn offset(&self) -> (r: usize)
        ensures
            r == self.offset,
    {
        self.offset
    }

    /// The position of the `Cursor` in characters.
    pub fn char_offset(&self) -> (r: usize)
        ensures
            r == self.char_offset,
    {
        self.char_offset
    }

    /// The line number in which the `Cursor` is placed.
    /// It starts at line 1.
    pub fn line(&self) -> (r: usize)
        ensures
            r == self.line,
    {
        self.line
    }

    /// The column number in which the `Cursor` is placed.
    /// It starts at column 1.
    pub fn column(&self) -> (r: usize)
        ensures
            r == self.column,
    {
        self.column
    }

    // METHODS ----------------------------------------------------------------
    /// Returns whether this cursor is a sound position of `reader`'s text,
    /// which holds of every cursor the reader itself produced and fails for
    /// a cursor carried over from a session with different contents.
    pub fn belongs_to(&self, reader: &Reader) -> (r: bool)
        requires
            reader.wf(),
        ensures
            r == self.wf(reader.content@),
    {
        let canonical = reader.cursor_at(self.char_offset);
        match canonical {
            Some(c) => {
                c.offset == self.offset && c.char_offset == self.char_offset && c.line == self.line
                    && c.column == self.column
            },
            None => false,
        }
    }
}

} // verus!
