//! A half-open, order-normalized range between two cursors of one session,
//! with its derived substring and line-extraction views.

use std::sync::Arc;

use vstd::prelude::*;

use crate::cursor::Cursor;
use crate::text::{
    bytes_len, lemma_bytes_len_split, lemma_bytes_len_take_mono, lemma_line_start_bounds,
    lemma_next_newline_bounds, line_start, next_newline,
};

verus! {

/// A `Span` is a set of meta information about the location of a substring.
///
/// Many spans share one source text; none of them copies it.
#[derive(Debug, Clone)]
pub struct Span {
    pub content: Arc<String>,
    pub start_cursor: Cursor,
    pub end_cursor: Cursor,
}

impl Span {
    /// Both cursors are sound positions of the shared text and the span is
    /// normalized: its start does not lie after its end.
    pub open spec fn wf(&self) -> bool {
        &&& self.start_cursor.wf(self.content@)
        &&& self.end_cursor.wf(self.content@)
        &&& self.start_cursor.char_offset <= self.end_cursor.char_offset
    }

    /// The character sequence the span delimits.
    pub open spec fn text(&self) -> Seq<char> {
        self.content@.subrange(
            self.start_cursor.char_offset as int,
            self.end_cursor.char_offset as int,
        )
    }

    // GETTERS ----------------------------------------------------------------
    /// The whole content the `Span` belongs to.
    pub fn whole_content(&self) -> (r: &Arc<String>)
        ensures
            r == &self.content,
    {
        &self.content
    }

    /// The content of the `Span`.
    pub fn content(&self) -> (r: &str)
        requires
            self.wf(),
        ensures
            r@ == self.text(),
    {
        self.content.as_str().substring_char(
            self.start_cursor.char_offset,
            self.end_cursor.char_offset,
        )
    }

    /// The content before the `Span`.
    pub fn content_before(&self) -> (r: &str)
        requires
            self.wf(),
        ensures
            r@ == self.content@.take(self.start_cursor.char_offset as int),
    {
        proof {
            assert(self.content@.take(self.start_cursor.char_offset as int)
                =~= self.content@.subrange(0, self.start_cursor.char_offset as int));
        }
        self.content.as_str().substring_char(0, self.start_cursor.char_offset)
    }

    /// The content after the `Span`.
    pub fn content_after(&self) -> (r: &str)
        requires
            self.wf(),
        ensures
            r@ == self.content@.skip(self.end_cursor.char_offset as int),
    {
        proof {
            assert(self.content@.skip(self.end_cursor.char_offset as int)
                =~= self.content@.subrange(
                self.end_cursor.char_offset as int,
                self.content@.len() as int,
            ));
        }
        let len = self.content.as_str().unicode_len();
        self.content.as_str().substring_char(self.end_cursor.char_offset, len)
    }

    /// The start position of the `Span`.
    pub fn start_cursor(&self) -> (r: &Cursor)
        ensures
            r == &self.start_cursor,
    {
        &self.start_cursor
    }

    /// The end position of the `Span`.
    pub fn end_cursor(&self) -> (r: &Cursor)
        ensures
            r == &self.end_cursor,
    {
        &self.end_cursor
    }

    /// The length of the `Span` in bytes.
    pub fn len(&self) -> (r: usize)
        requires
            self.wf(),
        ensures
            r == self.end_cursor.offset - self.start_cursor.offset,
            r == bytes_len(self.text()),
    {
        proof {
            lemma_bytes_len_take_mono(
                self.content@,
                self.start_cursor.char_offset as int,
                self.end_cursor.char_offset as int,
            );
            lemma_bytes_len_split(
                self.content@,
                self.start_cursor.char_offset as int,
                self.end_cursor.char_offset as int,
            );
        }
        self.end_cursor.offset - self.start_cursor.offset
    }

    /// The length of the `Span` in characters.
    pub fn char_length(&self) -> (r: usize)
        requires
            self.wf(),
        ensures
            r == self.end_cursor.char_offset - self.start_cursor.char_offset,
            r == self.text().len(),
    {
        self.end_cursor.char_offset - self.start_cursor.char_offset
    }

    /// Returns the line(s) in which the `Span` is contained: from the start
    /// of the line holding the span's start to the line break (or text end)
    /// that ends the line holding the span's end. A span boundary sitting
    /// exactly on a `'\n'` keeps the line that the `'\n'` ends.
    pub fn lines(&self) -> (r: &str)
        requires
            self.wf(),
        ensures
            r@ == self.content@.subrange(
                line_start(self.content@, self.start_cursor.char_offset as int),
                next_newline(self.content@, self.end_cursor.char_offset as int),
            ),
    {
        let len = self.content.as_str().unicode_len();
        let s = self.content.as_str();
        let ghost t = self.content@;
        let ghost spos = self.start_cursor.char_offset as int;
        let ghost epos = self.end_cursor.char_offset as int;
        let mut from: usize = self.start_cursor.char_offset;
        while from > 0
            invariant
                0 <= from <= spos <= t.len(),
                t == self.content@,
                s@ == t,
                line_start(t, spos) == line_start(t, from as int),
            ensures
                from == line_start(t, spos),
            decreases from,
        {
            if s.get_char(from - 1) == '\n' {
                break;
            }
            from = from - 1;
        }
        let mut to: usize = self.end_cursor.char_offset;
        while to < len
            invariant
                epos <= to <= len,
                len == t.len(),
                t == self.content@,
                s@ == t,
                next_newline(t, epos) == next_newline(t, to as int),
            ensures
                to == next_newline(t, epos),
            decreases len - to,
        {
            if s.get_char(to) == '\n' {
                break;
            }
            to = to + 1;
        }
        proof {
            lemma_next_newline_bounds(t, epos);
            lemma_line_start_bounds(t, spos);
            assert(line_start(t, spos) <= spos <= epos <= next_newline(t, epos));
        }
        s.substring_char(from, to)
    }
}

} // verus!
