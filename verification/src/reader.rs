//! The mutable scanner of one parsing session: an immutable source text, the
//! single current cursor, and the primitive consume / lookahead / backtrack
//! operations every grammar rule is built from.
//!
//! Every method either consumes characters and moves the cursor strictly
//! forward, or leaves the cursor exactly where it was; none leaves the
//! cursor somewhere in between on failure.

use std::sync::Arc;

use vstd::prelude::*;

use crate::cursor::Cursor;
use crate::span::Span;
use crate::text::{
    bytes_len, char_utf8_len, class_run_end, first_match, in_ranges, lemma_bytes_len_bounds,
    lemma_bytes_len_is_encoded_len, lemma_bytes_len_split, lemma_bytes_len_take_mono,
    lemma_bytes_len_take_step, lemma_line_start_bounds, lemma_newline_count_bounds,
    lemma_newline_count_take_step, matches_at, ranges_sorted, CharRange,
};

verus! {

/// A `String` reader that moves a cursor over the content.
#[derive(Debug)]
pub struct Reader {
    pub file_path: Option<Arc<String>>,
    pub content: Arc<String>,
    pub cursor: Cursor,
}

impl Reader {
    // SPECIFICATION ----------------------------------------------------------
    /// The source text as a character sequence.
    pub open spec fn text(&self) -> Seq<char> {
        self.content@
    }

    /// The current position, in characters.
    pub open spec fn pos(&self) -> int {
        self.cursor.char_offset as int
    }

    /// The reader's cursor is a sound position of its text. The byte length
    /// bound holds of every text a `String` can carry on the machine and
    /// keeps the position bookkeeping in range.
    pub open spec fn wf(&self) -> bool {
        &&& self.cursor.wf(self.content@)
        &&& bytes_len(self.content@) < usize::MAX
    }

    /// The two readers scan the same session: same text, same file path.
    pub open spec fn same_source(&self, other: &Reader) -> bool {
        &&& self.content == other.content
        &&& self.content@ == other.content@
        &&& self.file_path == other.file_path
    }

    // CONSTRUCTORS -----------------------------------------------------------
    /// Create a new `Reader` with the specified `file_path` and `content`.
    pub fn new(file_path: Option<Arc<String>>, content: Arc<String>) -> (r: Reader)
        requires
            bytes_len(content@) < usize::MAX,
        ensures
            r.wf(),
            r.text() == content@,
            r.content == content,
            r.file_path == file_path,
            r.pos() == 0,
            r.cursor == (Cursor { offset: 0, char_offset: 0, line: 1, column: 1 }),
    {
        proof {
            assert(content@.take(0) =~= Seq::<char>::empty());
        }
        Reader { file_path, content, cursor: Cursor { offset: 0, char_offset: 0, line: 1, column: 1 } }
    }

    /// Create a new `Reader` with the specified `content`.
    pub fn from_str(content: &str) -> (r: Reader)
        requires
            bytes_len(content@) < usize::MAX,
        ensures
            r.wf(),
            r.text() == content@,
            r.file_path is None,
            r.pos() == 0,
    {
        Self::new(None, Arc::new(content.to_owned()))
    }

    /// Create a new `Reader` with the specified `content`.
    pub fn from_content(content: Arc<String>) -> (r: Reader)
        requires
            bytes_len(content@) < usize::MAX,
        ensures
            r.wf(),
            r.text() == content@,
            r.content == content,
            r.file_path is None,
            r.pos() == 0,
    {
        Self::new(None, content)
    }

    // GETTERS ----------------------------------------------------------------
    /// The file path of the `Reader` if there's any.
    pub fn file_path(&self) -> (r: &Option<Arc<String>>)
        ensures
            r == &self.file_path,
    {
        &self.file_path
    }

    /// The content of the `Reader`.
    pub fn content(&self) -> (r: &Arc<String>)
        ensures
            r == &self.content,
    {
        &self.content
    }

    /// The position of the `Reader` in bytes.
    pub fn offset(&self) -> (r: usize)
        ensures
            r == self.cursor.offset,
    {
        self.cursor.offset
    }

    /// The position of the `Reader` in characters.
    /// It starts at char 0.
    pub fn char_offset(&self) -> (r: usize)
        ensures
            r == self.cursor.char_offset,
    {
        self.cursor.char_offset
    }

    /// The line number of the current position.
    /// It starts at line 1.
    pub fn line(&self) -> (r: usize)
        ensures
            r == self.cursor.line,
    {
        self.cursor.line
    }

    /// The column number of the current position.
    /// It starts at column 1.
    pub fn column(&self) -> (r: usize)
        ensures
            r == self.cursor.column,
    {
        self.cursor.column
    }

    /// The remaining content as a slice.
    pub fn remaining_content(&self) -> (r: &str)
        requires
            self.wf(),
        ensures
            r@ == self.text().subrange(self.pos(), self.text().len() as int),
    {
        let len = self.content.as_str().unicode_len();
        self.content.as_str().substring_char(self.cursor.char_offset, len)
    }

    /// The remaining content as a `Span`.
    pub fn remaining_content_span(&self) -> (r: Span)
        requires
            self.wf(),
        ensures
            r.wf(),
            r.content@ == self.text(),
            r.start_cursor == self.cursor,
            r.end_cursor.char_offset == self.text().len(),
    {
        let len = self.content.as_str().unicode_len();
        let end = self.cursor_at(len).unwrap();
        Span { content: self.content.clone(), start_cursor: self.cursor, end_cursor: end }
    }

    /// The length in bytes of the content that is not already read.
    pub fn remaining_length(&self) -> (r: usize)
        requires
            self.wf(),
        ensures
            r == bytes_len(self.text()) - self.cursor.offset,
            r == bytes_len(self.text().subrange(self.pos(), self.text().len() as int)),
    {
        proof {
            lemma_bytes_len_is_encoded_len(self.content@);
            lemma_bytes_len_take_mono(self.content@, self.pos(), self.content@.len() as int);
            assert(self.content@.take(self.content@.len() as int) =~= self.content@);
            lemma_bytes_len_split(self.content@, self.pos(), self.content@.len() as int);
        }
        self.content.as_str().len() - self.cursor.offset
    }

    /// The length in characters of the content that is not already read.
    pub fn remaining_char_length(&self) -> (r: usize)
        requires
            self.wf(),
        ensures
            r == self.text().len() - self.pos(),
    {
        self.content.as_str().unicode_len() - self.cursor.char_offset
    }

    // METHODS ----------------------------------------------------------------
    /// Moves the cursor one character forward, keeping every coordinate in
    /// step with the consumed prefix.
    fn advance_one(&mut self)
        requires
            old(self).wf(),
            old(self).pos() < old(self).text().len(),
        ensures
            final(self).wf(),
            final(self).same_source(old(self)),
            final(self).pos() == old(self).pos() + 1,
    {
        proof {
            lemma_bytes_len_take_step(self.content@, self.pos());
            lemma_bytes_len_take_mono(self.content@, self.pos() + 1, self.content@.len() as int);
            assert(self.content@.take(self.content@.len() as int) =~= self.content@);
            lemma_newline_count_take_step(self.content@, self.pos());
            lemma_newline_count_bounds(self.content@.take(self.pos() + 1));
            lemma_bytes_len_bounds(self.content@);
            lemma_line_start_bounds(self.content@, self.pos() + 1);
        }
        let c = self.content.as_str().get_char(self.cursor.char_offset);
        let width = char_utf8_len(c);
        let new_cursor = if c == '\n' {
            Cursor {
                offset: self.cursor.offset + width,
                char_offset: self.cursor.char_offset + 1,
                line: self.cursor.line + 1,
                column: 1,
            }
        } else {
            Cursor {
                offset: self.cursor.offset + width,
                char_offset: self.cursor.char_offset + 1,
                line: self.cursor.line,
                column: self.cursor.column + 1,
            }
        };
        self.cursor = new_cursor;
    }

    /// Moves the cursor `n` characters forward.
    fn advance(&mut self, n: usize)
        requires
            old(self).wf(),
            old(self).pos() + n <= old(self).text().len(),
        ensures
            final(self).wf(),
            final(self).same_source(old(self)),
            final(self).pos() == old(self).pos() + n,
    {
        let mut i: usize = 0;
        while i < n
            invariant
                0 <= i <= n,
                self.wf(),
                self.same_source(old(self)),
                self.pos() == old(self).pos() + i,
                old(self).pos() + n <= old(self).text().len(),
            decreases n - i,
        {
            self.advance_one();
            i = i + 1;
        }
    }

    /// The sound cursor whose character offset is `char_offset`, or `None`
    /// when the offset lies past the end of the text.
    pub fn cursor_at(&self, char_offset: usize) -> (r: Option<Cursor>)
        requires
            self.wf(),
        ensures
            r is Some <==> char_offset <= self.text().len(),
            r matches Some(c) ==> c.wf(self.text()) && c.char_offset == char_offset,
    {
        let len = self.content.as_str().unicode_len();
        if char_offset > len {
            return None;
        }
        let mut aux = Reader::new(None, self.content.clone());
        aux.advance(char_offset);
        Some(aux.cursor)
    }

    /// Consumes a `text` if present moving the start index forward.
    pub fn read(&mut self, text: &str) -> (r: bool)
        requires
            old(self).wf(),
        ensures
            final(self).wf(),
            final(self).same_source(old(self)),
            r == matches_at(old(self).text(), old(self).pos(), text@),
            r ==> final(self).pos() == old(self).pos() + text@.len(),
            !r ==> final(self).cursor == old(self).cursor,
    {
        if self.continues_with(text) {
            let n = text.unicode_len();
            self.advance(n);
            true
        } else {
            false
        }
    }

    /// Consumes one character if present in `interval` moving the start
    /// index forward.
    ///
    /// **Note**: this method requires `interval` be sorted.
    pub fn read_one_of(&mut self, interval: &[CharRange]) -> (r: Option<char>)
        requires
            old(self).wf(),
            ranges_sorted(interval@),
        ensures
            final(self).wf(),
            final(self).same_source(old(self)),
            r is Some <==> old(self).pos() < old(self).text().len() && in_ranges(
                interval@,
                old(self).text()[old(self).pos()],
            ),
            r matches Some(c) ==> c == old(self).text()[old(self).pos()] && final(self).pos()
                == old(self).pos() + 1,
            r is None ==> final(self).cursor == old(self).cursor,
    {
        let c = self.continues_with_one_of(interval);
        match c {
            Some(c) => {
                self.advance(1);
                Some(c)
            },
            None => None,
        }
    }

    /// Consumes the maximal nonempty run of characters of `interval` moving
    /// the start index forward, and returns the consumed text.
    ///
    /// **Note**: this method requires `interval` be sorted.
    pub fn read_one_or_more_of(&mut self, interval: &[CharRange]) -> (r: Option<String>)
        requires
            old(self).wf(),
            ranges_sorted(interval@),
        ensures
            final(self).wf(),
            final(self).same_source(old(self)),
            r is Some <==> old(self).pos() < old(self).text().len() && in_ranges(
                interval@,
                old(self).text()[old(self).pos()],
            ),
            r matches Some(t) ==> {
                &&& final(self).pos() == class_run_end(
                    old(self).text(),
                    old(self).pos(),
                    interval@,
                )
                &&& t@ == old(self).text().subrange(old(self).pos(), final(self).pos())
                &&& final(self).pos() > old(self).pos()
            },
            r is None ==> final(self).cursor == old(self).cursor,
    {
        let start = self.cursor.char_offset;
        let end = self.scan_run(start, interval);
        if end == start {
            return None;
        }
        let t = self.content.as_str().substring_char(start, end).to_owned();
        self.advance(end - start);
        Some(t)
    }

    /// The end of the maximal run of characters of `interval` that starts at
    /// character position `start`.
    fn scan_run(&self, start: usize, interval: &[CharRange]) -> (end: usize)
        requires
            self.wf(),
            start <= self.text().len(),
            ranges_sorted(interval@),
        ensures
            end == class_run_end(self.text(), start as int, interval@),
            start <= end <= self.text().len(),
            forall|i: int| start <= i < end ==> in_ranges(interval@, self.text()[i]),
            end < self.text().len() ==> !in_ranges(interval@, self.text()[end as int]),
            start < self.text().len() && in_ranges(interval@, self.text()[start as int]) ==> end
                > start,
    {
        let len = self.content.as_str().unicode_len();
        let mut end: usize = start;
        while end < len
            invariant
                self.wf(),
                start <= end <= len,
                len == self.text().len(),
                ranges_sorted(interval@),
                forall|i: int| start <= i < end ==> in_ranges(interval@, self.text()[i]),
            ensures
                start <= end <= len,
                forall|i: int| start <= i < end ==> in_ranges(interval@, self.text()[i]),
                end < len ==> !in_ranges(interval@, self.text()[end as int]),
            decreases len - end,
        {
            let c = self.content.as_str().get_char(end);
            if !crate::text::check_inside(c, interval) {
                break;
            }
            end = end + 1;
        }
        proof {
            crate::text::lemma_class_run_end_unique(self.text(), start as int, interval@, end as int);
        }
        end
    }

    /// Checks whether the reader continues with the specified `text`.
    /// This method does not consume the reader.
    pub fn continues_with(&self, text: &str) -> (r: bool)
        requires
            self.wf(),
        ensures
            r == matches_at(self.text(), self.pos(), text@),
    {
        let n = text.unicode_len();
        let len = self.content.as_str().unicode_len();
        if n > len || self.cursor.char_offset > len - n {
            assert(!matches_at(self.text(), self.pos(), text@));
            return false;
        }
        let mut i: usize = 0;
        while i < n
            invariant
                0 <= i <= n,
                n == text@.len(),
                len == self.text().len(),
                self.pos() + n <= len,
                self.wf(),
                forall|k: int| 0 <= k < i ==> self.text()[self.pos() + k] == text@[k],
            decreases n - i,
    {
            let a = self.content.as_str().get_char(self.cursor.char_offset + i);
            let b = text.get_char(i);
            if a != b {
                assert(self.text().subrange(self.pos(), self.pos() + n) != text@) by {
                    assert(self.text().subrange(self.pos(), self.pos() + n)[i as int] != text@[i as int]);
                }
                return false;
            }
            i = i + 1;
        }
        proof {
            assert(self.text().subrange(self.pos(), self.pos() + n) =~= text@);
        }
        true
    }

    /// Checks whether the reader continues with one of the characters
    /// specified by `interval`. This method does not consume the reader.
    ///
    /// **Note**: this method requires `interval` be sorted.
    pub fn continues_with_one_of(&self, interval: &[CharRange]) -> (r: Option<char>)
        requires
            self.wf(),
            ranges_sorted(interval@),
        ensures
            r is Some <==> self.pos() < self.text().len() && in_ranges(
                interval@,
                self.text()[self.pos()],
            ),
            r matches Some(c) ==> c == self.text()[self.pos()],
    {
        let len = self.content.as_str().unicode_len();
        if self.cursor.char_offset >= len {
            return None;
        }
        let c = self.content.as_str().get_char(self.cursor.char_offset);
        if crate::text::check_inside(c, interval) {
            Some(c)
        } else {
            None
        }
    }

    /// Checks whether the reader continues with one or more of the
    /// characters specified by `interval`, and returns the maximal such run.
    /// This method does not consume the reader.
    ///
    /// **Note**: this method requires `interval` be sorted.
    pub fn continues_with_one_or_more_of(&self, interval: &[CharRange]) -> (r: Option<String>)
        requires
            self.wf(),
            ranges_sorted(interval@),
        ensures
            r is Some <==> self.pos() < self.text().len() && in_ranges(
                interval@,
                self.text()[self.pos()],
            ),
            r matches Some(t) ==> t@ == self.text().subrange(
                self.pos(),
                class_run_end(self.text(), self.pos(), interval@),
            ),
    {
        let start = self.cursor.char_offset;
        let end = self.scan_run(start, interval);
        if end == start {
            return None;
        }
        Some(self.content.as_str().substring_char(start, end).to_owned())
    }

    /// Builds a new `Cursor` at the current position of the `Reader`.
    pub fn save(&self) -> (r: Cursor)
        ensures
            r == self.cursor,
    {
        self.cursor
    }

    /// Restores the reader to the specified `Cursor` state. The cursor must
    /// be a sound position of this reader's text, as every cursor saved from
    /// the same session is.
    pub fn restore(&mut self, cursor: Cursor)
        requires
            cursor.wf(old(self).text()),
        ensures
            final(self).same_source(old(self)),
            final(self).cursor == cursor,
            bytes_len(old(self).text()) < usize::MAX ==> final(self).wf(),
    {
        self.cursor = cursor;
    }

    /// Gets a `Span` that contains the substring delimited by both (`from`,
    /// `to`) cursors. The order of the cursors does not matter.
    pub fn substring(&self, from: &Cursor, to: &Cursor) -> (r: Span)
        requires
            self.wf(),
            from.wf(self.text()),
            to.wf(self.text()),
        ensures
            r.wf(),
            r.content@ == self.text(),
            from.char_offset <= to.char_offset ==> r.start_cursor == from && r.end_cursor == to,
            from.char_offset > to.char_offset ==> r.start_cursor == to && r.end_cursor == from,
    {
        proof {
            if from.char_offset <= to.char_offset {
                lemma_bytes_len_take_mono(
                    self.text(),
                    from.char_offset as int,
                    to.char_offset as int,
                );
            } else {
                lemma_bytes_len_take_mono(
                    self.text(),
                    to.char_offset as int,
                    from.char_offset as int,
                );
            }
        }
        if from.offset <= to.offset {
            Span { content: self.content.clone(), start_cursor: *from, end_cursor: *to }
        } else {
            Span { content: self.content.clone(), start_cursor: *to, end_cursor: *from }
        }
    }

    /// Gets a `Span` that contains the substring delimited by `from` and the
    /// current cursor. The order of the cursors does not matter.
    pub fn substring_to_current(&self, from: &Cursor) -> (r: Span)
        requires
            self.wf(),
            from.wf(self.text()),
        ensures
            r.wf(),
            r.content@ == self.text(),
            from.char_offset <= self.pos() ==> r.start_cursor == from && r.end_cursor
                == self.cursor,
            from.char_offset > self.pos() ==> r.start_cursor == self.cursor && r.end_cursor
                == from,
    {
        self.substring(from, &self.cursor)
    }

    /// Scans forward to the first occurrence of `text`, consuming up to but
    /// not through it, and returns the scanned text. When the delimiter does
    /// not occur: with `or_end` set the rest of the input is consumed and
    /// returned, otherwise the cursor does not move and `None` comes back.
    pub fn read_until(&mut self, text: &str, or_end: bool) -> (r: Option<String>)
        requires
            old(self).wf(),
        ensures
            final(self).wf(),
            final(self).same_source(old(self)),
            ({
                let found = first_match(old(self).text(), old(self).pos(), text@);
                &&& (r is Some <==> found != -1 || or_end)
                &&& found != -1 ==> final(self).pos() == found
                &&& found == -1 && or_end ==> final(self).pos() == old(self).text().len()
                &&& found == -1 && !or_end ==> final(self).cursor == old(self).cursor
                &&& r matches Some(t) ==> t@ == old(self).text().subrange(
                    old(self).pos(),
                    final(self).pos(),
                )
            }),
    {
        let start = self.cursor.char_offset;
        let len = self.content.as_str().unicode_len();
        let n = text.unicode_len();
        let ghost found = first_match(self.text(), start as int, text@);
        let mut i: usize = start;
        loop
            invariant
                self.wf(),
                self.same_source(old(self)),
                self.cursor == old(self).cursor,
                start == self.pos(),
                start <= i <= len,
                len == self.text().len(),
                n == text@.len(),
                found == first_match(self.text(), start as int, text@),
                found == first_match(self.text(), i as int, text@),
                forall|k: int| start <= k < i ==> !matches_at(self.text(), k, text@),
            ensures
                found == -1,
            decreases len - i,
        {
            if n > len || i > len - n {
                proof {
                    assert(first_match(self.text(), i as int, text@) == -1);
                }
                break;
            }
            let matches_here = self.matches_at_exec(i, text);
            if matches_here {
                proof {
                    assert(first_match(self.text(), i as int, text@) == i);
                }
                let t = self.content.as_str().substring_char(start, i).to_owned();
                self.advance(i - start);
                return Some(t);
            }
            proof {
                assert(first_match(self.text(), i as int, text@) == first_match(
                    self.text(),
                    i + 1,
                    text@,
                ));
            }
            i = i + 1;
        }
        if or_end {
            let t = self.content.as_str().substring_char(start, len).to_owned();
            self.advance(len - start);
            Some(t)
        } else {
            None
        }
    }

    /// Whether `text` occurs at character position `i` of the content.
    fn matches_at_exec(&self, i: usize, text: &str) -> (r: bool)
        requires
            self.wf(),
        ensures
            r == matches_at(self.text(), i as int, text@),
    {
        let n = text.unicode_len();
        let len = self.content.as_str().unicode_len();
        if n > len || i > len - n {
            assert(!matches_at(self.text(), i as int, text@));
            return false;
        }
        let mut k: usize = 0;
        while k < n
            invariant
                0 <= k <= n,
                n == text@.len(),
                len == self.text().len(),
                i + n <= len,
                self.wf(),
                forall|j: int| 0 <= j < k ==> self.text()[i + j] == text@[j],
            decreases n - k,
        {
            let a = self.content.as_str().get_char(i + k);
            let b = text.get_char(k);
            if a != b {
                assert(self.text().subrange(i as int, i + n) != text@) by {
                    assert(self.text().subrange(i as int, i + n)[k as int] != text@[k as int]);
                }
                return false;
            }
            k = k + 1;
        }
        proof {
            assert(self.text().subrange(i as int, i + n) =~= text@);
        }
        true
    }

    /// Consumes `count` bytes moving the start index forward. The count must
    /// end exactly on a character boundary within the remaining content.
    pub fn consume(&mut self, count: usize)
        requires
            old(self).wf(),
            exists|j: int|
                old(self).pos() <= j <= old(self).text().len() && bytes_len(
                    old(self).text().subrange(old(self).pos(), j),
                ) == count,
        ensures
            final(self).wf(),
            final(self).same_source(old(self)),
            old(self).pos() <= final(self).pos() <= final(self).text().len(),
            bytes_len(final(self).text().subrange(old(self).pos(), final(self).pos())) == count,
            final(self).cursor.offset == old(self).cursor.offset + count,
    {
        let ghost j = choose|j: int|
            old(self).pos() <= j <= old(self).text().len() && bytes_len(
                old(self).text().subrange(old(self).pos(), j),
            ) == count;
        proof {
            lemma_bytes_len_split(self.text(), self.pos(), j);
            lemma_bytes_len_take_mono(self.text(), j, self.text().len() as int);
            assert(self.text().take(self.text().len() as int) =~= self.text());
        }
        let target: usize = self.cursor.offset + count;
        while self.cursor.offset < target
            invariant
                self.wf(),
                self.same_source(old(self)),
                old(self).pos() <= self.pos() <= j <= self.text().len(),
                self.cursor.offset <= target,
                target == bytes_len(self.text().take(j)),
                target == old(self).cursor.offset + count,
            decreases j - self.pos(),
        {
            proof {
                lemma_bytes_len_take_mono(self.text(), self.pos(), j);
                assert(self.pos() < j);
                lemma_bytes_len_take_step(self.text(), self.pos());
                lemma_bytes_len_take_mono(self.text(), self.pos() + 1, j);
            }
            self.advance_one();
        }
        proof {
            lemma_bytes_len_take_mono(self.text(), self.pos(), j);
            lemma_bytes_len_take_mono(self.text(), j, self.pos());
            assert(self.pos() == j);
            lemma_bytes_len_split(self.text(), old(self).pos(), self.pos());
        }
    }
}

} // verus!
