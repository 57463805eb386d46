//! A valid name in the Mosfet language: a head character (letter or
//! underscore) followed by the maximal run of body characters (letters,
//! digits, underscore).

use std::sync::Arc;

use vstd::prelude::*;

use crate::context::ParserContext;
use crate::cursor::Cursor;
use crate::node::ParserNode;
use crate::reader::Reader;
use crate::result::{cursor_manager, ParserResult, ParserResultError};
use crate::span::Span;
use crate::text::{
    class_run_end, in_ranges, lemma_class_run_end_bounds, lemma_class_run_end_unique,
    ranges_sorted, CharRange,
};

verus! {

/// The character class that may open an identifier.
pub open spec fn head_ranges() -> Seq<CharRange> {
    seq![
        CharRange { start: 'A', end: 'Z' },
        CharRange { start: '_', end: '_' },
        CharRange { start: 'a', end: 'z' },
    ]
}

/// The character class of every identifier character after the first.
pub open spec fn body_ranges() -> Seq<CharRange> {
    seq![
        CharRange { start: '0', end: '9' },
        CharRange { start: 'A', end: 'Z' },
        CharRange { start: '_', end: '_' },
        CharRange { start: 'a', end: 'z' },
    ]
}

/// The head character class as a table for the reader.
pub fn head_chars() -> (r: Vec<CharRange>)
    ensures
        r@ == head_ranges(),
        ranges_sorted(r@),
{
    let mut v: Vec<CharRange> = Vec::new();
    v.push(CharRange { start: 'A', end: 'Z' });
    v.push(CharRange { start: '_', end: '_' });
    v.push(CharRange { start: 'a', end: 'z' });
    proof {
        assert(v@ =~= head_ranges());
    }
    v
}

/// The body character class as a table for the reader.
pub fn body_chars() -> (r: Vec<CharRange>)
    ensures
        r@ == body_ranges(),
        ranges_sorted(r@),
{
    let mut v: Vec<CharRange> = Vec::new();
    v.push(CharRange { start: '0', end: '9' });
    v.push(CharRange { start: 'A', end: 'Z' });
    v.push(CharRange { start: '_', end: '_' });
    v.push(CharRange { start: 'a', end: 'z' });
    proof {
        assert(v@ =~= body_ranges());
    }
    v
}

/// An identifier starts here: the position holds a head character.
pub open spec fn identifier_start(s: Seq<char>, pos: int) -> bool {
    pos < s.len() && in_ranges(head_ranges(), s[pos])
}

/// Where the identifier that starts at `pos` ends: after the head character,
/// the maximal run of body characters.
pub open spec fn identifier_end(s: Seq<char>, pos: int) -> int {
    class_run_end(s, pos + 1, body_ranges())
}

/// The identifier starting at `p` is exactly the keyword `kw`: keyword
/// recognition is identifier-boundary-aware, so a longer identifier that
/// merely begins with the keyword does not match.
pub open spec fn keyword_at(s: Seq<char>, p: int, kw: Seq<char>) -> bool {
    identifier_start(s, p) && s.subrange(p, identifier_end(s, p)) == kw
}

/// The range `[a, b)` of `s` has the shape of an identifier: nonempty, a
/// head character first, body characters after it.
pub open spec fn identifier_shape(s: Seq<char>, a: int, b: int) -> bool {
    &&& 0 <= a < b <= s.len()
    &&& in_ranges(head_ranges(), s[a])
    &&& forall|i: int| a < i < b ==> in_ranges(body_ranges(), s[i])
}

/// A valid name in the Mosfet language.
#[derive(Debug)]
pub struct Identifier {
    pub span: Arc<Span>,
}

impl Identifier {
    /// The node's span delimits an identifier-shaped range of its text.
    pub open spec fn wf(&self) -> bool {
        &&& self.span.wf()
        &&& identifier_shape(
            self.span.content@,
            self.span.start_cursor.char_offset as int,
            self.span.end_cursor.char_offset as int,
        )
    }

    // GETTERS ----------------------------------------------------------------
    /// The name itself, the exact text the identifier covers.
    pub fn content(&self) -> (r: &str)
        requires
            self.wf(),
        ensures
            r@ == self.span.text(),
    {
        self.span.content()
    }

    // STATIC METHODS ---------------------------------------------------------
    /// Parses an `Identifier`: `NotFound` exactly when no head character
    /// stands at the current position; on success the consumed range is the
    /// head character plus the maximal body run. Never a hard error, never
    /// a message.
    pub fn parse(reader: &mut Reader, _context: &mut ParserContext) -> (r: ParserResult<
        Identifier,
    >)
        requires
            old(reader).wf(),
        ensures
            final(reader).wf(),
            final(reader).same_source(old(reader)),
            old(reader).pos() <= final(reader).pos(),
            *final(_context) == *old(_context),
            r is Err <==> !identifier_start(old(reader).text(), old(reader).pos()),
            r is Err ==> r->Err_0 == ParserResultError::NotFound && final(reader).cursor == old(
                reader,
            ).cursor,
            r matches Ok(id) ==> {
                &&& id.wf()
                &&& id.span.content@ == old(reader).text()
                &&& id.span.start_cursor == old(reader).cursor
                &&& id.span.end_cursor == final(reader).cursor
                &&& final(reader).pos() == identifier_end(old(reader).text(), old(reader).pos())
                &&& final(reader).pos() > old(reader).pos()
            },
    {
        let init_cursor = reader.save();
        let result = Self::parse_body(reader, init_cursor);
        cursor_manager(reader, init_cursor, result)
    }

    /// The body of [`Identifier::parse`], run under the cursor manager.
    fn parse_body(reader: &mut Reader, init_cursor: Cursor) -> (r: ParserResult<Identifier>)
        requires
            old(reader).wf(),
            init_cursor == old(reader).cursor,
        ensures
            final(reader).wf(),
            final(reader).same_source(old(reader)),
            old(reader).pos() <= final(reader).pos(),
            r is Err <==> !identifier_start(old(reader).text(), old(reader).pos()),
            r is Err ==> r->Err_0 == ParserResultError::NotFound && final(reader).cursor == old(
                reader,
            ).cursor,
            r matches Ok(id) ==> {
                &&& id.wf()
                &&& id.span.content@ == old(reader).text()
                &&& id.span.start_cursor == old(reader).cursor
                &&& id.span.end_cursor == final(reader).cursor
                &&& final(reader).pos() == identifier_end(old(reader).text(), old(reader).pos())
                &&& final(reader).pos() > old(reader).pos()
            },
    {
        let head = head_chars();
        if reader.read_one_of(head.as_slice()).is_none() {
            return Err(ParserResultError::NotFound);
        }
        let body = body_chars();
        let _ = reader.read_one_or_more_of(body.as_slice());
        proof {
            lemma_class_run_end_bounds(reader.text(), old(reader).pos() + 1, body_ranges());
        }
        let span = Arc::new(reader.substring_to_current(&init_cursor));
        Ok(Identifier { span })
    }

    /// Parses a keyword: a full identifier is parsed and compared with the
    /// expected text, and the reader rolls back unless it matches exactly.
    /// `lettuce` is never accepted as the keyword `let`.
    pub fn parse_keyword(reader: &mut Reader, _context: &mut ParserContext, keyword: &str) -> (r:
        bool)
        requires
            old(reader).wf(),
        ensures
            final(reader).wf(),
            final(reader).same_source(old(reader)),
            old(reader).pos() <= final(reader).pos(),
            *final(_context) == *old(_context),
            r <==> identifier_start(old(reader).text(), old(reader).pos()) && old(
                reader,
            ).text().subrange(
                old(reader).pos(),
                identifier_end(old(reader).text(), old(reader).pos()),
            ) == keyword@,
            r ==> final(reader).pos() == identifier_end(old(reader).text(), old(reader).pos()),
            !r ==> final(reader).cursor == old(reader).cursor,
    {
        let init_cursor = reader.save();
        let id = match Identifier::parse(reader, _context) {
            Ok(v) => v,
            Err(_) => {
                return false;
            },
        };
        let matches_keyword = id.content().to_owned() == keyword.to_owned();
        if matches_keyword {
            true
        } else {
            reader.restore(init_cursor);
            false
        }
    }
}

impl ParserNode for Identifier {
    open spec fn spec_span(&self) -> Span {
        *self.span
    }

    open spec fn node_wf(&self) -> bool {
        self.wf()
    }

    proof fn node_wf_implies_span_wf(&self) {
        assert(self.node_wf());
        assert(self.span.wf());
        assert(self.spec_span() == *self.span);
    }

    fn span(&self) -> (r: &Arc<Span>) {
        &self.span
    }
}

/// Re-deriving an identifier from its own text: the substring an identifier
/// parse consumed is itself, parsed in isolation, an identifier covering the
/// whole substring.
pub proof fn lemma_identifier_rederivation(s: Seq<char>, pos: int)
    requires
        0 <= pos <= s.len(),
        identifier_start(s, pos),
    ensures
        ({
            let sub = s.subrange(pos, identifier_end(s, pos));
            &&& identifier_start(sub, 0)
            &&& identifier_end(sub, 0) == sub.len()
        }),
{
    lemma_class_run_end_bounds(s, pos + 1, body_ranges());
    let e = identifier_end(s, pos);
    let sub = s.subrange(pos, e);
    assert(sub[0] == s[pos]);
    assert(forall|i: int| 1 <= i < sub.len() ==> sub[i] == s[pos + i]);
    lemma_class_run_end_unique(sub, 1, body_ranges(), sub.len() as int);
}

} // verus!
