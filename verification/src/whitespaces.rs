//! Whitespace composites of the Mosfet language: maximal runs of raw
//! whitespace interleaved with comments. The inline variant never crosses a
//! line break by itself; the multiline variant also consumes line-breaking
//! whitespace and inline comments. A composite is multiline when it holds a
//! line-breaking character or a comment that itself spans multiple lines.

use std::sync::Arc;

use vstd::prelude::*;

use crate::comments::{
    close_token_at, immediately_closes, inline_comment_opens, multiline_open_end,
    multiline_opens, repeat_count, Comment,
};
use crate::context::ParserContext;
use crate::cursor::Cursor;
use crate::errors::ParserError;
use crate::node::ParserNode;
use crate::reader::Reader;
use crate::result::{
    cursor_manager, messages_unchanged, one_error_reported, ParserResult, ParserResultError,
};
use crate::span::Span;
use crate::text::{class_run_end, in_ranges, newline_count, next_newline, ranges_sorted, CharRange};

verus! {

/// The non-line-breaking whitespace characters, following the Unicode
/// character database's White_Space property.
pub open spec fn whitespace_ranges() -> Seq<CharRange> {
    seq![
        CharRange { start: '\u{9}', end: '\u{9}' },
        CharRange { start: '\u{20}', end: '\u{20}' },
        CharRange { start: '\u{A0}', end: '\u{A0}' },
        CharRange { start: '\u{1680}', end: '\u{1680}' },
        CharRange { start: '\u{2000}', end: '\u{200A}' },
        CharRange { start: '\u{202F}', end: '\u{202F}' },
        CharRange { start: '\u{205F}', end: '\u{205F}' },
        CharRange { start: '\u{3000}', end: '\u{3000}' },
    ]
}

/// The line-breaking whitespace characters, following the Unicode character
/// database's White_Space property.
pub open spec fn multiline_whitespace_ranges() -> Seq<CharRange> {
    seq![
        CharRange { start: '\u{A}', end: '\u{D}' },
        CharRange { start: '\u{85}', end: '\u{85}' },
        CharRange { start: '\u{2028}', end: '\u{2029}' },
    ]
}

/// The non-line-breaking whitespace class as a table for the reader.
pub fn whitespace_chars() -> (r: Vec<CharRange>)
    ensures
        r@ == whitespace_ranges(),
        ranges_sorted(r@),
{
    let mut v: Vec<CharRange> = Vec::new();
    v.push(CharRange { start: '\u{9}', end: '\u{9}' });
    v.push(CharRange { start: '\u{20}', end: '\u{20}' });
    v.push(CharRange { start: '\u{A0}', end: '\u{A0}' });
    v.push(CharRange { start: '\u{1680}', end: '\u{1680}' });
    v.push(CharRange { start: '\u{2000}', end: '\u{200A}' });
    v.push(CharRange { start: '\u{202F}', end: '\u{202F}' });
    v.push(CharRange { start: '\u{205F}', end: '\u{205F}' });
    v.push(CharRange { start: '\u{3000}', end: '\u{3000}' });
    proof {
        assert(v@ =~= whitespace_ranges());
    }
    v
}

/// The line-breaking whitespace class as a table for the reader.
pub fn multiline_whitespace_chars() -> (r: Vec<CharRange>)
    ensures
        r@ == multiline_whitespace_ranges(),
        ranges_sorted(r@),
{
    let mut v: Vec<CharRange> = Vec::new();
    v.push(CharRange { start: '\u{A}', end: '\u{D}' });
    v.push(CharRange { start: '\u{85}', end: '\u{85}' });
    v.push(CharRange { start: '\u{2028}', end: '\u{2029}' });
    proof {
        assert(v@ =~= multiline_whitespace_ranges());
    }
    v
}

/// No character is both non-line-breaking and line-breaking whitespace.
pub proof fn lemma_whitespace_classes_disjoint(c: char)
    ensures
        in_ranges(whitespace_ranges(), c) ==> !in_ranges(multiline_whitespace_ranges(), c),
{
    if in_ranges(whitespace_ranges(), c) && in_ranges(multiline_whitespace_ranges(), c) {
        let i = choose|i: int|
            0 <= i < whitespace_ranges().len() && crate::text::in_range(whitespace_ranges()[i], c);
        let j = choose|j: int|
            0 <= j < multiline_whitespace_ranges().len() && crate::text::in_range(
                multiline_whitespace_ranges()[j],
                c,
            );
        assert(false);
    }
}

/// The class of every whitespace character, line-breaking or not.
pub open spec fn all_whitespace_ranges() -> Seq<CharRange> {
    whitespace_ranges() + multiline_whitespace_ranges()
}

/// Membership in a concatenation of classes is membership in either part.
pub proof fn lemma_in_ranges_concat(a: Seq<CharRange>, b: Seq<CharRange>, c: char)
    ensures
        in_ranges(a + b, c) == (in_ranges(a, c) || in_ranges(b, c)),
{
    if in_ranges(a, c) {
        let i = choose|i: int| 0 <= i < a.len() && crate::text::in_range(a[i], c);
        assert((a + b)[i] == a[i]);
    }
    if in_ranges(b, c) {
        let i = choose|i: int| 0 <= i < b.len() && crate::text::in_range(b[i], c);
        assert((a + b)[a.len() + i] == b[i]);
    }
    if in_ranges(a + b, c) {
        let i = choose|i: int| 0 <= i < (a + b).len() && crate::text::in_range((a + b)[i], c);
        if i < a.len() {
            assert((a + b)[i] == a[i]);
        } else {
            assert((a + b)[i] == b[i - a.len()]);
        }
    }
}

/// Where the inline whitespace composite starting at `pos` ends and
/// whether it crossed a line: a maximal interleaving of non-line-breaking
/// whitespace runs and multiline comments. `None` when an unterminated
/// multiline comment opens inside it.
pub open spec fn inline_ws_scan(s: Seq<char>, pos: int) -> Option<(int, bool)>
    decreases s.len() - pos,
        when 0 <= pos <= s.len()
    via inline_ws_scan_dec
{
    let w = class_run_end(s, pos, whitespace_ranges());
    if w > pos {
        inline_ws_scan(s, w)
    } else if multiline_opens(s, pos) {
        if immediately_closes(s, pos) {
            inline_ws_scan(s, multiline_open_end(s, pos) + 1)
        } else if close_token_at(s, pos) == -1 {
            None
        } else {
            let k = close_token_at(s, pos);
            let cml = newline_count(s.take(k)) != newline_count(
                s.take(multiline_open_end(s, pos)),
            );
            match inline_ws_scan(s, k + repeat_count(s, pos) + 1) {
                None => None,
                Some((e, ml)) => Some((e, cml || ml)),
            }
        }
    } else {
        Some((pos, false))
    }
}

#[via_fn]
proof fn inline_ws_scan_dec(s: Seq<char>, pos: int) {
    crate::text::lemma_class_run_end_bounds(s, pos, whitespace_ranges());
    if multiline_opens(s, pos) {
        crate::comments::lemma_multiline_comment_progress(s, pos);
        if !immediately_closes(s, pos) && close_token_at(s, pos) != -1 {
            crate::text::lemma_first_match_found(
                s,
                crate::comments::multiline_open_end(s, pos),
                crate::comments::close_token_seq(crate::comments::repeat_count(s, pos)),
            );
        }
    }
}

/// Where the multiline whitespace composite starting at `pos` ends and
/// whether it crossed a line: a maximal interleaving of whitespace runs
/// (line-breaking ones included) with inline and multiline comments.
/// `None` when an unterminated multiline comment opens inside it.
pub open spec fn multiline_ws_scan(s: Seq<char>, pos: int) -> Option<(int, bool)>
    decreases s.len() - pos,
        when 0 <= pos <= s.len()
    via multiline_ws_scan_dec
{
    let w = class_run_end(s, pos, all_whitespace_ranges());
    if w > pos {
        let rml = exists|i: int|
            pos <= i < w && in_ranges(multiline_whitespace_ranges(), #[trigger] s[i]);
        match multiline_ws_scan(s, w) {
            None => None,
            Some((e, ml)) => Some((e, rml || ml)),
        }
    } else if inline_comment_opens(s, pos) {
        multiline_ws_scan(s, next_newline(s, pos + 2))
    } else if multiline_opens(s, pos) {
        if immediately_closes(s, pos) {
            multiline_ws_scan(s, multiline_open_end(s, pos) + 1)
        } else if close_token_at(s, pos) == -1 {
            None
        } else {
            let k = close_token_at(s, pos);
            let cml = newline_count(s.take(k)) != newline_count(
                s.take(multiline_open_end(s, pos)),
            );
            match multiline_ws_scan(s, k + repeat_count(s, pos) + 1) {
                None => None,
                Some((e, ml)) => Some((e, cml || ml)),
            }
        }
    } else {
        Some((pos, false))
    }
}

#[via_fn]
proof fn multiline_ws_scan_dec(s: Seq<char>, pos: int) {
    crate::text::lemma_class_run_end_bounds(s, pos, all_whitespace_ranges());
    if inline_comment_opens(s, pos) {
        crate::text::lemma_next_newline_bounds(s, pos + 2);
    }
    if multiline_opens(s, pos) {
        crate::comments::lemma_multiline_comment_progress(s, pos);
        if !immediately_closes(s, pos) && close_token_at(s, pos) != -1 {
            crate::text::lemma_first_match_found(
                s,
                crate::comments::multiline_open_end(s, pos),
                crate::comments::close_token_seq(crate::comments::repeat_count(s, pos)),
            );
        }
    }
}

/// A whitespace scan only moves forward and stays within the text.
pub proof fn lemma_multiline_ws_scan_bounds(s: Seq<char>, pos: int)
    requires
        0 <= pos <= s.len(),
    ensures
        multiline_ws_scan(s, pos) matches Some(step) ==> pos <= step.0 <= s.len(),
    decreases s.len() - pos,
{
    let w = class_run_end(s, pos, all_whitespace_ranges());
    crate::text::lemma_class_run_end_bounds(s, pos, all_whitespace_ranges());
    if w > pos {
        lemma_multiline_ws_scan_bounds(s, w);
    } else if inline_comment_opens(s, pos) {
        crate::text::lemma_next_newline_bounds(s, pos + 2);
        lemma_multiline_ws_scan_bounds(s, next_newline(s, pos + 2));
    } else if multiline_opens(s, pos) {
        crate::comments::lemma_multiline_comment_progress(s, pos);
        if immediately_closes(s, pos) {
            lemma_multiline_ws_scan_bounds(s, multiline_open_end(s, pos) + 1);
        } else if close_token_at(s, pos) != -1 {
            crate::text::lemma_first_match_found(
                s,
                multiline_open_end(s, pos),
                crate::comments::close_token_seq(repeat_count(s, pos)),
            );
            lemma_multiline_ws_scan_bounds(s, close_token_at(s, pos) + repeat_count(s, pos) + 1);
        }
    }
}

/// Scanning again from a whitespace scan's end consumes nothing more.
pub proof fn lemma_multiline_ws_scan_idempotent(s: Seq<char>, pos: int)
    requires
        0 <= pos <= s.len(),
    ensures
        multiline_ws_scan(s, pos) matches Some(step) ==> multiline_ws_scan(s, step.0) == Some(
            (step.0, false),
        ),
    decreases s.len() - pos,
{
    let w = class_run_end(s, pos, all_whitespace_ranges());
    crate::text::lemma_class_run_end_bounds(s, pos, all_whitespace_ranges());
    if w > pos {
        lemma_multiline_ws_scan_idempotent(s, w);
    } else if inline_comment_opens(s, pos) {
        crate::text::lemma_next_newline_bounds(s, pos + 2);
        lemma_multiline_ws_scan_idempotent(s, next_newline(s, pos + 2));
    } else if multiline_opens(s, pos) {
        crate::comments::lemma_multiline_comment_progress(s, pos);
        if immediately_closes(s, pos) {
            lemma_multiline_ws_scan_idempotent(s, multiline_open_end(s, pos) + 1);
        } else if close_token_at(s, pos) != -1 {
            crate::text::lemma_first_match_found(
                s,
                multiline_open_end(s, pos),
                crate::comments::close_token_seq(repeat_count(s, pos)),
            );
            lemma_multiline_ws_scan_idempotent(
                s,
                close_token_at(s, pos) + repeat_count(s, pos) + 1,
            );
        }
    }
}

/// Glues one rule step onto a whole scan: the scan seen from the entry
/// position agrees with the scan from the step's end, with the line-break
/// flag observed so far folded in.
pub open spec fn scan_continues(
    full: Option<(int, bool)>,
    seen_multiline: bool,
    rest: Option<(int, bool)>,
) -> bool {
    match rest {
        None => full is None,
        Some((e, ml)) => full == Some((e, seen_multiline || ml)),
    }
}

/// An element of the whitespace.
#[derive(Debug)]
pub enum WhitespaceElement {
    Whitespace(Arc<Span>),
    Comment(Arc<Comment>),
}

/// The span an element covers.
pub open spec fn element_span(e: WhitespaceElement) -> Span {
    match e {
        WhitespaceElement::Whitespace(s) => *s,
        WhitespaceElement::Comment(c) => *c.span,
    }
}

/// The element's own well-formedness: its span is sound and nonempty, as
/// every whitespace run and comment covers at least one character.
pub open spec fn element_wf(e: WhitespaceElement) -> bool {
    match e {
        WhitespaceElement::Whitespace(s) => s.wf() && s.start_cursor.char_offset
            < s.end_cursor.char_offset,
        WhitespaceElement::Comment(c) => c.wf() && c.span.start_cursor.char_offset
            < c.span.end_cursor.char_offset,
    }
}

/// Whether the element makes its composite multiline: a whitespace run
/// holding a line-breaking character, or a comment whose message spans
/// several lines.
pub open spec fn span_has_line_break(s: Span) -> bool {
    exists|i: int|
        s.start_cursor.char_offset <= i < s.end_cursor.char_offset && in_ranges(
            multiline_whitespace_ranges(),
            #[trigger] s.content@[i],
        )
}

pub open spec fn element_is_multiline(e: WhitespaceElement) -> bool {
    match e {
        WhitespaceElement::Whitespace(s) => span_has_line_break(*s),
        WhitespaceElement::Comment(c) => c.message.start_cursor.line
            != c.message.end_cursor.line,
    }
}

/// A whitespace composite in the Mosfet language.
#[derive(Debug)]
pub struct Whitespace {
    pub span: Arc<Span>,
    pub is_multiline: bool,
    pub elements: Vec<WhitespaceElement>,
}

impl Whitespace {
    /// The elements tile the composite's span exactly: the first starts
    /// where the span starts, each element starts where its predecessor
    /// ended, and the last ends where the span ends.
    pub open spec fn wf(&self) -> bool {
        &&& self.span.wf()
        &&& forall|i: int|
            0 <= i < self.elements@.len() ==> element_wf(#[trigger] self.elements@[i])
                && element_span(self.elements@[i]).content@ == self.span.content@
        &&& (self.elements@.len() == 0 ==> self.span.start_cursor == self.span.end_cursor)
        &&& (self.elements@.len() > 0 ==> element_span(self.elements@[0]).start_cursor
            == self.span.start_cursor && element_span(self.elements@.last()).end_cursor
            == self.span.end_cursor)
        &&& forall|i: int|
            0 <= i < self.elements@.len() - 1 ==> element_span(
                #[trigger] self.elements@[i + 1],
            ).start_cursor == element_span(self.elements@[i]).end_cursor
        &&& self.is_multiline == exists|i: int|
            0 <= i < self.elements@.len() && element_is_multiline(#[trigger] self.elements@[i])
    }

    // GETTERS ----------------------------------------------------------------
    /// Whether the node contains a line break or a multiline comment.
    pub fn is_multiline(&self) -> (r: bool)
        ensures
            r == self.is_multiline,
    {
        self.is_multiline
    }

    /// The elements of the whitespace, in source order.
    pub fn elements(&self) -> (r: &Vec<WhitespaceElement>)
        ensures
            r == &self.elements,
    {
        &self.elements
    }
}

/// A line-breaking character inside a whitespace run's span makes the run
/// element multiline.
proof fn lemma_ws_element_multiline(span: Arc<Span>, w: int)
    requires
        span.start_cursor.char_offset <= w < span.end_cursor.char_offset,
        in_ranges(multiline_whitespace_ranges(), span.content@[w]),
    ensures
        element_is_multiline(WhitespaceElement::Whitespace(span)),
{
    assert(exists|i: int|
        span.start_cursor.char_offset <= i < span.end_cursor.char_offset && in_ranges(
            multiline_whitespace_ranges(),
            #[trigger] span.content@[i],
        )) by {
        assert(span.start_cursor.char_offset <= w < span.end_cursor.char_offset && in_ranges(
            multiline_whitespace_ranges(),
            span.content@[w],
        ));
    }
}

/// The concatenation of the element texts, in order.
pub open spec fn elements_text(elems: Seq<WhitespaceElement>) -> Seq<char>
    decreases elems.len(),
{
    if elems.len() == 0 {
        Seq::<char>::empty()
    } else {
        elements_text(elems.drop_last()) + element_span(elems.last()).text()
    }
}

/// Elements whose spans sit side by side concatenate to the one source
/// slice they jointly cover.
proof fn lemma_elements_concat(elems: Seq<WhitespaceElement>, content: Seq<char>)
    requires
        elems.len() > 0,
        forall|i: int|
            0 <= i < elems.len() ==> element_wf(#[trigger] elems[i]) && element_span(
                elems[i],
            ).content@ == content,
        forall|i: int|
            0 <= i < elems.len() - 1 ==> element_span(#[trigger] elems[i + 1]).start_cursor
                == element_span(elems[i]).end_cursor,
    ensures
        element_span(elems[0]).start_cursor.char_offset <= element_span(
            elems.last(),
        ).end_cursor.char_offset,
        elements_text(elems) == content.subrange(
            element_span(elems[0]).start_cursor.char_offset as int,
            element_span(elems.last()).end_cursor.char_offset as int,
        ),
    decreases elems.len(),
{
    let a = element_span(elems[0]).start_cursor.char_offset as int;
    let c = element_span(elems.last()).end_cursor.char_offset as int;
    if elems.len() == 1 {
        assert(elems.last() == elems[0]);
        assert(element_wf(elems[0]));
        assert(elems.drop_last().len() == 0);
        assert(elements_text(elems.drop_last()) =~= Seq::<char>::empty());
        assert(elements_text(elems) =~= element_span(elems[0]).text());
    } else {
        let prefix = elems.drop_last();
        assert(prefix[0] == elems[0]);
        assert(prefix.last() == elems[elems.len() - 2]);
        assert(forall|i: int|
            0 <= i < prefix.len() ==> prefix[i] == #[trigger] elems[i]);
        lemma_elements_concat(prefix, content);
        let b = element_span(prefix.last()).end_cursor.char_offset as int;
        assert(element_span(elems[elems.len() - 2 + 1]).start_cursor == element_span(
            elems[elems.len() - 2],
        ).end_cursor);
        assert(elems[elems.len() - 2 + 1] == elems.last());
        assert(b <= c) by {
            assert(element_wf(elems.last()));
        }
        assert(content.subrange(a, b) + content.subrange(b, c) =~= content.subrange(a, c));
    }
}

/// The elements of a well-formed whitespace composite reconstruct its
/// exact source slice: concatenating their texts, in order, yields the
/// composite span's text. Together with each rule's span contract this is
/// the round-trip property of the consumed input.
pub proof fn lemma_whitespace_round_trip(w: Whitespace)
    requires
        w.wf(),
    ensures
        elements_text(w.elements@) == w.span.text(),
{
    if w.elements@.len() == 0 {
        assert(elements_text(w.elements@) =~= w.span.text());
    } else {
        lemma_elements_concat(w.elements@, w.span.content@);
    }
}

/// Appending an element to a composite keeps the multiline flag exact.
proof fn lemma_multiline_push(elems: Seq<WhitespaceElement>, e: WhitespaceElement, b: bool)
    requires
        b == exists|i: int| 0 <= i < elems.len() && element_is_multiline(#[trigger] elems[i]),
    ensures
        (b || element_is_multiline(e)) == exists|i: int|
            0 <= i < elems.push(e).len() && element_is_multiline(#[trigger] elems.push(e)[i]),
{
    let pushed = elems.push(e);
    if b {
        let w = choose|i: int| 0 <= i < elems.len() && element_is_multiline(#[trigger] elems[i]);
        assert(pushed[w] == elems[w]);
    }
    if element_is_multiline(e) {
        assert(pushed[elems.len() as int] == e);
    }
    if exists|i: int| 0 <= i < pushed.len() && element_is_multiline(#[trigger] pushed[i]) {
        let w = choose|i: int| 0 <= i < pushed.len() && element_is_multiline(#[trigger] pushed[i]);
        if w < elems.len() {
            assert(pushed[w] == elems[w]);
        } else {
            assert(pushed[w] == e);
        }
    }
}

impl Whitespace {
    /// Parses an inline `Whitespace`: the maximal interleaving of
    /// non-line-breaking whitespace runs and multiline comments. `NotFound`
    /// exactly when neither starts here; a hard error only for an
    /// unterminated multiline comment.
    pub fn parse_inline(reader: &mut Reader, context: &mut ParserContext) -> (r: ParserResult<
        Whitespace,
    >)
        requires
            old(reader).wf(),
            old(context).wf(),
        ensures
            final(reader).wf(),
            final(reader).same_source(old(reader)),
            old(reader).pos() <= final(reader).pos(),
            final(context).wf(),
            ({
                let s = old(reader).text();
                let p = old(reader).pos();
                &&& (r == ParserResult::<Whitespace>::Err(ParserResultError::NotFound) <==> !(p
                    < s.len() && in_ranges(whitespace_ranges(), s[p])) && !multiline_opens(s, p))
                &&& r == ParserResult::<Whitespace>::Err(ParserResultError::NotFound)
                    ==> final(reader).cursor == old(reader).cursor && messages_unchanged(
                    *old(context),
                    *final(context),
                )
                &&& (r == ParserResult::<Whitespace>::Err(ParserResultError::Error)
                    <==> inline_ws_scan(s, p) is None)
                &&& r == ParserResult::<Whitespace>::Err(ParserResultError::Error)
                    ==> one_error_reported(
                    *old(context),
                    *final(context),
                    ParserError::MultilineCommentWithoutEndToken,
                ) && final(reader).pos() > p
                &&& r matches Ok(w) ==> {
                    &&& w.wf()
                    &&& w.span.content@ == s
                    &&& w.span.start_cursor == old(reader).cursor
                    &&& w.span.end_cursor == final(reader).cursor
                    &&& final(reader).pos() > p
                    &&& inline_ws_scan(s, p) == Some((final(reader).pos(), w.is_multiline))
                    &&& messages_unchanged(*old(context), *final(context))
                }
            }),
    {
        let init_cursor = reader.save();
        let result = Self::parse_inline_body(reader, context, init_cursor);
        cursor_manager(reader, init_cursor, result)
    }

    /// The body of [`Whitespace::parse_inline`], run under the cursor
    /// manager.
    #[verifier::rlimit(100)]
    #[verifier::spinoff_prover]
    fn parse_inline_body(reader: &mut Reader, context: &mut ParserContext, init_cursor: Cursor)
        -> (r: ParserResult<Whitespace>)
        requires
            old(reader).wf(),
            old(context).wf(),
            init_cursor == old(reader).cursor,
        ensures
            final(reader).wf(),
            final(reader).same_source(old(reader)),
            old(reader).pos() <= final(reader).pos(),
            final(context).wf(),
            ({
                let s = old(reader).text();
                let p = old(reader).pos();
                &&& (r == ParserResult::<Whitespace>::Err(ParserResultError::NotFound) <==> !(p
                    < s.len() && in_ranges(whitespace_ranges(), s[p])) && !multiline_opens(s, p))
                &&& r == ParserResult::<Whitespace>::Err(ParserResultError::NotFound)
                    ==> final(reader).cursor == old(reader).cursor && messages_unchanged(
                    *old(context),
                    *final(context),
                )
                &&& (r == ParserResult::<Whitespace>::Err(ParserResultError::Error)
                    <==> inline_ws_scan(s, p) is None)
                &&& r == ParserResult::<Whitespace>::Err(ParserResultError::Error)
                    ==> one_error_reported(
                    *old(context),
                    *final(context),
                    ParserError::MultilineCommentWithoutEndToken,
                ) && final(reader).pos() > p
                &&& r matches Ok(w) ==> {
                    &&& w.wf()
                    &&& w.span.content@ == s
                    &&& w.span.start_cursor == old(reader).cursor
                    &&& w.span.end_cursor == final(reader).cursor
                    &&& final(reader).pos() > p
                    &&& inline_ws_scan(s, p) == Some((final(reader).pos(), w.is_multiline))
                    &&& messages_unchanged(*old(context), *final(context))
                }
            }),
    {
        let ghost s = old(reader).text();
        let ghost p = old(reader).pos();
        let ws = whitespace_chars();
        let mut elements: Vec<WhitespaceElement> = Vec::new();
        let mut is_multiline = false;
        loop
            invariant
                reader.wf(),
                reader.same_source(old(reader)),
                messages_unchanged(*old(context), *context),
                old(context).wf(),
                context.wf(),
                init_cursor == old(reader).cursor,
                s == reader.text(),
                s == old(reader).text(),
                p == old(reader).pos(),
                p <= reader.pos(),
                ws@ == whitespace_ranges(),
                ranges_sorted(ws@),
                elements@.len() == 0 ==> reader.cursor == init_cursor,
                elements@.len() > 0 ==> reader.pos() > p,
                reader.pos() > p ==> (p < s.len() && in_ranges(whitespace_ranges(), s[p]))
                    || multiline_opens(s, p),
                forall|i: int|
                    0 <= i < elements@.len() ==> element_wf(#[trigger] elements@[i])
                        && element_span(elements@[i]).content@ == s,
                elements@.len() > 0 ==> element_span(elements@[0]).start_cursor == init_cursor
                    && element_span(elements@.last()).end_cursor == reader.cursor,
                forall|i: int|
                    0 <= i < elements@.len() - 1 ==> element_span(
                        #[trigger] elements@[i + 1],
                    ).start_cursor == element_span(elements@[i]).end_cursor,
                is_multiline == exists|i: int|
                    0 <= i < elements@.len() && element_is_multiline(#[trigger] elements@[i]),
                scan_continues(
                    inline_ws_scan(s, p),
                    is_multiline,
                    inline_ws_scan(s, reader.pos()),
                ),
            ensures
                !(reader.pos() < s.len() && in_ranges(whitespace_ranges(), s[reader.pos()])),
                !multiline_opens(s, reader.pos()),
                scan_continues(
                    inline_ws_scan(s, p),
                    is_multiline,
                    inline_ws_scan(s, reader.pos()),
                ),
            decreases s.len() - reader.pos(),
        {
            let pre_cursor = reader.save();
            let run = reader.read_one_or_more_of(ws.as_slice());
            if run.is_some() {
                let span = Arc::new(reader.substring_to_current(&pre_cursor));
                proof {
                    crate::text::lemma_class_run_end_bounds(
                        s,
                        pre_cursor.char_offset as int,
                        whitespace_ranges(),
                    );
                    assert forall|i: int|
                        pre_cursor.char_offset <= i < reader.pos() implies !in_ranges(
                        multiline_whitespace_ranges(),
                        s[i],
                    ) by {
                        lemma_whitespace_classes_disjoint(s[i]);
                    }
                    assert(!element_is_multiline(WhitespaceElement::Whitespace(span)));
                    lemma_multiline_push(
                        elements@,
                        WhitespaceElement::Whitespace(span),
                        is_multiline,
                    );
                    assert(inline_ws_scan(s, pre_cursor.char_offset as int) == inline_ws_scan(
                        s,
                        reader.pos(),
                    ));
                }
                let ghost old_elements = elements@;
                elements.push(WhitespaceElement::Whitespace(span));
                proof {
                    assert(elements@ == old_elements.push(WhitespaceElement::Whitespace(span)));
                    assert forall|i: int| 0 <= i < elements@.len() - 1 implies element_span(
                        #[trigger] elements@[i + 1],
                    ).start_cursor == element_span(elements@[i]).end_cursor by {
                        if i + 1 < old_elements.len() {
                            assert(elements@[i + 1] == old_elements[i + 1]);
                            assert(elements@[i] == old_elements[i]);
                        } else {
                            assert(elements@[i] == old_elements[i]);
                        }
                    }
                }
                continue;
            }
            let comment_result = Comment::parse_multiline(reader, context);
            match comment_result {
                Ok(comment) => {
                    proof {
                        crate::comments::lemma_multiline_comment_progress(
                            s,
                            pre_cursor.char_offset as int,
                        );
                    }
                    let ml = comment.is_multiline();
                    let ghost gc = comment;
                    let ghost old_elements = elements@;
                    let ghost ml_before = is_multiline;
                    let element = WhitespaceElement::Comment(Arc::new(comment));
                    proof {
                        assert(element_is_multiline(element) == ml);
                        lemma_multiline_push(old_elements, element, is_multiline);
                        let cur = pre_cursor.char_offset as int;
                        assert(class_run_end(s, cur, whitespace_ranges()) == cur);
                        let rest = inline_ws_scan(s, reader.pos());
                        if immediately_closes(s, cur) {
                            assert(gc.message.start_cursor.line == gc.message.end_cursor.line);
                            assert(!ml);
                            assert(inline_ws_scan(s, cur) == rest);
                        } else {
                            let k = close_token_at(s, cur);
                            assert(ml == (newline_count(s.take(k)) != newline_count(
                                s.take(multiline_open_end(s, cur)),
                            )));
                            if rest is None {
                                assert(inline_ws_scan(s, cur) is None);
                            } else {
                                let (re, rm) = rest->0;
                                assert(inline_ws_scan(s, cur) == Some((re, ml || rm)));
                            }
                        }
                        if rest is Some {
                            let (re, rm) = rest->0;
                            assert(inline_ws_scan(s, p) == Some((re, ml_before || (ml || rm))));
                            assert((ml_before || (ml || rm)) == ((ml_before || ml) || rm));
                        }
                        assert(scan_continues(inline_ws_scan(s, p), ml_before || ml, rest));
                    }
                    is_multiline = is_multiline || ml;
                    elements.push(element);
                    proof {
                        assert(elements@ == old_elements.push(element));
                        assert forall|i: int| 0 <= i < elements@.len() - 1 implies element_span(
                            #[trigger] elements@[i + 1],
                        ).start_cursor == element_span(elements@[i]).end_cursor by {
                            if i + 1 < old_elements.len() {
                                assert(elements@[i + 1] == old_elements[i + 1]);
                                assert(elements@[i] == old_elements[i]);
                            } else {
                                assert(elements@[i] == old_elements[i]);
                            }
                        }
                    }
                    continue;
                },
                Err(ParserResultError::NotFound) => {},
                Err(ParserResultError::Error) => {
                    proof {
                        let cur = pre_cursor.char_offset as int;
                        assert(multiline_opens(s, cur));
                        assert((p < s.len() && in_ranges(whitespace_ranges(), s[p]))
                            || multiline_opens(s, p));
                        assert(class_run_end(s, cur, whitespace_ranges()) == cur);
                        assert(inline_ws_scan(s, cur) is None);
                        assert(inline_ws_scan(s, p) is None);
                    }
                    return Err(ParserResultError::Error);
                },
            }
            break;
        }
        proof {
            assert(class_run_end(s, reader.pos(), whitespace_ranges()) == reader.pos());
            assert(inline_ws_scan(s, reader.pos()) == Some((reader.pos(), false)));
            assert(inline_ws_scan(s, p) == Some((reader.pos(), is_multiline)));
            if elements@.len() == 0 {
                assert(reader.pos() == p);
                assert(!(p < s.len() && in_ranges(whitespace_ranges(), s[p])));
                assert(!multiline_opens(s, p));
            }
        }
        if elements.is_empty() {
            Err(ParserResultError::NotFound)
        } else {
            let span = Arc::new(reader.substring_to_current(&init_cursor));
            Ok(Whitespace { span, is_multiline, elements })
        }
    }
}

impl Whitespace {
    /// Parses a multiline `Whitespace`: the maximal interleaving of
    /// whitespace runs (line-breaking ones included) with inline and
    /// multiline comments. `NotFound` exactly when none of them starts
    /// here; a hard error only for an unterminated multiline comment.
    pub fn parse_multiline(reader: &mut Reader, context: &mut ParserContext) -> (r: ParserResult<
        Whitespace,
    >)
        requires
            old(reader).wf(),
            old(context).wf(),
        ensures
            final(reader).wf(),
            final(reader).same_source(old(reader)),
            old(reader).pos() <= final(reader).pos(),
            final(context).wf(),
            ({
                let s = old(reader).text();
                let p = old(reader).pos();
                &&& (r == ParserResult::<Whitespace>::Err(ParserResultError::NotFound) <==> !(p
                    < s.len() && (in_ranges(whitespace_ranges(), s[p]) || in_ranges(
                    multiline_whitespace_ranges(),
                    s[p],
                ))) && !inline_comment_opens(s, p) && !multiline_opens(s, p))
                &&& r == ParserResult::<Whitespace>::Err(ParserResultError::NotFound)
                    ==> final(reader).cursor == old(reader).cursor && messages_unchanged(
                    *old(context),
                    *final(context),
                )
                &&& (r == ParserResult::<Whitespace>::Err(ParserResultError::Error)
                    <==> multiline_ws_scan(s, p) is None)
                &&& r == ParserResult::<Whitespace>::Err(ParserResultError::Error)
                    ==> one_error_reported(
                    *old(context),
                    *final(context),
                    ParserError::MultilineCommentWithoutEndToken,
                ) && final(reader).pos() > p
                &&& r matches Ok(w) ==> {
                    &&& w.wf()
                    &&& w.span.content@ == s
                    &&& w.span.start_cursor == old(reader).cursor
                    &&& w.span.end_cursor == final(reader).cursor
                    &&& final(reader).pos() > p
                    &&& multiline_ws_scan(s, p) == Some((final(reader).pos(), w.is_multiline))
                    &&& messages_unchanged(*old(context), *final(context))
                }
            }),
    {
        let init_cursor = reader.save();
        let result = Self::parse_multiline_body(reader, context, init_cursor);
        cursor_manager(reader, init_cursor, result)
    }

    /// The body of [`Whitespace::parse_multiline`], run under the cursor
    /// manager.
    #[verifier::rlimit(100)]
    fn parse_multiline_body(reader: &mut Reader, context: &mut ParserContext, init_cursor: Cursor)
        -> (r: ParserResult<Whitespace>)
        requires
            old(reader).wf(),
            old(context).wf(),
            init_cursor == old(reader).cursor,
        ensures
            final(reader).wf(),
            final(reader).same_source(old(reader)),
            old(reader).pos() <= final(reader).pos(),
            final(context).wf(),
            ({
                let s = old(reader).text();
                let p = old(reader).pos();
                &&& (r == ParserResult::<Whitespace>::Err(ParserResultError::NotFound) <==> !(p
                    < s.len() && (in_ranges(whitespace_ranges(), s[p]) || in_ranges(
                    multiline_whitespace_ranges(),
                    s[p],
                ))) && !inline_comment_opens(s, p) && !multiline_opens(s, p))
                &&& r == ParserResult::<Whitespace>::Err(ParserResultError::NotFound)
                    ==> final(reader).cursor == old(reader).cursor && messages_unchanged(
                    *old(context),
                    *final(context),
                )
                &&& (r == ParserResult::<Whitespace>::Err(ParserResultError::Error)
                    <==> multiline_ws_scan(s, p) is None)
                &&& r == ParserResult::<Whitespace>::Err(ParserResultError::Error)
                    ==> one_error_reported(
                    *old(context),
                    *final(context),
                    ParserError::MultilineCommentWithoutEndToken,
                ) && final(reader).pos() > p
                &&& r matches Ok(w) ==> {
                    &&& w.wf()
                    &&& w.span.content@ == s
                    &&& w.span.start_cursor == old(reader).cursor
                    &&& w.span.end_cursor == final(reader).cursor
                    &&& final(reader).pos() > p
                    &&& multiline_ws_scan(s, p) == Some((final(reader).pos(), w.is_multiline))
                    &&& messages_unchanged(*old(context), *final(context))
                }
            }),
    {
        let ghost s = old(reader).text();
        let ghost p = old(reader).pos();
        let ws = whitespace_chars();
        let mlws = multiline_whitespace_chars();
        let mut elements: Vec<WhitespaceElement> = Vec::new();
        let mut is_multiline = false;
        loop
            invariant
                reader.wf(),
                reader.same_source(old(reader)),
                messages_unchanged(*old(context), *context),
                old(context).wf(),
                context.wf(),
                init_cursor == old(reader).cursor,
                s == reader.text(),
                s == old(reader).text(),
                p == old(reader).pos(),
                p <= reader.pos(),
                ws@ == whitespace_ranges(),
                ranges_sorted(ws@),
                mlws@ == multiline_whitespace_ranges(),
                ranges_sorted(mlws@),
                elements@.len() == 0 ==> reader.cursor == init_cursor,
                elements@.len() > 0 ==> reader.pos() > p,
                reader.pos() > p ==> (p < s.len() && (in_ranges(whitespace_ranges(), s[p])
                    || in_ranges(multiline_whitespace_ranges(), s[p]))) || inline_comment_opens(
                    s,
                    p,
                ) || multiline_opens(s, p),
                forall|i: int|
                    0 <= i < elements@.len() ==> element_wf(#[trigger] elements@[i])
                        && element_span(elements@[i]).content@ == s,
                elements@.len() > 0 ==> element_span(elements@[0]).start_cursor == init_cursor
                    && element_span(elements@.last()).end_cursor == reader.cursor,
                forall|i: int|
                    0 <= i < elements@.len() - 1 ==> element_span(
                        #[trigger] elements@[i + 1],
                    ).start_cursor == element_span(elements@[i]).end_cursor,
                is_multiline == exists|i: int|
                    0 <= i < elements@.len() && element_is_multiline(#[trigger] elements@[i]),
                scan_continues(
                    multiline_ws_scan(s, p),
                    is_multiline,
                    multiline_ws_scan(s, reader.pos()),
                ),
            ensures
                !(reader.pos() < s.len() && (in_ranges(whitespace_ranges(), s[reader.pos()])
                    || in_ranges(multiline_whitespace_ranges(), s[reader.pos()]))),
                !inline_comment_opens(s, reader.pos()),
                !multiline_opens(s, reader.pos()),
                scan_continues(
                    multiline_ws_scan(s, p),
                    is_multiline,
                    multiline_ws_scan(s, reader.pos()),
                ),
            decreases s.len() - reader.pos(),
        {
            let pre_cursor = reader.save();
            let mut saw_ml = false;
            loop
                invariant
                    reader.wf(),
                    reader.same_source(old(reader)),
                    s == reader.text(),
                    pre_cursor.wf(s),
                    pre_cursor.char_offset <= reader.pos(),
                    ws@ == whitespace_ranges(),
                    ranges_sorted(ws@),
                    mlws@ == multiline_whitespace_ranges(),
                    ranges_sorted(mlws@),
                    saw_ml == exists|i: int|
                        pre_cursor.char_offset <= i < reader.pos() && in_ranges(
                            multiline_whitespace_ranges(),
                            #[trigger] s[i],
                        ),
                    forall|i: int|
                        pre_cursor.char_offset <= i < reader.pos() ==> in_ranges(
                            whitespace_ranges(),
                            #[trigger] s[i],
                        ) || in_ranges(multiline_whitespace_ranges(), s[i]),
                    reader.pos() > pre_cursor.char_offset ==> in_ranges(
                        whitespace_ranges(),
                        s[pre_cursor.char_offset as int],
                    ) || in_ranges(multiline_whitespace_ranges(), s[pre_cursor.char_offset as int]),
                ensures
                    reader.wf(),
                    reader.same_source(old(reader)),
                    s == reader.text(),
                    pre_cursor.char_offset <= reader.pos(),
                    saw_ml == exists|i: int|
                        pre_cursor.char_offset <= i < reader.pos() && in_ranges(
                            multiline_whitespace_ranges(),
                            #[trigger] s[i],
                        ),
                    forall|i: int|
                        pre_cursor.char_offset <= i < reader.pos() ==> in_ranges(
                            whitespace_ranges(),
                            #[trigger] s[i],
                        ) || in_ranges(multiline_whitespace_ranges(), s[i]),
                    !(reader.pos() < s.len() && in_ranges(whitespace_ranges(), s[reader.pos()])),
                    !(reader.pos() < s.len() && in_ranges(
                        multiline_whitespace_ranges(),
                        s[reader.pos()],
                    )),
                    reader.pos() > pre_cursor.char_offset ==> in_ranges(
                        whitespace_ranges(),
                        s[pre_cursor.char_offset as int],
                    ) || in_ranges(multiline_whitespace_ranges(), s[pre_cursor.char_offset as int]),
                decreases s.len() - reader.pos(),
            {
                let ghost chunk_start = reader.pos();
                if reader.read_one_or_more_of(ws.as_slice()).is_some() {
                    proof {
                        crate::text::lemma_class_run_end_bounds(s, chunk_start, whitespace_ranges());
                        assert forall|i: int| chunk_start <= i < reader.pos() implies !in_ranges(
                            multiline_whitespace_ranges(),
                            #[trigger] s[i],
                        ) by {
                            lemma_whitespace_classes_disjoint(s[i]);
                        }
                        if saw_ml {
                            let w = choose|i: int|
                                pre_cursor.char_offset <= i < chunk_start && in_ranges(
                                    multiline_whitespace_ranges(),
                                    #[trigger] s[i],
                                );
                            assert(pre_cursor.char_offset <= w < reader.pos() && in_ranges(
                                multiline_whitespace_ranges(),
                                s[w],
                            ));
                        }
                    }
                    continue;
                }
                if reader.read_one_or_more_of(mlws.as_slice()).is_some() {
                    proof {
                        crate::text::lemma_class_run_end_bounds(
                            s,
                            chunk_start,
                            multiline_whitespace_ranges(),
                        );
                        assert(in_ranges(multiline_whitespace_ranges(), s[chunk_start]));
                    }
                    saw_ml = true;
                    continue;
                }
                break;
            }
            proof {
                let pre = pre_cursor.char_offset as int;
                let cur1 = reader.pos();
                assert forall|i: int| pre <= i < cur1 implies in_ranges(
                    all_whitespace_ranges(),
                    #[trigger] s[i],
                ) by {
                    lemma_in_ranges_concat(
                        whitespace_ranges(),
                        multiline_whitespace_ranges(),
                        s[i],
                    );
                }
                if cur1 < s.len() {
                    lemma_in_ranges_concat(
                        whitespace_ranges(),
                        multiline_whitespace_ranges(),
                        s[cur1],
                    );
                }
                crate::text::lemma_class_run_end_unique(s, pre, all_whitespace_ranges(), cur1);
                crate::text::lemma_class_run_end_unique(s, cur1, all_whitespace_ranges(), cur1);
                let rest = multiline_ws_scan(s, cur1);
                if cur1 > pre {
                    if rest is None {
                        assert(multiline_ws_scan(s, pre) is None);
                    } else {
                        let (re, rm) = rest->0;
                        assert(multiline_ws_scan(s, pre) == Some((re, saw_ml || rm)));
                        assert(multiline_ws_scan(s, p) == Some(
                            (re, is_multiline || (saw_ml || rm)),
                        ));
                        assert((is_multiline || (saw_ml || rm)) == ((is_multiline || saw_ml)
                            || rm));
                    }
                }
                assert(scan_continues(multiline_ws_scan(s, p), is_multiline || saw_ml, rest));
            }
            let any_whitespace = reader.char_offset() > pre_cursor.char_offset;
            if any_whitespace {
                let span = Arc::new(reader.substring_to_current(&pre_cursor));
                proof {
                    let e = WhitespaceElement::Whitespace(span);
                    if saw_ml {
                        let w = choose|i: int|
                            pre_cursor.char_offset <= i < reader.pos() && in_ranges(
                                multiline_whitespace_ranges(),
                                #[trigger] s[i],
                            );
                        assert(span.start_cursor == pre_cursor);
                        assert(span.end_cursor == reader.cursor);
                        assert(span.content@[w] == s[w]);
                        lemma_ws_element_multiline(span, w);
                        assert(element_is_multiline(e));
                    }
                    if element_is_multiline(e) {
                        let w = choose|i: int|
                            span.start_cursor.char_offset <= i < span.end_cursor.char_offset
                                && in_ranges(multiline_whitespace_ranges(), span.content@[i]);
                        assert(in_ranges(multiline_whitespace_ranges(), s[w]));
                    }
                    assert(element_is_multiline(e) == saw_ml);
                    lemma_multiline_push(elements@, e, is_multiline);
                }
                let ghost old_elements = elements@;
                is_multiline = is_multiline || saw_ml;
                elements.push(WhitespaceElement::Whitespace(span));
                proof {
                    assert(elements@ == old_elements.push(WhitespaceElement::Whitespace(span)));
                    assert forall|i: int| 0 <= i < elements@.len() - 1 implies element_span(
                        #[trigger] elements@[i + 1],
                    ).start_cursor == element_span(elements@[i]).end_cursor by {
                        if i + 1 < old_elements.len() {
                            assert(elements@[i + 1] == old_elements[i + 1]);
                            assert(elements@[i] == old_elements[i]);
                        } else {
                            assert(elements@[i] == old_elements[i]);
                        }
                    }
                }
            }
            let ghost pre_comment = reader.cursor;
            let inline_result = Comment::parse_inline(reader, context);
            match inline_result {
                Ok(comment) => {
                    proof {
                        crate::text::lemma_next_newline_bounds(s, pre_comment.char_offset + 2);
                        crate::text::lemma_newline_count_stable(
                            s,
                            pre_comment.char_offset + 2,
                            crate::text::next_newline(s, pre_comment.char_offset + 2),
                        );
                        let cur1 = pre_comment.char_offset as int;
                        assert(multiline_ws_scan(s, cur1) == multiline_ws_scan(s, reader.pos()));
                        assert(scan_continues(
                            multiline_ws_scan(s, p),
                            is_multiline,
                            multiline_ws_scan(s, reader.pos()),
                        ));
                    }
                    let ghost old_elements = elements@;
                    let element = WhitespaceElement::Comment(Arc::new(comment));
                    proof {
                        assert(!element_is_multiline(element));
                        lemma_multiline_push(old_elements, element, is_multiline);
                    }
                    elements.push(element);
                    proof {
                        assert(elements@ == old_elements.push(element));
                        assert forall|i: int| 0 <= i < elements@.len() - 1 implies element_span(
                            #[trigger] elements@[i + 1],
                        ).start_cursor == element_span(elements@[i]).end_cursor by {
                            if i + 1 < old_elements.len() {
                                assert(elements@[i + 1] == old_elements[i + 1]);
                                assert(elements@[i] == old_elements[i]);
                            } else {
                                assert(elements@[i] == old_elements[i]);
                            }
                        }
                    }
                    continue;
                },
                Err(_) => {},
            }
            let comment_result = Comment::parse_multiline(reader, context);
            match comment_result {
                Ok(comment) => {
                    proof {
                        crate::comments::lemma_multiline_comment_progress(
                            s,
                            pre_comment.char_offset as int,
                        );
                    }
                    let ml = comment.is_multiline();
                    let ghost gc = comment;
                    let ghost old_elements = elements@;
                    let ghost ml_before = is_multiline;
                    let element = WhitespaceElement::Comment(Arc::new(comment));
                    proof {
                        assert(element_is_multiline(element) == ml);
                        lemma_multiline_push(old_elements, element, is_multiline);
                        let cur1 = pre_comment.char_offset as int;
                        let rest = multiline_ws_scan(s, reader.pos());
                        if immediately_closes(s, cur1) {
                            assert(gc.message.start_cursor.line == gc.message.end_cursor.line);
                            assert(!ml);
                            assert(multiline_ws_scan(s, cur1) == rest);
                        } else {
                            let k = close_token_at(s, cur1);
                            assert(ml == (newline_count(s.take(k)) != newline_count(
                                s.take(multiline_open_end(s, cur1)),
                            )));
                            if rest is None {
                                assert(multiline_ws_scan(s, cur1) is None);
                            } else {
                                let (re, rm) = rest->0;
                                assert(multiline_ws_scan(s, cur1) == Some((re, ml || rm)));
                            }
                        }
                        if rest is Some {
                            let (re, rm) = rest->0;
                            assert(multiline_ws_scan(s, p) == Some(
                                (re, ml_before || (ml || rm)),
                            ));
                            assert((ml_before || (ml || rm)) == ((ml_before || ml) || rm));
                        }
                        assert(scan_continues(multiline_ws_scan(s, p), ml_before || ml, rest));
                    }
                    is_multiline = is_multiline || ml;
                    elements.push(element);
                    proof {
                        assert(elements@ == old_elements.push(element));
                        assert forall|i: int| 0 <= i < elements@.len() - 1 implies element_span(
                            #[trigger] elements@[i + 1],
                        ).start_cursor == element_span(elements@[i]).end_cursor by {
                            if i + 1 < old_elements.len() {
                                assert(elements@[i + 1] == old_elements[i + 1]);
                                assert(elements@[i] == old_elements[i]);
                            } else {
                                assert(elements@[i] == old_elements[i]);
                            }
                        }
                    }
                    continue;
                },
                Err(ParserResultError::NotFound) => {},
                Err(ParserResultError::Error) => {
                    proof {
                        let cur1 = pre_comment.char_offset as int;
                        assert(multiline_opens(s, cur1));
                        assert(multiline_ws_scan(s, cur1) is None);
                        assert(multiline_ws_scan(s, p) is None);
                    }
                    return Err(ParserResultError::Error);
                },
            }
            break;
        }
        proof {
            assert(multiline_ws_scan(s, reader.pos()) == Some((reader.pos(), false)));
            assert(multiline_ws_scan(s, p) == Some((reader.pos(), is_multiline)));
            if elements@.len() == 0 {
                assert(reader.pos() == p);
            }
        }
        if elements.is_empty() {
            Err(ParserResultError::NotFound)
        } else {
            let span = Arc::new(reader.substring_to_current(&init_cursor));
            Ok(Whitespace { span, is_multiline, elements })
        }
    }

    /// Parses an inline `Whitespace` or returns an empty one at the current
    /// position. The recoverable `NotFound` is swallowed here; a hard error
    /// still propagates.
    pub fn parse_inline_or_default(reader: &mut Reader, context: &mut ParserContext) -> (r:
        ParserResult<Whitespace>)
        requires
            old(reader).wf(),
            old(context).wf(),
        ensures
            final(reader).wf(),
            final(reader).same_source(old(reader)),
            old(reader).pos() <= final(reader).pos(),
            final(context).wf(),
            r is Err ==> r->Err_0 == ParserResultError::Error && one_error_reported(
                *old(context),
                *final(context),
                ParserError::MultilineCommentWithoutEndToken,
            ) && final(reader).pos() > old(reader).pos(),
            (r is Err <==> inline_ws_scan(old(reader).text(), old(reader).pos()) is None),
            r matches Ok(w) ==> {
                &&& w.wf()
                &&& w.span.content@ == old(reader).text()
                &&& w.span.start_cursor == old(reader).cursor
                &&& w.span.end_cursor == final(reader).cursor
                &&& final(reader).pos() >= old(reader).pos()
                &&& inline_ws_scan(old(reader).text(), old(reader).pos()) == Some(
                    (final(reader).pos(), w.is_multiline),
                )
                &&& messages_unchanged(*old(context), *final(context))
            },
    {
        match Self::parse_inline(reader, context) {
            Ok(w) => Ok(w),
            Err(ParserResultError::NotFound) => {
                let here = reader.save();
                let span = Arc::new(reader.substring_to_current(&here));
                Ok(Whitespace { span, is_multiline: false, elements: Vec::new() })
            },
            Err(ParserResultError::Error) => Err(ParserResultError::Error),
        }
    }

    /// Parses a multiline `Whitespace` or returns an empty one at the
    /// current position. The recoverable `NotFound` is swallowed here; a
    /// hard error still propagates.
    pub fn parse_multiline_or_default(reader: &mut Reader, context: &mut ParserContext) -> (r:
        ParserResult<Whitespace>)
        requires
            old(reader).wf(),
            old(context).wf(),
        ensures
            final(reader).wf(),
            final(reader).same_source(old(reader)),
            old(reader).pos() <= final(reader).pos(),
            final(context).wf(),
            r is Err ==> r->Err_0 == ParserResultError::Error && one_error_reported(
                *old(context),
                *final(context),
                ParserError::MultilineCommentWithoutEndToken,
            ) && final(reader).pos() > old(reader).pos(),
            (r is Err <==> multiline_ws_scan(old(reader).text(), old(reader).pos()) is None),
            r matches Ok(w) ==> {
                &&& w.wf()
                &&& w.span.content@ == old(reader).text()
                &&& w.span.start_cursor == old(reader).cursor
                &&& w.span.end_cursor == final(reader).cursor
                &&& final(reader).pos() >= old(reader).pos()
                &&& multiline_ws_scan(old(reader).text(), old(reader).pos()) == Some(
                    (final(reader).pos(), w.is_multiline),
                )
                &&& messages_unchanged(*old(context), *final(context))
            },
    {
        match Self::parse_multiline(reader, context) {
            Ok(w) => Ok(w),
            Err(ParserResultError::NotFound) => {
                let here = reader.save();
                let span = Arc::new(reader.substring_to_current(&here));
                Ok(Whitespace { span, is_multiline: false, elements: Vec::new() })
            },
            Err(ParserResultError::Error) => Err(ParserResultError::Error),
        }
    }
}

impl ParserNode for Whitespace {
    open spec fn spec_span(&self) -> Span {
        *self.span
    }

    open spec fn node_wf(&self) -> bool {
        self.wf()
    }

    proof fn node_wf_implies_span_wf(&self) {
        assert(self.node_wf());
        assert(self.span.wf());
        assert(self.spec_span() == *self.span);
    }

    fn span(&self) -> (r: &Arc<Span>) {
        &self.span
    }
}

} // verus!
