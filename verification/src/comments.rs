//! Comments of the Mosfet language. A single-line comment opens with `"# "`
//! and runs to the end of the line. A multiline comment opens with `#`
//! followed by a run of one or more `+` repeat markers and must close with
//! the matching marker run followed by `#`; an unterminated multiline
//! comment is a hard error, because its opening token was unambiguous.

use std::sync::Arc;

use vstd::prelude::*;

use crate::context::ParserContext;
use crate::cursor::Cursor;
use crate::errors::ParserError;
use crate::messages::ParserMessage;
use crate::node::ParserNode;
use crate::reader::Reader;
use crate::result::{
    cursor_manager, messages_unchanged, one_error_reported, ParserResult, ParserResultError,
};
use crate::span::Span;
use crate::text::{
    class_run_end, first_match, lemma_class_run_end_bounds, lemma_first_match_found,
    lemma_first_match_newline, matches_at, next_newline, ranges_sorted, CharRange,
};

verus! {

/// The character class holding only the repeat marker `+`.
pub open spec fn plus_ranges() -> Seq<CharRange> {
    seq![CharRange { start: '+', end: '+' }]
}

/// The repeat-marker class as a table for the reader.
fn plus_chars() -> (r: Vec<CharRange>)
    ensures
        r@ == plus_ranges(),
        ranges_sorted(r@),
{
    let mut v: Vec<CharRange> = Vec::new();
    v.push(CharRange { start: '+', end: '+' });
    proof {
        assert(v@ =~= plus_ranges());
    }
    v
}

/// A single-line comment opens here: the position holds `"# "`.
pub open spec fn inline_comment_opens(s: Seq<char>, p: int) -> bool {
    matches_at(s, p, seq!['#', ' '])
}

/// The end of the `+` run that follows the `#` of a multiline opening.
pub open spec fn multiline_open_end(s: Seq<char>, p: int) -> int {
    class_run_end(s, p + 1, plus_ranges())
}

/// A multiline comment opens here: a `#` followed by at least one `+`.
pub open spec fn multiline_opens(s: Seq<char>, p: int) -> bool {
    &&& 0 <= p < s.len()
    &&& s[p] == '#'
    &&& multiline_open_end(s, p) > p + 1
}

/// How many `+` markers the opening at `p` carries.
pub open spec fn repeat_count(s: Seq<char>, p: int) -> int {
    multiline_open_end(s, p) - (p + 1)
}

/// The closing token matching an opening of `n` markers: `n` times `+`,
/// then `#`.
pub open spec fn close_token_seq(n: int) -> Seq<char> {
    Seq::new((n + 1) as nat, |i: int| if i < n { '+' } else { '#' })
}

/// The opening at `p` is closed again immediately: `#`, the markers, `#`.
pub open spec fn immediately_closes(s: Seq<char>, p: int) -> bool {
    &&& multiline_opens(s, p)
    &&& multiline_open_end(s, p) < s.len()
    &&& s[multiline_open_end(s, p)] == '#'
}

/// Where the closing token of the opening at `p` first occurs, or `-1`.
pub open spec fn close_token_at(s: Seq<char>, p: int) -> int {
    first_match(s, multiline_open_end(s, p), close_token_seq(repeat_count(s, p)))
}

/// A successfully opened multiline comment reaches past its opening token,
/// and its closing token, if found, lies at or after the opening's end.
pub proof fn lemma_multiline_comment_progress(s: Seq<char>, p: int)
    requires
        0 <= p <= s.len(),
        multiline_opens(s, p),
    ensures
        p + 1 < multiline_open_end(s, p) <= s.len(),
        close_token_at(s, p) != -1 ==> close_token_at(s, p) >= multiline_open_end(s, p),
{
    lemma_class_run_end_bounds(s, p + 1, plus_ranges());
    if close_token_at(s, p) != -1 {
        lemma_first_match_found(s, multiline_open_end(s, p), close_token_seq(repeat_count(s, p)));
    }
}

/// A valid comment in the Mosfet language.
#[derive(Debug)]
pub struct Comment {
    pub span: Arc<Span>,
    pub is_multiline_type: bool,
    pub message: Arc<Span>,
    pub repeated_tokens: usize,
}

impl Comment {
    /// The message span lies within the comment's span, over the same text.
    pub open spec fn wf(&self) -> bool {
        &&& self.span.wf()
        &&& self.message.wf()
        &&& self.message.content@ == self.span.content@
        &&& self.span.start_cursor.char_offset <= self.message.start_cursor.char_offset
        &&& self.message.end_cursor.char_offset <= self.span.end_cursor.char_offset
    }

    // GETTERS ----------------------------------------------------------------
    /// Whether the comment type is multiline `#+...+#` or not `# ...`.
    pub fn is_multiline_type(&self) -> (r: bool)
        ensures
            r == self.is_multiline_type,
    {
        self.is_multiline_type
    }

    /// The message of the comment, without its delimiters.
    pub fn message(&self) -> (r: &Arc<Span>)
        ensures
            r == &self.message,
    {
        &self.message
    }

    /// How many `+` repeat markers the comment's delimiters carry.
    pub fn repeated_tokens(&self) -> (r: &usize)
        ensures
            r == &self.repeated_tokens,
    {
        &self.repeated_tokens
    }

    /// Whether the comment is a multiline comment that was closed
    /// immediately, with an empty message.
    pub fn immediately_closed(&self) -> (r: bool)
        requires
            self.wf(),
        ensures
            r == (self.is_multiline_type && self.message.text().len() == 0),
    {
        self.is_multiline_type && self.message.content().is_empty()
    }

    /// Whether the comment is placed in multiple lines, e.g. `#+...\n...+#`.
    pub fn is_multiline(&self) -> (r: bool)
        ensures
            r == (self.message.start_cursor.line != self.message.end_cursor.line),
    {
        self.message.start_cursor().line() != self.message.end_cursor().line()
    }

    // STATIC METHODS ---------------------------------------------------------
    /// Parses an inline `Comment`: `NotFound` exactly when the position does
    /// not hold `"# "`; on success the message runs to (and excludes) the
    /// next line break or the end of input. Never a hard error.
    pub fn parse_inline(reader: &mut Reader, _context: &mut ParserContext) -> (r: ParserResult<
        Comment,
    >)
        requires
            old(reader).wf(),
        ensures
            final(reader).wf(),
            final(reader).same_source(old(reader)),
            old(reader).pos() <= final(reader).pos(),
            *final(_context) == *old(_context),
            r is Err <==> !inline_comment_opens(old(reader).text(), old(reader).pos()),
            r is Err ==> r->Err_0 == ParserResultError::NotFound && final(reader).cursor == old(
                reader,
            ).cursor,
            r matches Ok(c) ==> {
                &&& c.wf()
                &&& !c.is_multiline_type
                &&& c.repeated_tokens == 0
                &&& c.span.content@ == old(reader).text()
                &&& c.span.start_cursor == old(reader).cursor
                &&& c.span.end_cursor == final(reader).cursor
                &&& c.message.start_cursor.char_offset == old(reader).pos() + 2
                &&& c.message.end_cursor == final(reader).cursor
                &&& final(reader).pos() == next_newline(old(reader).text(), old(reader).pos() + 2)
            },
    {
        let init_cursor = reader.save();
        let result = Self::parse_inline_body(reader, init_cursor);
        cursor_manager(reader, init_cursor, result)
    }

    /// The body of [`Comment::parse_inline`], run under the cursor manager.
    fn parse_inline_body(reader: &mut Reader, init_cursor: Cursor) -> (r: ParserResult<Comment>)
        requires
            old(reader).wf(),
            init_cursor == old(reader).cursor,
        ensures
            final(reader).wf(),
            final(reader).same_source(old(reader)),
            old(reader).pos() <= final(reader).pos(),
            r is Err <==> !inline_comment_opens(old(reader).text(), old(reader).pos()),
            r is Err ==> r->Err_0 == ParserResultError::NotFound && final(reader).cursor == old(
                reader,
            ).cursor,
            r matches Ok(c) ==> {
                &&& c.wf()
                &&& !c.is_multiline_type
                &&& c.repeated_tokens == 0
                &&& c.span.content@ == old(reader).text()
                &&& c.span.start_cursor == old(reader).cursor
                &&& c.span.end_cursor == final(reader).cursor
                &&& c.message.start_cursor.char_offset == old(reader).pos() + 2
                &&& c.message.end_cursor == final(reader).cursor
                &&& final(reader).pos() == next_newline(old(reader).text(), old(reader).pos() + 2)
            },
    {
        proof {
            reveal_strlit("# ");
            reveal_strlit("\n");
            assert("# "@ =~= seq!['#', ' ']);
            assert("\n"@ =~= seq!['\n']);
        }
        if !reader.read("# ") {
            return Err(ParserResultError::NotFound);
        }
        let init_message_cursor = reader.save();
        proof {
            lemma_first_match_newline(reader.text(), reader.pos());
            crate::text::lemma_next_newline_bounds(reader.text(), reader.pos());
        }
        let _ = reader.read_until("\n", true);
        Ok(
            Comment {
                span: Arc::new(reader.substring_to_current(&init_cursor)),
                is_multiline_type: false,
                message: Arc::new(reader.substring_to_current(&init_message_cursor)),
                repeated_tokens: 0,
            },
        )
    }

    /// Parses a multiline `Comment`: `NotFound` exactly when no `#` with at
    /// least one `+` marker stands here; a hard error exactly when the
    /// opening is never closed by its matching token; on success the
    /// message is the text between the delimiters, up to the first
    /// occurrence of the closing token.
    pub fn parse_multiline(reader: &mut Reader, context: &mut ParserContext) -> (r: ParserResult<
        Comment,
    >)
        requires
            old(reader).wf(),
            old(context).wf(),
        ensures
            final(reader).wf(),
            final(reader).same_source(old(reader)),
            old(reader).pos() <= final(reader).pos(),
            final(context).wf(),
            ({
                let s = old(reader).text();
                let p = old(reader).pos();
                &&& (r is Ok || r->Err_0 == ParserResultError::NotFound ==> messages_unchanged(
                    *old(context),
                    *final(context),
                ))
                &&& (r == ParserResult::<Comment>::Err(ParserResultError::NotFound) <==> !multiline_opens(
                    s,
                    p,
                ))
                &&& r->Err_0 == ParserResultError::NotFound && r is Err ==> final(reader).cursor
                    == old(reader).cursor
                &&& (r == ParserResult::<Comment>::Err(ParserResultError::Error) <==> multiline_opens(s, p)
                    && !immediately_closes(s, p) && close_token_at(s, p) == -1)
                &&& r == ParserResult::<Comment>::Err(ParserResultError::Error)
                    ==> one_error_reported(
                    *old(context),
                    *final(context),
                    ParserError::MultilineCommentWithoutEndToken,
                ) && final(reader).pos() == multiline_open_end(s, p) && final(reader).pos() > p
                &&& r matches Ok(c) ==> {
                    &&& c.wf()
                    &&& c.is_multiline_type
                    &&& c.repeated_tokens == repeat_count(s, p)
                    &&& c.span.content@ == s
                    &&& c.span.start_cursor == old(reader).cursor
                    &&& c.span.end_cursor == final(reader).cursor
                    &&& c.message.start_cursor.char_offset == multiline_open_end(s, p)
                    &&& (immediately_closes(s, p) ==> c.message.end_cursor.char_offset
                        == multiline_open_end(s, p) && final(reader).pos() == multiline_open_end(
                        s,
                        p,
                    ) + 1)
                    &&& (!immediately_closes(s, p) ==> c.message.end_cursor.char_offset
                        == close_token_at(s, p) && final(reader).pos() == close_token_at(s, p)
                        + repeat_count(s, p) + 1)
                }
            }),
    {
        let init_cursor = reader.save();
        let result = Self::parse_multiline_body(reader, context, init_cursor);
        cursor_manager(reader, init_cursor, result)
    }

    /// The body of [`Comment::parse_multiline`], run under the cursor
    /// manager.
    fn parse_multiline_body(reader: &mut Reader, context: &mut ParserContext, init_cursor: Cursor)
        -> (r: ParserResult<Comment>)
        requires
            old(reader).wf(),
            old(context).wf(),
            init_cursor == old(reader).cursor,
        ensures
            final(reader).wf(),
            final(reader).same_source(old(reader)),
            old(reader).pos() <= final(reader).pos(),
            final(context).wf(),
            ({
                let s = old(reader).text();
                let p = old(reader).pos();
                &&& (r is Ok || r->Err_0 == ParserResultError::NotFound ==> messages_unchanged(
                    *old(context),
                    *final(context),
                ))
                &&& (r == ParserResult::<Comment>::Err(ParserResultError::NotFound) <==> !multiline_opens(
                    s,
                    p,
                ))
                &&& (r == ParserResult::<Comment>::Err(ParserResultError::Error) <==> multiline_opens(s, p)
                    && !immediately_closes(s, p) && close_token_at(s, p) == -1)
                &&& r == ParserResult::<Comment>::Err(ParserResultError::Error)
                    ==> one_error_reported(
                    *old(context),
                    *final(context),
                    ParserError::MultilineCommentWithoutEndToken,
                ) && final(reader).pos() == multiline_open_end(s, p) && final(reader).pos() > p
                &&& r matches Ok(c) ==> {
                    &&& c.wf()
                    &&& c.is_multiline_type
                    &&& c.repeated_tokens == repeat_count(s, p)
                    &&& c.span.content@ == s
                    &&& c.span.start_cursor == old(reader).cursor
                    &&& c.span.end_cursor == final(reader).cursor
                    &&& c.message.start_cursor.char_offset == multiline_open_end(s, p)
                    &&& (immediately_closes(s, p) ==> c.message.end_cursor.char_offset
                        == multiline_open_end(s, p) && final(reader).pos() == multiline_open_end(
                        s,
                        p,
                    ) + 1)
                    &&& (!immediately_closes(s, p) ==> c.message.end_cursor.char_offset
                        == close_token_at(s, p) && final(reader).pos() == close_token_at(s, p)
                        + repeat_count(s, p) + 1)
                }
            }),
    {
        let ghost s = old(reader).text();
        let ghost p = old(reader).pos();
        proof {
            reveal_strlit("#");
            reveal_strlit("+");
            assert("#"@ =~= seq!['#']);
            assert("+"@ =~= seq!['+']);
        }
        if !reader.read("#") {
            proof {
                if p < s.len() && s[p] == '#' {
                    assert(s.subrange(p, p + 1) =~= seq!['#']);
                    assert(matches_at(s, p, seq!['#']));
                }
            }
            return Err(ParserResultError::NotFound);
        }
        let plus = plus_chars();
        let repeated = match reader.read_one_or_more_of(plus.as_slice()) {
            Some(t) => t.unicode_len(),
            None => {
                proof {
                    assert(s.subrange(p, p + 1) =~= seq![s[p]]);
                    lemma_class_run_end_bounds(s, p + 1, plus_ranges());
                }
                return Err(ParserResultError::NotFound);
            },
        };
        let ghost open_end = multiline_open_end(s, p);
        proof {
            assert(s.subrange(p, p + 1) =~= seq![s[p]]);
            assert(s.subrange(p, p + 1)[0] == s[p]);
            assert(s[p] == '#');
            lemma_class_run_end_bounds(s, p + 1, plus_ranges());
            assert(reader.pos() == open_end);
            assert(repeated == repeat_count(s, p));
            assert(multiline_opens(s, p));
        }
        // Build the closing token that matches this opening.
        let mut close_token = String::new();
        let mut i: usize = 0;
        while i < repeated
            invariant
                0 <= i <= repeated,
                close_token@ =~= Seq::new(i as nat, |k: int| '+'),
                "+"@ =~= seq!['+'],
            decreases repeated - i,
        {
            close_token.append("+");
            proof {
                assert(Seq::new((i + 1) as nat, |k: int| '+') =~= Seq::new(i as nat, |k: int| '+')
                    + seq!['+']);
            }
            i = i + 1;
        }
        close_token.append("#");
        proof {
            assert(close_token@ =~= close_token_seq(repeated as int));
        }
        let init_message_cursor = reader.save();
        // Case when the comment is opened and closed immediately, e.g. #+#.
        if reader.read("#") {
            proof {
                assert(s.subrange(open_end, open_end + 1) =~= seq![s[open_end]]);
            }
            return Ok(
                Comment {
                    span: Arc::new(reader.substring_to_current(&init_cursor)),
                    is_multiline_type: true,
                    message: Arc::new(
                        reader.substring(&init_message_cursor, &init_message_cursor),
                    ),
                    repeated_tokens: repeated,
                },
            );
        }
        proof {
            if open_end < s.len() && s[open_end] == '#' {
                assert(s.subrange(open_end, open_end + 1) =~= seq!['#']);
                assert(matches_at(s, open_end, seq!['#']));
            }
            assert(!immediately_closes(s, p));
        }
        if reader.read_until(close_token.as_str(), false).is_none() {
            let span = reader.substring_to_current(&init_cursor);
            let title = "The end token '".to_owned().concat(close_token.as_str()).concat(
                "' was expected here to close the multiline comment",
            );
            context.add_message(
                ParserMessage::error(ParserError::MultilineCommentWithoutEndToken, title, span),
            );
            proof {
                assert(context.messages@.last().wf());
                assert(context.messages@.subrange(0, old(context).messages@.len() as int) =~= old(
                    context,
                ).messages@);
            }
            return Err(ParserResultError::Error);
        }
        let ghost k = close_token_at(s, p);
        proof {
            lemma_first_match_found(s, open_end, close_token_seq(repeated as int));
            assert(reader.pos() == k);
        }
        let end_message_cursor = reader.save();
        let _ = reader.read(close_token.as_str());
        Ok(
            Comment {
                span: Arc::new(reader.substring_to_current(&init_cursor)),
                is_multiline_type: true,
                message: Arc::new(reader.substring(&init_message_cursor, &end_message_cursor)),
                repeated_tokens: repeated,
            },
        )
    }
}

impl ParserNode for Comment {
    open spec fn spec_span(&self) -> Span {
        *self.span
    }

    open spec fn node_wf(&self) -> bool {
        self.wf()
    }

    proof fn node_wf_implies_span_wf(&self) {
        assert(self.node_wf());
        assert(self.span.wf());
        assert(self.spec_span() == *self.span);
    }

    fn span(&self) -> (r: &Arc<Span>) {
        &self.span
    }
}

} // verus!
