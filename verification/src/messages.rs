//! The structured diagnostic record a rule hands to the context, and its
//! rendering: a one-line title, the source line(s) the offending span
//! covers, a caret under the column where the problem starts, and the
//! stable identifier code.

use vstd::prelude::*;

use crate::errors::{error_code, ParserError};
use crate::span::Span;
use crate::text::{line_start, next_newline};
use crate::warnings::{warning_code, ParserWarning};

verus! {

/// Which channel a message belongs to, with its stable identifier.
#[derive(Debug, Copy, Clone, Eq, PartialEq, Hash, Structural)]
pub enum ParserMessageId {
    Warning(ParserWarning),
    Error(ParserError),
}

/// The name of the message's identifier, the stable code for tooling.
pub open spec fn message_code(id: ParserMessageId) -> Seq<char> {
    match id {
        ParserMessageId::Warning(w) => warning_code(w),
        ParserMessageId::Error(e) => error_code(e),
    }
}

/// One recorded diagnostic: its identifier, a human title, and the span of
/// the offending source region.
#[derive(Debug, Clone)]
pub struct ParserMessage {
    pub id: ParserMessageId,
    pub title: String,
    pub span: Span,
}

/// A run of `n` spaces, the padding that puts the caret under its column.
pub open spec fn spaces(n: int) -> Seq<char> {
    Seq::new(n as nat, |i: int| ' ')
}

/// What `render` produces: the title line, the full source line(s) the
/// span's start and end lie on, a caret under the column where the span
/// starts, and the identifier code.
pub open spec fn spec_render(m: ParserMessage) -> Seq<char> {
    m.title@ + seq!['\n'] + m.span.content@.subrange(
        line_start(m.span.content@, m.span.start_cursor.char_offset as int),
        next_newline(m.span.content@, m.span.end_cursor.char_offset as int),
    ) + seq!['\n'] + spaces(m.span.start_cursor.column - 1) + seq!['^', '\n'] + message_code(m.id)
}

impl ParserMessage {
    /// The message's span is sound for its text.
    pub open spec fn wf(&self) -> bool {
        self.span.wf()
    }

    /// Builds a warning record.
    pub fn warning(warning_type: ParserWarning, title: String, span: Span) -> (r: ParserMessage)
        ensures
            r.id == ParserMessageId::Warning(warning_type),
            r.title == title,
            r.span == span,
    {
        ParserMessage { id: ParserMessageId::Warning(warning_type), title, span }
    }

    /// Builds an error record.
    pub fn error(error_type: ParserError, title: String, span: Span) -> (r: ParserMessage)
        ensures
            r.id == ParserMessageId::Error(error_type),
            r.title == title,
            r.span == span,
    {
        ParserMessage { id: ParserMessageId::Error(error_type), title, span }
    }

    /// The stable identifier code of this message.
    pub fn code(&self) -> (r: &'static str)
        ensures
            r@ == message_code(self.id),
    {
        match &self.id {
            ParserMessageId::Warning(w) => w.code(),
            ParserMessageId::Error(e) => e.code(),
        }
    }

    /// Renders the diagnostic as text: title, the source line(s) the span
    /// covers, a caret under the span's starting column, and the code.
    pub fn render(&self) -> (r: String)
        requires
            self.wf(),
        ensures
            r@ == spec_render(*self),
    {
        proof {
            reveal_strlit("\n");
            reveal_strlit("^");
            reveal_strlit(" ");
            assert("\n"@ =~= seq!['\n']);
            assert("^"@ =~= seq!['^']);
            assert(" "@ =~= seq![' ']);
        }
        let mut out = self.title.clone();
        out.append("\n");
        out.append(self.span.lines());
        out.append("\n");
        let ghost base = out@;
        proof {
            crate::text::lemma_line_start_bounds(
                self.span.content@,
                self.span.start_cursor.char_offset as int,
            );
        }
        let n = self.span.start_cursor.column - 1;
        let mut i: usize = 0;
        while i < n
            invariant
                0 <= i <= n,
                out@ == base + spaces(i as int),
                " "@ =~= seq![' '],
            decreases n - i,
        {
            out.append(" ");
            proof {
                assert(base + spaces(i as int) + seq![' '] =~= base + spaces(i + 1));
            }
            i = i + 1;
        }
        out.append("^");
        out.append("\n");
        let code = self.code();
        let result = out.concat(code);
        proof {
            assert(spaces(0) =~= Seq::<char>::empty());
            assert(base + spaces(0) =~= base);
            assert(result@ =~= spec_render(*self));
        }
        result
    }
}

} // verus!
