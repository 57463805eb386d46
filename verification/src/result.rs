//! The two-channel result convention every grammar rule follows, and the
//! wrapper that enforces its rollback half.
//!
//! `NotFound` means "this rule does not apply here": the reader stands where
//! it stood on entry and the caller may try a sibling alternative. `Error`
//! means "the rule committed to its shape and the input is malformed": a
//! diagnostic has been recorded, the reader stays at the failure point, and
//! the failure unwinds past every enclosing choice point.

use vstd::prelude::*;

use crate::context::ParserContext;
use crate::cursor::Cursor;
use crate::errors::ParserError;
use crate::messages::ParserMessageId;
use crate::reader::Reader;

verus! {

/// The result of every parser method.
pub type ParserResult<T> = Result<T, ParserResultError>;

/// The type of errors that parser methods can return.
#[derive(Debug, Copy, Clone, Eq, PartialEq, Hash, Structural)]
pub enum ParserResultError {
    NotFound,
    Error,
}

/// The context keeps its configuration and every already-recorded message,
/// in order; new messages may only be appended.
pub open spec fn messages_extended(oldc: ParserContext, newc: ParserContext) -> bool {
    &&& newc.ignore == oldc.ignore
    &&& newc.messages@.len() >= oldc.messages@.len()
    &&& newc.messages@.subrange(0, oldc.messages@.len() as int) == oldc.messages@
}

/// The context is exactly as it was.
pub open spec fn messages_unchanged(oldc: ParserContext, newc: ParserContext) -> bool {
    &&& newc.ignore == oldc.ignore
    &&& newc.messages@ == oldc.messages@
}

/// Whatever was appended to the context is a warning: the rule succeeded and
/// only the warning channel was used.
pub open spec fn warnings_only_added(oldc: ParserContext, newc: ParserContext) -> bool {
    &&& messages_extended(oldc, newc)
    &&& forall|i: int|
        oldc.messages@.len() <= i < newc.messages@.len() ==> newc.messages@[i].id is Warning
}

/// The rule failed hard: at least one message was appended and the last one
/// is the error diagnostic `e`. Every `Error` signal has its diagnostic.
pub open spec fn error_reported(oldc: ParserContext, newc: ParserContext, e: ParserError) -> bool {
    &&& messages_extended(oldc, newc)
    &&& newc.messages@.len() > oldc.messages@.len()
    &&& newc.messages@.last().id == ParserMessageId::Error(e)
    &&& newc.messages@.last().wf()
}

/// The rule failed hard and appended exactly one message: the error
/// diagnostic `e`.
pub open spec fn one_error_reported(oldc: ParserContext, newc: ParserContext, e: ParserError) -> bool {
    &&& messages_extended(oldc, newc)
    &&& newc.messages@.len() == oldc.messages@.len() + 1
    &&& newc.messages@.last().id == ParserMessageId::Error(e)
    &&& newc.messages@.last().wf()
}

/// The rule failed hard after possibly warning along the way: whatever was
/// appended before the final message is a warning, and the final message is
/// the error diagnostic `e`.
pub open spec fn warnings_then_error(oldc: ParserContext, newc: ParserContext, e: ParserError) -> bool {
    &&& messages_extended(oldc, newc)
    &&& newc.messages@.len() > oldc.messages@.len()
    &&& newc.messages@.last().id == ParserMessageId::Error(e)
    &&& newc.messages@.last().wf()
    &&& forall|i: int|
        oldc.messages@.len() <= i < newc.messages@.len() - 1 ==> (#[trigger] newc.messages@[i]).id
            is Warning
}

/// The rule failed hard with some error diagnostic.
pub open spec fn some_error_reported(oldc: ParserContext, newc: ParserContext) -> bool {
    &&& messages_extended(oldc, newc)
    &&& newc.messages@.len() > oldc.messages@.len()
    &&& newc.messages@.last().id is Error
    &&& newc.messages@.last().wf()
}

/// The span of a freshly parsed node: it opens at the cursor the rule
/// entered with and closes at the cursor the rule left behind, over the
/// session's text.
pub open spec fn node_span_shape(
    old_reader: Reader,
    new_reader: Reader,
    span: crate::span::Span,
) -> bool {
    &&& span.content@ == old_reader.text()
    &&& span.start_cursor == old_reader.cursor
    &&& span.end_cursor == new_reader.cursor
}

/// A context left exactly as it was is, in particular, only extended.
pub proof fn lemma_unchanged_extends(a: ParserContext, b: ParserContext)
    requires
        messages_unchanged(a, b),
    ensures
        messages_extended(a, b),
{
    assert(b.messages@.subrange(0, a.messages@.len() as int) =~= a.messages@);
}

/// An extension keeps every already-recorded message at its index.
pub proof fn lemma_extended_index(a: ParserContext, b: ParserContext, i: int)
    requires
        messages_extended(a, b),
        0 <= i < a.messages@.len(),
    ensures
        b.messages@[i] == a.messages@[i],
{
    assert(b.messages@.subrange(0, a.messages@.len() as int)[i] == b.messages@[i]);
}

/// Appending a warning keeps an extension an extension.
pub proof fn lemma_messages_extended_trans(a: ParserContext, b: ParserContext, c: ParserContext)
    requires
        messages_extended(a, b),
        messages_extended(b, c),
    ensures
        messages_extended(a, c),
{
    assert(c.messages@.subrange(0, a.messages@.len() as int) =~= b.messages@.subrange(
        0,
        b.messages@.len() as int,
    ).subrange(0, a.messages@.len() as int));
    assert(b.messages@.subrange(0, b.messages@.len() as int) =~= b.messages@);
}

/// Successive warning-only extensions compose.
pub proof fn lemma_warnings_only_trans(a: ParserContext, b: ParserContext, c: ParserContext)
    requires
        warnings_only_added(a, b),
        warnings_only_added(b, c),
    ensures
        warnings_only_added(a, c),
{
    lemma_messages_extended_trans(a, b, c);
    assert forall|i: int|
        a.messages@.len() <= i < c.messages@.len() implies c.messages@[i].id is Warning by {
        if i < b.messages@.len() {
            lemma_extended_index(b, c, i);
        }
    }
}

/// A warning-only stretch followed by a failing rule still fails with only
/// warnings before the final diagnostic.
pub proof fn lemma_warnings_then_error_compose(
    a: ParserContext,
    b: ParserContext,
    c: ParserContext,
    e: ParserError,
)
    requires
        warnings_only_added(a, b),
        warnings_then_error(b, c, e),
    ensures
        warnings_then_error(a, c, e),
{
    lemma_messages_extended_trans(a, b, c);
    assert forall|i: int|
        a.messages@.len() <= i < c.messages@.len() - 1 implies (#[trigger] c.messages@[i]).id
        is Warning by {
        if i < b.messages@.len() {
            lemma_extended_index(b, c, i);
        }
    }
}

/// A single appended error is, in particular, warnings followed by an
/// error.
pub proof fn lemma_one_error_is_warnings_then_error(
    a: ParserContext,
    b: ParserContext,
    e: ParserError,
)
    requires
        one_error_reported(a, b, e),
    ensures
        warnings_then_error(a, b, e),
{
}

/// Helps to manage the initial cursor of a parser method: a rule body runs
/// first, and if and only if it signalled `NotFound`, the reader is restored
/// to the cursor saved on entry before the result is passed through. Any
/// other outcome leaves the reader exactly as the body left it.
pub fn cursor_manager<T>(reader: &mut Reader, init_cursor: Cursor, result: ParserResult<T>) -> (r:
    ParserResult<T>)
    requires
        old(reader).wf(),
        init_cursor.wf(old(reader).text()),
    ensures
        final(reader).wf(),
        final(reader).same_source(old(reader)),
        r == result,
        result is Err && result->Err_0 == ParserResultError::NotFound ==> final(reader).cursor
            == init_cursor,
        !(result is Err && result->Err_0 == ParserResultError::NotFound) ==> final(reader).cursor
            == old(reader).cursor,
{
    match &result {
        Err(ParserResultError::NotFound) => {
            reader.restore(init_cursor);
        },
        _ => {},
    }
    result
}

} // verus!
