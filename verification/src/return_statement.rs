//! The return statement of the Mosfet language: the keyword `return`
//! followed by a compulsory expression.

use std::sync::Arc;

use vstd::prelude::*;

use crate::context::ParserContext;
use crate::cursor::Cursor;
use crate::errors::ParserError;
use crate::expressions::{expression_end, expression_start, lemma_expression_end_bounds, Expression};
use crate::identifier::{identifier_end, keyword_at, Identifier};
use crate::integer::{number_error_at, number_error_code};
use crate::messages::{ParserMessage, ParserMessageId};
use crate::node::ParserNode;
use crate::reader::Reader;
use crate::result::{
    cursor_manager, messages_extended, messages_unchanged, node_span_shape, one_error_reported,
    some_error_reported, warnings_only_added, ParserResult, ParserResultError,
};
use crate::span::Span;
use crate::whitespaces::{multiline_ws_scan, Whitespace};

verus! {

/// The keyword that opens a return statement.
pub open spec fn return_keyword() -> Seq<char> {
    seq!['r', 'e', 't', 'u', 'r', 'n']
}

/// What the tail of a return statement does once the keyword has matched:
/// an unterminated comment in the separating whitespace fails, a missing
/// expression fails (hard when the expression itself committed and
/// failed), and otherwise the statement parses.
pub enum ReturnOutcome {
    CommentFailure,
    MissingExpression(bool, int),
    Parsed,
}

/// The outcome of the tail that follows the keyword `return` at `p`.
pub open spec fn return_outcome(s: Seq<char>, p: int) -> ReturnOutcome
    recommends
        crate::identifier::keyword_at(s, p, return_keyword()),
{
    let ke = identifier_end(s, p);
    match multiline_ws_scan(s, ke) {
        None => ReturnOutcome::CommentFailure,
        Some(step) => {
            let w = step.0;
            if !expression_start(s, w) {
                ReturnOutcome::MissingExpression(false, w)
            } else if number_error_at(s, w) {
                ReturnOutcome::MissingExpression(true, w)
            } else {
                ReturnOutcome::Parsed
            }
        },
    }
}

/// Where the return statement that starts at `p` ends, once its outcome is
/// `Parsed`: at the end of its expression.
pub open spec fn return_end(s: Seq<char>, p: int) -> int {
    let ke = identifier_end(s, p);
    match multiline_ws_scan(s, ke) {
        None => ke,
        Some(step) => expression_end(s, step.0),
    }
}

/// A parsed return statement reaches strictly past its start and stays
/// within the text.
pub proof fn lemma_return_end_bounds(s: Seq<char>, p: int)
    requires
        0 <= p <= s.len(),
        crate::identifier::keyword_at(s, p, return_keyword()),
        return_outcome(s, p) == ReturnOutcome::Parsed,
    ensures
        p < return_end(s, p) <= s.len(),
{
    crate::text::lemma_class_run_end_bounds(s, p + 1, crate::identifier::body_ranges());
    let ke = identifier_end(s, p);
    crate::whitespaces::lemma_multiline_ws_scan_bounds(s, ke);
    match multiline_ws_scan(s, ke) {
        None => {},
        Some(step) => {
            lemma_expression_end_bounds(s, step.0);
        },
    }
}

/// A return statement with a compulsory expression.
#[derive(Debug)]
pub struct ReturnStatement {
    pub span: Arc<Span>,
    pub expression: Arc<Expression>,
    pub pre_expression_whitespace: Arc<Whitespace>,
}

impl ReturnStatement {
    /// The pieces are sound and sit side by side: the whitespace ends where
    /// the expression starts, and the expression closes the statement.
    pub open spec fn wf(&self) -> bool {
        &&& self.span.wf()
        &&& self.expression.wf()
        &&& self.pre_expression_whitespace.wf()
        &&& self.expression.spec_span().content@ == self.span.content@
        &&& self.pre_expression_whitespace.span.content@ == self.span.content@
        &&& keyword_at(
            self.span.content@,
            self.span.start_cursor.char_offset as int,
            return_keyword(),
        )
        &&& identifier_end(self.span.content@, self.span.start_cursor.char_offset as int)
            == self.pre_expression_whitespace.span.start_cursor.char_offset
        &&& self.pre_expression_whitespace.span.end_cursor
            == self.expression.spec_span().start_cursor
        &&& self.span.end_cursor == self.expression.spec_span().end_cursor
    }

    // GETTERS ----------------------------------------------------------------
    /// The expression whose value the statement returns.
    pub fn expression(&self) -> (r: &Arc<Expression>)
        ensures
            r == &self.expression,
    {
        &self.expression
    }

    /// The whitespace between the keyword and the expression.
    pub fn pre_expression_whitespace(&self) -> (r: &Arc<Whitespace>)
        ensures
            r == &self.pre_expression_whitespace,
    {
        &self.pre_expression_whitespace
    }

    // STATIC METHODS ---------------------------------------------------------
    /// Parses a return statement: `NotFound` exactly when the keyword
    /// `return` does not stand here as a whole identifier; once the keyword
    /// matched, a missing expression is a hard error.
    pub fn parse(reader: &mut Reader, context: &mut ParserContext) -> (r: ParserResult<
        ReturnStatement,
    >)
        requires
            old(reader).wf(),
            old(context).wf(),
        ensures
            final(reader).wf(),
            final(reader).same_source(old(reader)),
            old(reader).pos() <= final(reader).pos(),
            final(context).wf(),
            ({
                let s = old(reader).text();
                let p = old(reader).pos();
                &&& (r == ParserResult::<ReturnStatement>::Err(ParserResultError::NotFound)
                    <==> !keyword_at(s, p, return_keyword()))
                &&& r == ParserResult::<ReturnStatement>::Err(ParserResultError::NotFound)
                    ==> final(reader).cursor == old(reader).cursor && messages_unchanged(
                    *old(context),
                    *final(context),
                )
                &&& (r == ParserResult::<ReturnStatement>::Err(ParserResultError::Error)
                    <==> keyword_at(s, p, return_keyword()) && return_outcome(s, p)
                    != ReturnOutcome::Parsed)
                &&& r == ParserResult::<ReturnStatement>::Err(ParserResultError::Error)
                    ==> some_error_reported(*old(context), *final(context)) && final(reader).pos()
                    > p
                &&& keyword_at(s, p, return_keyword()) ==> match return_outcome(s, p) {
                    ReturnOutcome::CommentFailure => one_error_reported(
                        *old(context),
                        *final(context),
                        ParserError::MultilineCommentWithoutEndToken,
                    ),
                    ReturnOutcome::MissingExpression(hard, w) => {
                        &&& messages_extended(*old(context), *final(context))
                        &&& final(context).messages@.last().id == ParserMessageId::Error(
                            ParserError::MissingExpressionInReturnStatement,
                        )
                        &&& final(context).messages@.last().wf()
                        &&& (!hard ==> final(context).messages@.len() == old(
                            context,
                        ).messages@.len() + 1)
                        &&& (hard ==> final(context).messages@.len() == old(
                            context,
                        ).messages@.len() + 2 && final(context).messages@[old(
                            context,
                        ).messages@.len() as int].id == ParserMessageId::Error(
                            number_error_code(s, w),
                        ))
                    },
                    ReturnOutcome::Parsed => r is Ok,
                }
                &&& r matches Ok(st) ==> {
                    &&& st.wf()
                    &&& node_span_shape(*old(reader), *final(reader), *st.span)
                    &&& final(reader).pos() == return_end(s, p)
                    &&& final(reader).pos() > p
                    &&& keyword_at(s, p, return_keyword())
                    &&& warnings_only_added(*old(context), *final(context))
                }
            }),
    {
        let init_cursor = reader.save();
        let result = Self::parse_body(reader, context, init_cursor);
        cursor_manager(reader, init_cursor, result)
    }

    /// The body of [`ReturnStatement::parse`], run under the cursor
    /// manager.
    fn parse_body(reader: &mut Reader, context: &mut ParserContext, init_cursor: Cursor) -> (r:
        ParserResult<ReturnStatement>)
        requires
            old(reader).wf(),
            old(context).wf(),
            init_cursor == old(reader).cursor,
        ensures
            final(reader).wf(),
            final(reader).same_source(old(reader)),
            old(reader).pos() <= final(reader).pos(),
            final(context).wf(),
            ({
                let s = old(reader).text();
                let p = old(reader).pos();
                &&& (r == ParserResult::<ReturnStatement>::Err(ParserResultError::NotFound)
                    <==> !keyword_at(s, p, return_keyword()))
                &&& r == ParserResult::<ReturnStatement>::Err(ParserResultError::NotFound)
                    ==> final(reader).cursor == old(reader).cursor && messages_unchanged(
                    *old(context),
                    *final(context),
                )
                &&& (r == ParserResult::<ReturnStatement>::Err(ParserResultError::Error)
                    <==> keyword_at(s, p, return_keyword()) && return_outcome(s, p)
                    != ReturnOutcome::Parsed)
                &&& r == ParserResult::<ReturnStatement>::Err(ParserResultError::Error)
                    ==> some_error_reported(*old(context), *final(context)) && final(reader).pos()
                    > p
                &&& keyword_at(s, p, return_keyword()) ==> match return_outcome(s, p) {
                    ReturnOutcome::CommentFailure => one_error_reported(
                        *old(context),
                        *final(context),
                        ParserError::MultilineCommentWithoutEndToken,
                    ),
                    ReturnOutcome::MissingExpression(hard, w) => {
                        &&& messages_extended(*old(context), *final(context))
                        &&& final(context).messages@.last().id == ParserMessageId::Error(
                            ParserError::MissingExpressionInReturnStatement,
                        )
                        &&& final(context).messages@.last().wf()
                        &&& (!hard ==> final(context).messages@.len() == old(
                            context,
                        ).messages@.len() + 1)
                        &&& (hard ==> final(context).messages@.len() == old(
                            context,
                        ).messages@.len() + 2 && final(context).messages@[old(
                            context,
                        ).messages@.len() as int].id == ParserMessageId::Error(
                            number_error_code(s, w),
                        ))
                    },
                    ReturnOutcome::Parsed => r is Ok,
                }
                &&& r matches Ok(st) ==> {
                    &&& st.wf()
                    &&& node_span_shape(*old(reader), *final(reader), *st.span)
                    &&& final(reader).pos() == return_end(s, p)
                    &&& final(reader).pos() > p
                    &&& keyword_at(s, p, return_keyword())
                    &&& warnings_only_added(*old(context), *final(context))
                }
            }),
    {
        proof {
            reveal_strlit("return");
            assert("return"@ =~= return_keyword());
        }
        if !Identifier::parse_keyword(reader, context, "return") {
            return Err(ParserResultError::NotFound);
        }
        let ghost s = old(reader).text();
        let ghost p = old(reader).pos();
        let ghost ke = reader.pos();
        proof {
            crate::text::lemma_class_run_end_bounds(s, p + 1, crate::identifier::body_ranges());
            assert(ke == identifier_end(s, p));
        }
        let pre_expression_whitespace = match Whitespace::parse_multiline_or_default(
            reader,
            context,
        ) {
            Ok(w) => w,
            Err(_) => {
                proof {
                    assert(multiline_ws_scan(s, ke) is None);
                    assert(return_outcome(s, p) == ReturnOutcome::CommentFailure);
                }
                return Err(ParserResultError::Error);
            },
        };
        let ghost after_ws = *context;
        let ghost w1 = reader.pos();
        proof {
            assert(multiline_ws_scan(s, ke) == Some(
                (w1, pre_expression_whitespace.is_multiline),
            ));
        }
        let expression = match Expression::parse(reader, context) {
            Ok(v) => v,
            Err(e) => {
                proof {
                    match e {
                        ParserResultError::NotFound => {
                            assert(!expression_start(s, w1));
                        },
                        ParserResultError::Error => {
                            assert(number_error_at(s, w1));
                        },
                    }
                    assert(return_outcome(s, p) == ReturnOutcome::MissingExpression(
                        number_error_at(s, w1),
                        w1,
                    ));
                }
                let here = reader.save();
                let span = reader.substring_to_current(&here);
                let title = "An expression was expected to specify the value to return".to_owned();
                let ghost pre_push = *context;
                context.add_message(
                    ParserMessage::error(
                        ParserError::MissingExpressionInReturnStatement,
                        title,
                        span,
                    ),
                );
                proof {
                    assert(context.messages@ == pre_push.messages@.push(
                        context.messages@.last(),
                    ));
                    assert(context.messages@.subrange(0, pre_push.messages@.len() as int)
                        =~= pre_push.messages@);
                    lemma_context_chain(after_ws, pre_push, *context);
                    lemma_context_chain(*old(context), after_ws, *context);
                    if number_error_at(s, w1) {
                        assert(context.messages@[old(context).messages@.len() as int]
                            == pre_push.messages@.last());
                    }
                }
                return Err(ParserResultError::Error);
            },
        };
        proof {
            assert(return_outcome(s, p) == ReturnOutcome::Parsed);
            lemma_context_chain(*old(context), after_ws, *context);
        }
        let span = Arc::new(reader.substring_to_current(&init_cursor));
        Ok(
            ReturnStatement {
                span,
                expression: Arc::new(expression),
                pre_expression_whitespace: Arc::new(pre_expression_whitespace),
            },
        )
    }
}

/// Chains the context bookkeeping of two successive rule calls into one
/// extension from the entry context.
pub proof fn lemma_context_chain(a: ParserContext, b: ParserContext, c: ParserContext)
    requires
        messages_unchanged(a, b) || crate::result::messages_extended(a, b),
        messages_unchanged(b, c) || crate::result::messages_extended(b, c),
    ensures
        crate::result::messages_extended(a, c),
        c.messages@.len() >= b.messages@.len(),
{
    if messages_unchanged(a, b) {
        crate::result::lemma_unchanged_extends(a, b);
    }
    if messages_unchanged(b, c) {
        crate::result::lemma_unchanged_extends(b, c);
    }
    crate::result::lemma_messages_extended_trans(a, b, c);
}

impl ParserNode for ReturnStatement {
    open spec fn spec_span(&self) -> Span {
        *self.span
    }

    open spec fn node_wf(&self) -> bool {
        self.wf()
    }

    proof fn node_wf_implies_span_wf(&self) {
        assert(self.node_wf());
        assert(self.span.wf());
        assert(self.spec_span() == *self.span);
    }

    fn span(&self) -> (r: &Arc<Span>) {
        &self.span
    }
}

} // verus!
