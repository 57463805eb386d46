//! The variable declaration of the Mosfet language: the keyword `let`, a
//! name, the assign operator `=`, and a compulsory expression, with
//! multiline-tolerant whitespace between every pair of tokens.

use std::sync::Arc;

use vstd::prelude::*;

use crate::context::ParserContext;
use crate::cursor::Cursor;
use crate::errors::ParserError;
use crate::expressions::{expression_end, expression_start, lemma_expression_end_bounds, Expression};
use crate::identifier::{identifier_end, identifier_start, keyword_at, Identifier};
use crate::integer::{number_error_at, number_error_code};
use crate::messages::{ParserMessage, ParserMessageId};
use crate::node::ParserNode;
use crate::reader::Reader;
use crate::result::{
    cursor_manager, messages_extended, messages_unchanged, node_span_shape, one_error_reported,
    some_error_reported, warnings_only_added, ParserResult, ParserResultError,
};
use crate::return_statement::lemma_context_chain;
use crate::span::Span;
use crate::whitespaces::{multiline_ws_scan, Whitespace};

verus! {

/// The keyword that opens a variable declaration.
pub open spec fn let_keyword() -> Seq<char> {
    seq!['l', 'e', 't']
}

/// What the tail of a variable declaration does once the keyword has
/// matched: an unterminated comment in any separating whitespace fails, a
/// missing name, assign operator or expression fails (the expression hard
/// when it committed and failed itself), and otherwise the declaration
/// parses.
pub enum DeclarationOutcome {
    CommentFailure,
    MissingName,
    MissingOperator,
    MissingExpression(bool, int),
    Parsed,
}

/// The outcome of the tail that follows the keyword `let` at `p`.
pub open spec fn declaration_outcome(s: Seq<char>, p: int) -> DeclarationOutcome
    recommends
        crate::identifier::keyword_at(s, p, let_keyword()),
{
    let ke = identifier_end(s, p);
    match multiline_ws_scan(s, ke) {
        None => DeclarationOutcome::CommentFailure,
        Some(step1) => {
            let w1 = step1.0;
            if !identifier_start(s, w1) {
                DeclarationOutcome::MissingName
            } else {
                let ne = identifier_end(s, w1);
                match multiline_ws_scan(s, ne) {
                    None => DeclarationOutcome::CommentFailure,
                    Some(step2) => {
                        let w2 = step2.0;
                        if !(w2 < s.len() && s[w2] == '=') {
                            DeclarationOutcome::MissingOperator
                        } else {
                            match multiline_ws_scan(s, w2 + 1) {
                                None => DeclarationOutcome::CommentFailure,
                                Some(step3) => {
                                    let w3 = step3.0;
                                    if !expression_start(s, w3) {
                                        DeclarationOutcome::MissingExpression(false, w3)
                                    } else if number_error_at(s, w3) {
                                        DeclarationOutcome::MissingExpression(true, w3)
                                    } else {
                                        DeclarationOutcome::Parsed
                                    }
                                },
                            }
                        }
                    },
                }
            }
        },
    }
}

/// Where the variable declaration that starts at `p` ends, once its
/// outcome is `Parsed`: at the end of its expression.
pub open spec fn declaration_end(s: Seq<char>, p: int) -> int {
    let ke = identifier_end(s, p);
    match multiline_ws_scan(s, ke) {
        None => ke,
        Some(step1) => {
            let ne = identifier_end(s, step1.0);
            match multiline_ws_scan(s, ne) {
                None => ne,
                Some(step2) => {
                    match multiline_ws_scan(s, step2.0 + 1) {
                        None => step2.0,
                        Some(step3) => expression_end(s, step3.0),
                    }
                },
            }
        },
    }
}

/// A parsed variable declaration reaches strictly past its start and stays
/// within the text.
pub proof fn lemma_declaration_end_bounds(s: Seq<char>, p: int)
    requires
        0 <= p <= s.len(),
        crate::identifier::keyword_at(s, p, let_keyword()),
        declaration_outcome(s, p) == DeclarationOutcome::Parsed,
    ensures
        p < declaration_end(s, p) <= s.len(),
{
    crate::text::lemma_class_run_end_bounds(s, p + 1, crate::identifier::body_ranges());
    let ke = identifier_end(s, p);
    crate::whitespaces::lemma_multiline_ws_scan_bounds(s, ke);
    match multiline_ws_scan(s, ke) {
        None => {},
        Some(step1) => {
            crate::text::lemma_class_run_end_bounds(
                s,
                step1.0 + 1,
                crate::identifier::body_ranges(),
            );
            let ne = identifier_end(s, step1.0);
            crate::whitespaces::lemma_multiline_ws_scan_bounds(s, ne);
            match multiline_ws_scan(s, ne) {
                None => {},
                Some(step2) => {
                    crate::whitespaces::lemma_multiline_ws_scan_bounds(s, step2.0 + 1);
                    match multiline_ws_scan(s, step2.0 + 1) {
                        None => {},
                        Some(step3) => {
                            lemma_expression_end_bounds(s, step3.0);
                        },
                    }
                },
            }
        },
    }
}

/// A variable declaration with a compulsory expression.
#[derive(Debug)]
pub struct VariableDeclaration {
    pub span: Arc<Span>,
    pub name: Arc<Identifier>,
    pub expression: Arc<Expression>,
    pub pre_name_whitespace: Arc<Whitespace>,
    pub pre_assign_operator_whitespace: Arc<Whitespace>,
    pub pre_expression_whitespace: Arc<Whitespace>,
}

impl VariableDeclaration {
    /// The pieces are sound and sit side by side: whitespace, name,
    /// whitespace, the `=` operator, whitespace, and the expression that
    /// closes the declaration.
    pub open spec fn wf(&self) -> bool {
        &&& self.span.wf()
        &&& self.name.wf()
        &&& self.expression.wf()
        &&& self.pre_name_whitespace.wf()
        &&& self.pre_assign_operator_whitespace.wf()
        &&& self.pre_expression_whitespace.wf()
        &&& self.name.span.content@ == self.span.content@
        &&& self.expression.spec_span().content@ == self.span.content@
        &&& self.pre_name_whitespace.span.content@ == self.span.content@
        &&& self.pre_assign_operator_whitespace.span.content@ == self.span.content@
        &&& self.pre_expression_whitespace.span.content@ == self.span.content@
        &&& keyword_at(
            self.span.content@,
            self.span.start_cursor.char_offset as int,
            let_keyword(),
        )
        &&& identifier_end(self.span.content@, self.span.start_cursor.char_offset as int)
            == self.pre_name_whitespace.span.start_cursor.char_offset
        &&& self.pre_name_whitespace.span.end_cursor == self.name.span.start_cursor
        &&& self.name.span.end_cursor == self.pre_assign_operator_whitespace.span.start_cursor
        &&& self.pre_assign_operator_whitespace.span.end_cursor.char_offset + 1
            == self.pre_expression_whitespace.span.start_cursor.char_offset
        &&& self.span.content@[self.pre_assign_operator_whitespace.span.end_cursor.char_offset as int]
            == '='
        &&& self.pre_expression_whitespace.span.end_cursor == self.expression.spec_span().start_cursor
        &&& self.span.end_cursor == self.expression.spec_span().end_cursor
        &&& self.span.start_cursor.char_offset
            <= self.pre_name_whitespace.span.start_cursor.char_offset
    }

    // GETTERS ----------------------------------------------------------------
    /// The declared variable's name.
    pub fn name(&self) -> (r: &Arc<Identifier>)
        ensures
            r == &self.name,
    {
        &self.name
    }

    /// The expression that defines the variable's value.
    pub fn expression(&self) -> (r: &Arc<Expression>)
        ensures
            r == &self.expression,
    {
        &self.expression
    }

    /// The whitespace between the keyword and the name.
    pub fn pre_name_whitespace(&self) -> (r: &Arc<Whitespace>)
        ensures
            r == &self.pre_name_whitespace,
    {
        &self.pre_name_whitespace
    }

    /// The whitespace between the name and the assign operator.
    pub fn pre_assign_operator_whitespace(&self) -> (r: &Arc<Whitespace>)
        ensures
            r == &self.pre_assign_operator_whitespace,
    {
        &self.pre_assign_operator_whitespace
    }

    /// The whitespace between the assign operator and the expression.
    pub fn pre_expression_whitespace(&self) -> (r: &Arc<Whitespace>)
        ensures
            r == &self.pre_expression_whitespace,
    {
        &self.pre_expression_whitespace
    }

    // STATIC METHODS ---------------------------------------------------------
    /// Parses a variable declaration: `NotFound` exactly when the keyword
    /// `let` does not stand here as a whole identifier; once the keyword
    /// matched, a missing name, operator or expression is a hard error.
    pub fn parse(reader: &mut Reader, context: &mut ParserContext) -> (r: ParserResult<
        VariableDeclaration,
    >)
        requires
            old(reader).wf(),
            old(context).wf(),
        ensures
            final(reader).wf(),
            final(reader).same_source(old(reader)),
            old(reader).pos() <= final(reader).pos(),
            final(context).wf(),
            ({
                let s = old(reader).text();
                let p = old(reader).pos();
                &&& (r == ParserResult::<VariableDeclaration>::Err(ParserResultError::NotFound)
                    <==> !keyword_at(s, p, let_keyword()))
                &&& r == ParserResult::<VariableDeclaration>::Err(ParserResultError::NotFound)
                    ==> final(reader).cursor == old(reader).cursor && messages_unchanged(
                    *old(context),
                    *final(context),
                )
                &&& (r == ParserResult::<VariableDeclaration>::Err(ParserResultError::Error)
                    <==> keyword_at(s, p, let_keyword()) && declaration_outcome(s, p)
                    != DeclarationOutcome::Parsed)
                &&& r == ParserResult::<VariableDeclaration>::Err(ParserResultError::Error)
                    ==> some_error_reported(*old(context), *final(context)) && final(reader).pos()
                    > p
                &&& keyword_at(s, p, let_keyword()) ==> match declaration_outcome(s, p) {
                    DeclarationOutcome::CommentFailure => one_error_reported(
                        *old(context),
                        *final(context),
                        ParserError::MultilineCommentWithoutEndToken,
                    ),
                    DeclarationOutcome::MissingName => one_error_reported(
                        *old(context),
                        *final(context),
                        ParserError::MissingNameInVariableDeclaration,
                    ),
                    DeclarationOutcome::MissingOperator => one_error_reported(
                        *old(context),
                        *final(context),
                        ParserError::MissingAssignOperatorInVariableDeclaration,
                    ),
                    DeclarationOutcome::MissingExpression(hard, w) => {
                        &&& messages_extended(*old(context), *final(context))
                        &&& final(context).messages@.last().id == ParserMessageId::Error(
                            ParserError::MissingExpressionInVariableDeclaration,
                        )
                        &&& final(context).messages@.last().wf()
                        &&& (!hard ==> final(context).messages@.len() == old(
                            context,
                        ).messages@.len() + 1)
                        &&& (hard ==> final(context).messages@.len() == old(
                            context,
                        ).messages@.len() + 2 && final(context).messages@[old(
                            context,
                        ).messages@.len() as int].id == ParserMessageId::Error(
                            number_error_code(s, w),
                        ))
                    },
                    DeclarationOutcome::Parsed => r is Ok,
                }
                &&& r matches Ok(d) ==> {
                    &&& d.wf()
                    &&& node_span_shape(*old(reader), *final(reader), *d.span)
                    &&& final(reader).pos() == declaration_end(s, p)
                    &&& final(reader).pos() > p
                    &&& keyword_at(s, p, let_keyword())
                    &&& warnings_only_added(*old(context), *final(context))
                }
            }),
    {
        let init_cursor = reader.save();
        let result = Self::parse_body(reader, context, init_cursor);
        cursor_manager(reader, init_cursor, result)
    }

    /// The body of [`VariableDeclaration::parse`], run under the cursor
    /// manager.
    #[verifier::rlimit(100)]
    fn parse_body(reader: &mut Reader, context: &mut ParserContext, init_cursor: Cursor) -> (r:
        ParserResult<VariableDeclaration>)
        requires
            old(reader).wf(),
            old(context).wf(),
            init_cursor == old(reader).cursor,
        ensures
            final(reader).wf(),
            final(reader).same_source(old(reader)),
            old(reader).pos() <= final(reader).pos(),
            final(context).wf(),
            ({
                let s = old(reader).text();
                let p = old(reader).pos();
                &&& (r == ParserResult::<VariableDeclaration>::Err(ParserResultError::NotFound)
                    <==> !keyword_at(s, p, let_keyword()))
                &&& r == ParserResult::<VariableDeclaration>::Err(ParserResultError::NotFound)
                    ==> final(reader).cursor == old(reader).cursor && messages_unchanged(
                    *old(context),
                    *final(context),
                )
                &&& (r == ParserResult::<VariableDeclaration>::Err(ParserResultError::Error)
                    <==> keyword_at(s, p, let_keyword()) && declaration_outcome(s, p)
                    != DeclarationOutcome::Parsed)
                &&& r == ParserResult::<VariableDeclaration>::Err(ParserResultError::Error)
                    ==> some_error_reported(*old(context), *final(context)) && final(reader).pos()
                    > p
                &&& keyword_at(s, p, let_keyword()) ==> match declaration_outcome(s, p) {
                    DeclarationOutcome::CommentFailure => one_error_reported(
                        *old(context),
                        *final(context),
                        ParserError::MultilineCommentWithoutEndToken,
                    ),
                    DeclarationOutcome::MissingName => one_error_reported(
                        *old(context),
                        *final(context),
                        ParserError::MissingNameInVariableDeclaration,
                    ),
                    DeclarationOutcome::MissingOperator => one_error_reported(
                        *old(context),
                        *final(context),
                        ParserError::MissingAssignOperatorInVariableDeclaration,
                    ),
                    DeclarationOutcome::MissingExpression(hard, w) => {
                        &&& messages_extended(*old(context), *final(context))
                        &&& final(context).messages@.last().id == ParserMessageId::Error(
                            ParserError::MissingExpressionInVariableDeclaration,
                        )
                        &&& final(context).messages@.last().wf()
                        &&& (!hard ==> final(context).messages@.len() == old(
                            context,
                        ).messages@.len() + 1)
                        &&& (hard ==> final(context).messages@.len() == old(
                            context,
                        ).messages@.len() + 2 && final(context).messages@[old(
                            context,
                        ).messages@.len() as int].id == ParserMessageId::Error(
                            number_error_code(s, w),
                        ))
                    },
                    DeclarationOutcome::Parsed => r is Ok,
                }
                &&& r matches Ok(d) ==> {
                    &&& d.wf()
                    &&& node_span_shape(*old(reader), *final(reader), *d.span)
                    &&& final(reader).pos() == declaration_end(s, p)
                    &&& final(reader).pos() > p
                    &&& keyword_at(s, p, let_keyword())
                    &&& warnings_only_added(*old(context), *final(context))
                }
            }),
    {
        proof {
            reveal_strlit("let");
            assert("let"@ =~= let_keyword());
        }
        if !Identifier::parse_keyword(reader, context, "let") {
            return Err(ParserResultError::NotFound);
        }
        let ghost s = old(reader).text();
        let ghost p = old(reader).pos();
        let ghost ke = reader.pos();
        proof {
            crate::text::lemma_class_run_end_bounds(s, p + 1, crate::identifier::body_ranges());
            assert(ke == identifier_end(s, p));
        }
        let pre_name_whitespace = match Whitespace::parse_multiline_or_default(reader, context) {
            Ok(w) => w,
            Err(_) => {
                proof {
                    assert(multiline_ws_scan(s, ke) is None);
                    assert(declaration_outcome(s, p) == DeclarationOutcome::CommentFailure);
                }
                return Err(ParserResultError::Error);
            },
        };
        let ghost after_ws1 = *context;
        let ghost w1 = reader.pos();
        proof {
            assert(multiline_ws_scan(s, ke) == Some((w1, pre_name_whitespace.is_multiline)));
        }
        let name = match Identifier::parse(reader, context) {
            Ok(v) => v,
            Err(_) => {
                proof {
                    assert(!identifier_start(s, w1));
                    assert(declaration_outcome(s, p) == DeclarationOutcome::MissingName);
                }
                let here = reader.save();
                let span = reader.substring_to_current(&here);
                let title = "The variable name is missing".to_owned();
                let ghost pre_push = *context;
                context.add_message(
                    ParserMessage::error(
                        ParserError::MissingNameInVariableDeclaration,
                        title,
                        span,
                    ),
                );
                proof {
                    assert(context.messages@.subrange(0, pre_push.messages@.len() as int)
                        =~= pre_push.messages@);
                    lemma_context_chain(after_ws1, pre_push, *context);
                    lemma_context_chain(*old(context), after_ws1, *context);
                }
                return Err(ParserResultError::Error);
            },
        };
        let ghost ne = reader.pos();
        proof {
            assert(ne == identifier_end(s, w1));
        }
        let pre_assign_operator_whitespace = match Whitespace::parse_multiline_or_default(
            reader,
            context,
        ) {
            Ok(w) => w,
            Err(_) => {
                proof {
                    assert(multiline_ws_scan(s, ne) is None);
                    assert(declaration_outcome(s, p) == DeclarationOutcome::CommentFailure);
                    lemma_context_chain(*old(context), after_ws1, *context);
                }
                return Err(ParserResultError::Error);
            },
        };
        let ghost op_pos = reader.pos();
        proof {
            reveal_strlit("=");
            assert("="@ =~= seq!['=']);
            assert(multiline_ws_scan(s, ne) == Some(
                (op_pos, pre_assign_operator_whitespace.is_multiline),
            ));
        }
        if !reader.read("=") {
            let here = reader.save();
            let span = reader.substring_to_current(&here);
            let title =
                "The assign operator is required after the variable name to define its value"
                .to_owned();
            let ghost pre_push = *context;
            context.add_message(
                ParserMessage::error(
                    ParserError::MissingAssignOperatorInVariableDeclaration,
                    title,
                    span,
                ),
            );
            proof {
                if op_pos < s.len() && s[op_pos] == '=' {
                    assert(s.subrange(op_pos, op_pos + 1) =~= seq!['=']);
                    assert(crate::text::matches_at(s, op_pos, seq!['=']));
                }
                assert(declaration_outcome(s, p) == DeclarationOutcome::MissingOperator);
                assert(context.messages@.subrange(0, pre_push.messages@.len() as int)
                    =~= pre_push.messages@);
                lemma_context_chain(after_ws1, pre_push, *context);
                lemma_context_chain(*old(context), after_ws1, *context);
            }
            return Err(ParserResultError::Error);
        }
        proof {
            assert(s.subrange(op_pos, op_pos + 1) =~= seq![s[op_pos]]);
            assert(s.subrange(op_pos, op_pos + 1)[0] == s[op_pos]);
            assert(s[op_pos] == '=');
        }
        let pre_expression_whitespace = match Whitespace::parse_multiline_or_default(
            reader,
            context,
        ) {
            Ok(w) => w,
            Err(_) => {
                proof {
                    assert(multiline_ws_scan(s, op_pos + 1) is None);
                    assert(declaration_outcome(s, p) == DeclarationOutcome::CommentFailure);
                    lemma_context_chain(*old(context), after_ws1, *context);
                }
                return Err(ParserResultError::Error);
            },
        };
        let ghost after_ws3 = *context;
        let ghost w3 = reader.pos();
        proof {
            assert(multiline_ws_scan(s, op_pos + 1) == Some(
                (w3, pre_expression_whitespace.is_multiline),
            ));
        }
        let expression = match Expression::parse(reader, context) {
            Ok(v) => v,
            Err(e) => {
                proof {
                    match e {
                        ParserResultError::NotFound => {
                            assert(!expression_start(s, w3));
                        },
                        ParserResultError::Error => {
                            assert(number_error_at(s, w3));
                        },
                    }
                    assert(declaration_outcome(s, p) == DeclarationOutcome::MissingExpression(
                        number_error_at(s, w3),
                        w3,
                    ));
                }
                let here = reader.save();
                let span = reader.substring_to_current(&here);
                let title = "An expression is expected after the assign operator".to_owned();
                let ghost pre_push = *context;
                context.add_message(
                    ParserMessage::error(
                        ParserError::MissingExpressionInVariableDeclaration,
                        title,
                        span,
                    ),
                );
                proof {
                    assert(context.messages@ == pre_push.messages@.push(
                        context.messages@.last(),
                    ));
                    assert(context.messages@.subrange(0, pre_push.messages@.len() as int)
                        =~= pre_push.messages@);
                    lemma_context_chain(after_ws3, pre_push, *context);
                    lemma_context_chain(*old(context), after_ws3, *context);
                    if number_error_at(s, w3) {
                        assert(context.messages@[old(context).messages@.len() as int]
                            == pre_push.messages@.last());
                    }
                }
                return Err(ParserResultError::Error);
            },
        };
        proof {
            assert(declaration_outcome(s, p) == DeclarationOutcome::Parsed);
            lemma_context_chain(*old(context), after_ws3, *context);
        }
        let span = Arc::new(reader.substring_to_current(&init_cursor));
        Ok(
            VariableDeclaration {
                span,
                name: Arc::new(name),
                expression: Arc::new(expression),
                pre_name_whitespace: Arc::new(pre_name_whitespace),
                pre_assign_operator_whitespace: Arc::new(pre_assign_operator_whitespace),
                pre_expression_whitespace: Arc::new(pre_expression_whitespace),
            },
        )
    }
}

impl ParserNode for VariableDeclaration {
    open spec fn spec_span(&self) -> Span {
        *self.span
    }

    open spec fn node_wf(&self) -> bool {
        self.wf()
    }

    proof fn node_wf_implies_span_wf(&self) {
        assert(self.node_wf());
        assert(self.span.wf());
        assert(self.spec_span() == *self.span);
    }

    fn span(&self) -> (r: &Arc<Span>) {
        &self.span
    }
}

} // verus!
