//! Statements of the Mosfet language: a variable declaration or a return
//! statement, tried in that order.

use std::sync::Arc;

use vstd::prelude::*;

use crate::context::ParserContext;
use crate::identifier::keyword_at;
use crate::node::ParserNode;
use crate::reader::Reader;
use crate::result::{
    messages_unchanged, node_span_shape, some_error_reported, warnings_only_added, ParserResult,
    ParserResultError,
};
use crate::integer::number_error_code;
use crate::messages::ParserMessageId;
use crate::result::{messages_extended, one_error_reported};
use crate::return_statement::{
    lemma_return_end_bounds, return_end, return_keyword, return_outcome, ReturnOutcome,
    ReturnStatement,
};
use crate::span::Span;
use crate::variable_declaration::{
    declaration_end, declaration_outcome, lemma_declaration_end_bounds, let_keyword,
    DeclarationOutcome, VariableDeclaration,
};
use crate::errors::ParserError;

verus! {

/// A statement can start here: one of the statement keywords does.
pub open spec fn statement_start(s: Seq<char>, p: int) -> bool {
    keyword_at(s, p, let_keyword()) || keyword_at(s, p, return_keyword())
}

/// The statement at `p` parses to completion: the alternative its keyword
/// commits to reaches its `Parsed` outcome.
pub open spec fn statement_parses(s: Seq<char>, p: int) -> bool {
    if keyword_at(s, p, let_keyword()) {
        declaration_outcome(s, p) == DeclarationOutcome::Parsed
    } else {
        keyword_at(s, p, return_keyword()) && return_outcome(s, p) == ReturnOutcome::Parsed
    }
}

/// Where the statement that starts at `p` ends, once it parses.
pub open spec fn statement_end(s: Seq<char>, p: int) -> int {
    if keyword_at(s, p, let_keyword()) {
        declaration_end(s, p)
    } else {
        return_end(s, p)
    }
}

/// A parsed statement reaches strictly past its start and stays within the
/// text.
pub proof fn lemma_statement_end_bounds(s: Seq<char>, p: int)
    requires
        0 <= p <= s.len(),
        statement_start(s, p),
        statement_parses(s, p),
    ensures
        p < statement_end(s, p) <= s.len(),
{
    if keyword_at(s, p, let_keyword()) {
        lemma_declaration_end_bounds(s, p);
    } else {
        lemma_return_end_bounds(s, p);
    }
}

/// A statement in the Mosfet language, like a variable declaration.
#[derive(Debug)]
pub enum Statement {
    VariableDeclaration(Arc<VariableDeclaration>),
    ReturnStatement(Arc<ReturnStatement>),
}

impl Statement {
    /// The span of the node, as a specification value.
    pub open spec fn spec_span(&self) -> Span {
        match self {
            Statement::VariableDeclaration(n) => *n.span,
            Statement::ReturnStatement(n) => *n.span,
        }
    }

    /// The node's variant is sound.
    #[verifier::opaque]
    pub open spec fn wf(&self) -> bool {
        match self {
            Statement::VariableDeclaration(n) => n.wf(),
            Statement::ReturnStatement(n) => n.wf(),
        }
    }

    // GETTERS ----------------------------------------------------------------
    /// The span of the node.
    pub fn span(&self) -> (r: &Arc<Span>)
        ensures
            **r == self.spec_span(),
    {
        match self {
            Statement::VariableDeclaration(n) => &n.span,
            Statement::ReturnStatement(n) => &n.span,
        }
    }

    // STATIC METHODS ---------------------------------------------------------
    /// Parses a statement, trying each alternative in its declared order:
    /// `NotFound` exactly when no statement keyword stands here; the first
    /// hard error propagates without trying the sibling.
    pub fn parse(reader: &mut Reader, context: &mut ParserContext) -> (r: ParserResult<Statement>)
        requires
            old(reader).wf(),
            old(context).wf(),
        ensures
            final(reader).wf(),
            final(reader).same_source(old(reader)),
            old(reader).pos() <= final(reader).pos(),
            final(context).wf(),
            crate::result::messages_extended(*old(context), *final(context)),
            ({
                let s = old(reader).text();
                let p = old(reader).pos();
                &&& (r == ParserResult::<Statement>::Err(ParserResultError::NotFound)
                    <==> !statement_start(s, p))
                &&& r == ParserResult::<Statement>::Err(ParserResultError::NotFound)
                    ==> final(reader).cursor == old(reader).cursor && messages_unchanged(
                    *old(context),
                    *final(context),
                )
                &&& (r == ParserResult::<Statement>::Err(ParserResultError::Error) <==> (
                keyword_at(s, p, let_keyword()) && declaration_outcome(s, p)
                    != DeclarationOutcome::Parsed) || (!keyword_at(s, p, let_keyword())
                    && keyword_at(s, p, return_keyword()) && return_outcome(s, p)
                    != ReturnOutcome::Parsed))
                &&& r == ParserResult::<Statement>::Err(ParserResultError::Error)
                    ==> some_error_reported(*old(context), *final(context)) && final(reader).pos()
                    > p
                &&& keyword_at(s, p, let_keyword()) ==> {
                    &&& (r matches Ok(st) ==> st is VariableDeclaration)
                    &&& match declaration_outcome(s, p) {
                        DeclarationOutcome::CommentFailure => one_error_reported(
                            *old(context),
                            *final(context),
                            ParserError::MultilineCommentWithoutEndToken,
                        ),
                        DeclarationOutcome::MissingName => one_error_reported(
                            *old(context),
                            *final(context),
                            ParserError::MissingNameInVariableDeclaration,
                        ),
                        DeclarationOutcome::MissingOperator => one_error_reported(
                            *old(context),
                            *final(context),
                            ParserError::MissingAssignOperatorInVariableDeclaration,
                        ),
                        DeclarationOutcome::MissingExpression(hard, w) => {
                            &&& messages_extended(*old(context), *final(context))
                            &&& final(context).messages@.last().id == ParserMessageId::Error(
                                ParserError::MissingExpressionInVariableDeclaration,
                            )
                            &&& final(context).messages@.last().wf()
                            &&& (!hard ==> final(context).messages@.len() == old(
                                context,
                            ).messages@.len() + 1)
                            &&& (hard ==> final(context).messages@.len() == old(
                                context,
                            ).messages@.len() + 2 && final(context).messages@[old(
                                context,
                            ).messages@.len() as int].id == ParserMessageId::Error(
                                number_error_code(s, w),
                            ))
                        },
                        DeclarationOutcome::Parsed => r is Ok,
                    }
                }
                &&& !keyword_at(s, p, let_keyword()) && keyword_at(s, p, return_keyword()) ==> {
                    &&& (r matches Ok(st) ==> st is ReturnStatement)
                    &&& match return_outcome(s, p) {
                        ReturnOutcome::CommentFailure => one_error_reported(
                            *old(context),
                            *final(context),
                            ParserError::MultilineCommentWithoutEndToken,
                        ),
                        ReturnOutcome::MissingExpression(hard, w) => {
                            &&& messages_extended(*old(context), *final(context))
                            &&& final(context).messages@.last().id == ParserMessageId::Error(
                                ParserError::MissingExpressionInReturnStatement,
                            )
                            &&& final(context).messages@.last().wf()
                            &&& (!hard ==> final(context).messages@.len() == old(
                                context,
                            ).messages@.len() + 1)
                            &&& (hard ==> final(context).messages@.len() == old(
                                context,
                            ).messages@.len() + 2 && final(context).messages@[old(
                                context,
                            ).messages@.len() as int].id == ParserMessageId::Error(
                                number_error_code(s, w),
                            ))
                        },
                        ReturnOutcome::Parsed => r is Ok,
                    }
                }
                &&& r matches Ok(st) ==> {
                    &&& st.wf()
                    &&& node_span_shape(*old(reader), *final(reader), st.spec_span())
                    &&& statement_parses(s, p)
                    &&& final(reader).pos() == statement_end(s, p)
                    &&& final(reader).pos() > p
                    &&& warnings_only_added(*old(context), *final(context))
                }
            }),
    {
        match VariableDeclaration::parse(reader, context) {
            Ok(node) => {
                let statement = Statement::VariableDeclaration(Arc::new(node));
                proof {
                    reveal(Statement::wf);
                    assert(statement.wf());
                }
                return Ok(statement);
            },
            Err(ParserResultError::NotFound) => {},
            Err(ParserResultError::Error) => {
                return Err(ParserResultError::Error);
            },
        }
        match ReturnStatement::parse(reader, context) {
            Ok(node) => {
                let statement = Statement::ReturnStatement(Arc::new(node));
                proof {
                    reveal(Statement::wf);
                    assert(statement.wf());
                }
                return Ok(statement);
            },
            Err(ParserResultError::NotFound) => {},
            Err(ParserResultError::Error) => {
                return Err(ParserResultError::Error);
            },
        }
        proof {
            assert(context.messages@.subrange(0, old(context).messages@.len() as int) =~= old(
                context,
            ).messages@);
        }
        Err(ParserResultError::NotFound)
    }
}

impl ParserNode for Statement {
    open spec fn spec_span(&self) -> Span {
        match self {
            Statement::VariableDeclaration(n) => *n.span,
            Statement::ReturnStatement(n) => *n.span,
        }
    }

    open spec fn node_wf(&self) -> bool {
        self.wf()
    }

    proof fn node_wf_implies_span_wf(&self) {
        assert(self.node_wf());
        reveal(Statement::wf);
        match self {
            Statement::VariableDeclaration(n) => {
                assert(n.span.wf());
                assert(self.spec_span() == *n.span);
            },
            Statement::ReturnStatement(n) => {
                assert(n.span.wf());
                assert(self.spec_span() == *n.span);
            },
        }
    }

    fn span(&self) -> (r: &Arc<Span>) {
        match self {
            Statement::VariableDeclaration(n) => &n.span,
            Statement::ReturnStatement(n) => &n.span,
        }
    }
}

} // verus!
