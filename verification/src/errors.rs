//! The errors that parsers can throw.

use vstd::prelude::*;

verus! {

/// The errors that parsers can throw. Each variant is the machine-stable
/// identifier of one hard-failure diagnostic.
#[derive(Debug, Copy, Clone, Eq, PartialEq, Hash, Structural)]
pub enum ParserError {
    MultilineCommentWithoutEndToken,
    NumberWithSeparatorAfterPrefix,
    NumberWithoutDigitsAfterPrefix,
    MissingNameInVariableDeclaration,
    MissingAssignOperatorInVariableDeclaration,
    MissingExpressionInVariableDeclaration,
    MissingExpressionInReturnStatement,
    NotAMosfetFile,
    ExpectedEOFInFile,
    TwoStatementsInSameLineInFile,
}

/// The name of the error, the stable code that tooling keys off.
pub open spec fn error_code(e: ParserError) -> Seq<char> {
    match e {
        ParserError::MultilineCommentWithoutEndToken => "MultilineCommentWithoutEndToken"@,
        ParserError::NumberWithSeparatorAfterPrefix => "NumberWithSeparatorAfterPrefix"@,
        ParserError::NumberWithoutDigitsAfterPrefix => "NumberWithoutDigitsAfterPrefix"@,
        ParserError::MissingNameInVariableDeclaration => "MissingNameInVariableDeclaration"@,
        ParserError::MissingAssignOperatorInVariableDeclaration => "MissingAssignOperatorInVariableDeclaration"@,
        ParserError::MissingExpressionInVariableDeclaration => "MissingExpressionInVariableDeclaration"@,
        ParserError::MissingExpressionInReturnStatement => "MissingExpressionInReturnStatement"@,
        ParserError::NotAMosfetFile => "NotAMosfetFile"@,
        ParserError::ExpectedEOFInFile => "ExpectedEOFInFile"@,
        ParserError::TwoStatementsInSameLineInFile => "TwoStatementsInSameLineInFile"@,
    }
}

impl ParserError {
    /// The stable identifier code of this error.
    pub fn code(&self) -> (r: &'static str)
        ensures
            r@ == error_code(*self),
    {
        match self {
            ParserError::MultilineCommentWithoutEndToken => "MultilineCommentWithoutEndToken",
            ParserError::NumberWithSeparatorAfterPrefix => "NumberWithSeparatorAfterPrefix",
            ParserError::NumberWithoutDigitsAfterPrefix => "NumberWithoutDigitsAfterPrefix",
            ParserError::MissingNameInVariableDeclaration => "MissingNameInVariableDeclaration",
            ParserError::MissingAssignOperatorInVariableDeclaration => "MissingAssignOperatorInVariableDeclaration",
            ParserError::MissingExpressionInVariableDeclaration => "MissingExpressionInVariableDeclaration",
            ParserError::MissingExpressionInReturnStatement => "MissingExpressionInReturnStatement",
            ParserError::NotAMosfetFile => "NotAMosfetFile",
            ParserError::ExpectedEOFInFile => "ExpectedEOFInFile",
            ParserError::TwoStatementsInSameLineInFile => "TwoStatementsInSameLineInFile",
        }
    }
}

} // verus!
