//! Tests for diagnostic records and their rendering.

use parser::context::ParserContext;
use parser::errors::ParserError;
use parser::messages::{ParserMessage, ParserMessageId};
use parser::reader::Reader;
use parser::variable_declaration::VariableDeclaration;
use parser::warnings::ParserWarning;

#[test]
fn test_error_codes_are_stable() {
    assert_eq!(
        ParserError::MultilineCommentWithoutEndToken.code(),
        "MultilineCommentWithoutEndToken"
    );
    assert_eq!(ParserError::NumberWithSeparatorAfterPrefix.code(), "NumberWithSeparatorAfterPrefix");
    assert_eq!(ParserError::NumberWithoutDigitsAfterPrefix.code(), "NumberWithoutDigitsAfterPrefix");
    assert_eq!(ParserError::NotAMosfetFile.code(), "NotAMosfetFile");
    assert_eq!(ParserError::ExpectedEOFInFile.code(), "ExpectedEOFInFile");
    assert_eq!(ParserError::TwoStatementsInSameLineInFile.code(), "TwoStatementsInSameLineInFile");
    assert_eq!(ParserWarning::NumberWithLeadingZeroes.code(), "NumberWithLeadingZeroes");
    assert_eq!(ParserWarning::NumberWithTrailingZeroes.code(), "NumberWithTrailingZeroes");
}

#[test]
fn test_render_layout() {
    // The rendering holds the title, the source line the span covers, a
    // caret under the column where the problem starts, and the code.
    let mut reader = Reader::from_str("first\nlet x = \nthird");
    let start = reader.cursor_at(6).unwrap();
    let end = reader.cursor_at(14).unwrap();
    reader.restore(end);
    let span = reader.substring(&start, &end);

    let message = ParserMessage::error(
        ParserError::MissingExpressionInVariableDeclaration,
        "An expression is expected after the assign operator".to_string(),
        span,
    );
    let rendered = message.render();
    assert_eq!(
        rendered,
        "An expression is expected after the assign operator\nlet x = \n^\nMissingExpressionInVariableDeclaration"
    );
}

#[test]
fn test_render_caret_column() {
    let mut reader = Reader::from_str("let x = @");
    let start = reader.cursor_at(8).unwrap();
    let end = reader.cursor_at(9).unwrap();
    reader.restore(end);
    let span = reader.substring(&start, &end);

    let message = ParserMessage::warning(
        ParserWarning::NumberWithLeadingZeroes,
        "title".to_string(),
        span,
    );
    let rendered = message.render();
    assert_eq!(rendered, "title\nlet x = @\n        ^\nNumberWithLeadingZeroes");
}

#[test]
fn test_every_hard_error_is_recorded() {
    // An `Error` signal always has a recorded diagnostic.
    let mut reader = Reader::from_str("let test");
    let mut context = ParserContext::default();
    let result = VariableDeclaration::parse(&mut reader, &mut context);

    assert!(result.is_err());
    assert!(!context.messages().is_empty(), "A hard error must be recorded");
    assert!(matches!(context.messages().last().unwrap().id, ParserMessageId::Error(_)));
}

#[test]
fn test_message_titles() {
    let mut reader = Reader::from_str("let test");
    let mut context = ParserContext::default();
    let _ = VariableDeclaration::parse(&mut reader, &mut context);

    assert_eq!(
        context.messages()[0].title,
        "The assign operator is required after the variable name to define its value"
    );
}
