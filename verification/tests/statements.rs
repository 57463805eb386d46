//! Tests for statements: variable declarations and return statements.

use parser::context::ParserContext;
use parser::errors::ParserError;
use parser::expressions::Expression;
use parser::messages::ParserMessageId;
use parser::node::ParserNode;
use parser::reader::Reader;
use parser::result::ParserResultError;
use parser::return_statement::ReturnStatement;
use parser::statements::Statement;
use parser::variable_declaration::VariableDeclaration;

fn assert_not_found(context: &ParserContext, error: &ParserResultError, messages: usize) {
    assert_eq!(error, &ParserResultError::NotFound, "The error is incorrect");
    assert_eq!(context.messages().len(), messages, "The messages length is incorrect");
}

fn assert_error(context: &ParserContext, error: &ParserResultError, error_type: ParserError) {
    assert_eq!(error, &ParserResultError::Error, "The error is incorrect");
    assert_eq!(context.messages().len(), 1, "The messages length is incorrect");
    assert_eq!(
        context.messages()[0].id,
        ParserMessageId::Error(error_type),
        "The error type is incorrect"
    );
}

#[test]
fn test_parse_variable_declaration() {
    let mut reader = Reader::from_str("let test = a");
    let mut context = ParserContext::default();
    let statement = Statement::parse(&mut reader, &mut context).expect("The parser must succeed");

    if let Statement::VariableDeclaration(declaration) = statement {
        assert_eq!(declaration.name().content(), "test", "The name is incorrect");
        if let Expression::VariableAccess(identifier) = declaration.expression().as_ref() {
            assert_eq!(identifier.content(), "a", "The literal access is incorrect");
        } else {
            panic!("The literal is incorrect");
        }
    } else {
        panic!("The literal is incorrect");
    }
}

#[test]
fn statements_test_parse_variable_access() {
    let mut reader = Reader::from_str("return test");
    let mut context = ParserContext::default();
    let statement = Statement::parse(&mut reader, &mut context).expect("The parser must succeed");

    if let Statement::ReturnStatement(statement) = statement {
        if let Expression::VariableAccess(identifier) = statement.expression().as_ref() {
            assert_eq!(identifier.content(), "test", "The literal access is incorrect");
        } else {
            panic!("The literal is incorrect");
        }
    } else {
        panic!("The literal is incorrect");
    }
}

#[test]
fn statements_test_parse_err_not_found() {
    let mut reader = Reader::from_str("-");
    let mut context = ParserContext::default();
    let error =
        Statement::parse(&mut reader, &mut context).expect_err("The parser must not succeed");

    assert_not_found(&context, &error, 0);
}

#[test]
fn return_statement_test_parse() {
    // With whitespaces.
    let mut reader = Reader::from_str("return    test");
    let mut context = ParserContext::default();
    let statement =
        ReturnStatement::parse(&mut reader, &mut context).expect("The parser must succeed");

    if let Expression::VariableAccess(identifier) = statement.expression().as_ref() {
        assert_eq!(identifier.content(), "test", "The literal access is incorrect");
    } else {
        panic!("The literal is incorrect");
    }
}

#[test]
fn return_statement_test_parse_err_not_found() {
    let mut reader = Reader::from_str("-");
    let mut context = ParserContext::default();
    let error =
        ReturnStatement::parse(&mut reader, &mut context).expect_err("The parser must not succeed");

    assert_not_found(&context, &error, 0);
}

#[test]
fn return_statement_test_parse_err_missing_expression() {
    let mut reader = Reader::from_str("return");
    let mut context = ParserContext::default();
    let error =
        ReturnStatement::parse(&mut reader, &mut context).expect_err("The parser must not succeed");

    assert_error(&context, &error, ParserError::MissingExpressionInReturnStatement);
}

#[test]
fn variable_declaration_test_parse() {
    // With whitespaces.
    let mut reader = Reader::from_str("let    test   =   a");
    let mut context = ParserContext::default();
    let declaration =
        VariableDeclaration::parse(&mut reader, &mut context).expect("The parser must succeed");

    assert_eq!(declaration.name().content(), "test", "The name is incorrect");
    if let Expression::VariableAccess(identifier) = declaration.expression().as_ref() {
        assert_eq!(identifier.content(), "a", "The literal access is incorrect");
    } else {
        panic!("The literal is incorrect");
    }

    // Without whitespaces.
    let mut reader = Reader::from_str("let test=a");
    let mut context = ParserContext::default();
    let declaration =
        VariableDeclaration::parse(&mut reader, &mut context).expect("The parser must succeed");

    assert_eq!(declaration.name().content(), "test", "The name is incorrect");
    if let Expression::VariableAccess(identifier) = declaration.expression().as_ref() {
        assert_eq!(identifier.content(), "a", "The literal access is incorrect");
    } else {
        panic!("The literal is incorrect");
    }
}

#[test]
fn variable_declaration_test_parse_err_not_found() {
    let mut reader = Reader::from_str("-");
    let mut context = ParserContext::default();
    let error = VariableDeclaration::parse(&mut reader, &mut context)
        .expect_err("The parser must not succeed");

    assert_not_found(&context, &error, 0);
}

#[test]
fn test_parse_err_missing_variable_name() {
    let mut reader = Reader::from_str("let");
    let mut context = ParserContext::default();
    let error = VariableDeclaration::parse(&mut reader, &mut context)
        .expect_err("The parser must not succeed");

    assert_error(&context, &error, ParserError::MissingNameInVariableDeclaration);
}

#[test]
fn test_parse_err_missing_assign_operator() {
    let mut reader = Reader::from_str("let test");
    let mut context = ParserContext::default();
    let error = VariableDeclaration::parse(&mut reader, &mut context)
        .expect_err("The parser must not succeed");

    assert_error(&context, &error, ParserError::MissingAssignOperatorInVariableDeclaration);
}

#[test]
fn variable_declaration_test_parse_err_missing_expression() {
    let mut reader = Reader::from_str("let test =");
    let mut context = ParserContext::default();
    let error = VariableDeclaration::parse(&mut reader, &mut context)
        .expect_err("The parser must not succeed");

    assert_error(&context, &error, ParserError::MissingExpressionInVariableDeclaration);
}

#[test]
fn test_statement_rederivation() {
    // Re-parsing the exact text a statement span covers yields an equal
    // statement.
    let mut reader = Reader::from_str("let answer = 42\nreturn answer");
    let mut context = ParserContext::default();
    let statement = Statement::parse(&mut reader, &mut context).expect("The parser must succeed");

    let sub = statement.span().content().to_string();
    assert_eq!(sub, "let answer = 42");

    let mut reader2 = Reader::from_str(&sub);
    let mut context2 = ParserContext::default();
    let again = Statement::parse(&mut reader2, &mut context2).expect("The parser must succeed");

    assert_eq!(again.span().content(), statement.span().content());
    assert_eq!(reader2.remaining_length(), 0, "The whole substring must be consumed");
}

#[test]
fn test_multiline_declaration() {
    // The whitespace before the declared value may span multiple lines.
    let mut reader = Reader::from_str("let test =\n  a");
    let mut context = ParserContext::default();
    let declaration =
        VariableDeclaration::parse(&mut reader, &mut context).expect("The parser must succeed");

    assert_eq!(declaration.name().content(), "test", "The name is incorrect");
    assert!(declaration.pre_expression_whitespace().is_multiline());
}

#[test]
fn test_inner_number_error_keeps_both_messages() {
    // A malformed literal after the assign operator records the number's
    // own diagnostic, then the missing-expression diagnostic, in order.
    let mut reader = Reader::from_str("let x = 0b_1");
    let mut context = ParserContext::default();
    let error = VariableDeclaration::parse(&mut reader, &mut context)
        .expect_err("The parser must not succeed");

    assert_eq!(error, ParserResultError::Error, "The error is incorrect");
    assert_eq!(context.messages().len(), 2, "The messages length is incorrect");
    assert_eq!(
        context.messages()[0].id,
        ParserMessageId::Error(ParserError::NumberWithSeparatorAfterPrefix),
        "The inner error is incorrect"
    );
    assert_eq!(
        context.messages()[1].id,
        ParserMessageId::Error(ParserError::MissingExpressionInVariableDeclaration),
        "The outer error is incorrect"
    );
}

#[test]
fn test_unterminated_comment_inside_declaration() {
    // A hard error inside the separating whitespace propagates past the
    // declaration with exactly its own diagnostic.
    let mut reader = Reader::from_str("let #++ x = 1");
    let mut context = ParserContext::default();
    let error = VariableDeclaration::parse(&mut reader, &mut context)
        .expect_err("The parser must not succeed");

    assert_error(&context, &error, ParserError::MultilineCommentWithoutEndToken);
}
