//! Tests for literals and expressions.

use parser::context::ParserContext;
use parser::expressions::Expression;
use parser::literals::Literal;
use parser::node::ParserNode;
use parser::reader::Reader;
use parser::result::ParserResultError;

#[test]
fn literals_test_parse_err_not_found() {
    let mut reader = Reader::from_str("-");
    let mut context = ParserContext::default();
    let error = Literal::parse(&mut reader, &mut context).expect_err("The parser must not succeed");

    assert_eq!(error, ParserResultError::NotFound, "The error is incorrect");
    assert_eq!(reader.offset(), 0, "The offset is incorrect");
}

#[test]
fn test_parse_literal_number() {
    let mut reader = Reader::from_str("25/rest");
    let mut context = ParserContext::default();
    let literal = Literal::parse(&mut reader, &mut context).expect("The parser must succeed");

    let Literal::Number(number) = literal;
    assert_eq!(number.content(), "25", "The span is incorrect");
}

#[test]
fn mod_test_parse_variable_access() {
    let mut reader = Reader::from_str("name/rest");
    let mut context = ParserContext::default();
    let expression =
        Expression::parse(&mut reader, &mut context).expect("The parser must succeed");

    if let Expression::VariableAccess(identifier) = expression {
        assert_eq!(identifier.content(), "name", "The name is incorrect");
    } else {
        panic!("The literal is incorrect");
    }
}

#[test]
fn mod_test_parse_err_not_found() {
    let mut reader = Reader::from_str("-");
    let mut context = ParserContext::default();
    let error =
        Expression::parse(&mut reader, &mut context).expect_err("The parser must not succeed");

    assert_eq!(error, ParserResultError::NotFound, "The error is incorrect");
    assert_eq!(reader.offset(), 0, "The offset is incorrect");
}

#[test]
fn test_parse_expression_literal() {
    let mut reader = Reader::from_str("0x1F end");
    let mut context = ParserContext::default();
    let expression =
        Expression::parse(&mut reader, &mut context).expect("The parser must succeed");

    if let Expression::Literal(Literal::Number(number)) = expression {
        assert_eq!(number.content(), "0x1F", "The literal is incorrect");
    } else {
        panic!("The literal is incorrect");
    }
}
