//! Tests for identifiers and keyword recognition.

use parser::context::ParserContext;
use parser::identifier::Identifier;
use parser::node::ParserNode;
use parser::reader::Reader;
use parser::result::ParserResultError;

fn assert_not_found(context: &ParserContext, error: &ParserResultError, messages: usize) {
    assert_eq!(error, &ParserResultError::NotFound, "The error is incorrect");
    assert_eq!(context.messages().len(), messages, "The messages length is incorrect");
}

#[test]
fn test_parse_simple() {
    let mut reader = Reader::from_str("test-rest");
    let mut context = ParserContext::default();
    let identifier = Identifier::parse(&mut reader, &mut context).expect("The parser must succeed");

    assert_eq!(identifier.content(), "test", "The name is incorrect");
}

#[test]
fn test_parse_with_numbers() {
    let mut reader = Reader::from_str("t3st3-rest");
    let mut context = ParserContext::default();
    let identifier = Identifier::parse(&mut reader, &mut context).expect("The parser must succeed");

    assert_eq!(identifier.content(), "t3st3", "The name is incorrect");
}

#[test]
fn test_parse_with_underscores() {
    let mut reader = Reader::from_str("_-rest");
    let mut context = ParserContext::default();
    let identifier = Identifier::parse(&mut reader, &mut context).expect("The parser must succeed");

    assert_eq!(identifier.content(), "_", "The name is incorrect");

    let mut reader = Reader::from_str("___test___32___-rest");
    let mut context = ParserContext::default();
    let identifier = Identifier::parse(&mut reader, &mut context).expect("The parser must succeed");

    assert_eq!(identifier.content(), "___test___32___", "The name is incorrect");
}

#[test]
fn identifier_test_parse_err_not_found() {
    let mut reader = Reader::from_str("23test");
    let mut context = ParserContext::default();
    let error =
        Identifier::parse(&mut reader, &mut context).expect_err("The parser must not succeed");

    assert_not_found(&context, &error, 0);
}

#[test]
fn test_parse_keyword() {
    let mut reader = Reader::from_str("let me test it");
    let mut context = ParserContext::default();
    let result = Identifier::parse_keyword(&mut reader, &mut context, "let");

    assert_eq!(result, true, "The result is incorrect");
}

#[test]
fn test_parse_keyword_err() {
    let mut reader = Reader::from_str("letting me test it");
    let mut context = ParserContext::default();
    let result = Identifier::parse_keyword(&mut reader, &mut context, "let");

    assert_eq!(result, false, "The result is incorrect");
}

#[test]
fn test_parse_keyword_rolls_back() {
    let mut reader = Reader::from_str("letting me test it");
    let mut context = ParserContext::default();
    let result = Identifier::parse_keyword(&mut reader, &mut context, "let");

    assert!(!result);
    assert_eq!(reader.char_offset(), 0, "The reader must be rolled back");
}

#[test]
fn test_identifier_rederivation() {
    // Re-parsing the exact text an identifier span covers yields an equal
    // identifier that spans all of it.
    let mut reader = Reader::from_str("some_name42 = 1");
    let mut context = ParserContext::default();
    let identifier = Identifier::parse(&mut reader, &mut context).expect("The parser must succeed");

    let sub = identifier.content().to_string();
    let mut reader2 = Reader::from_str(&sub);
    let mut context2 = ParserContext::default();
    let again = Identifier::parse(&mut reader2, &mut context2).expect("The parser must succeed");

    assert_eq!(again.content(), identifier.content());
    assert_eq!(reader2.remaining_length(), 0, "The whole substring must be consumed");
}
