//! Tests for whole-file parsing.

use parser::context::ParserContext;
use parser::errors::ParserError;
use parser::file::MosfetFile;
use parser::messages::ParserMessageId;
use parser::reader::Reader;
use parser::result::ParserResultError;

fn assert_error(context: &ParserContext, error: &ParserResultError, error_type: ParserError) {
    assert_eq!(error, &ParserResultError::Error, "The error is incorrect");
    assert_eq!(context.messages().len(), 1, "The messages length is incorrect");
    assert_eq!(
        context.messages()[0].id,
        ParserMessageId::Error(error_type),
        "The error type is incorrect"
    );
}

#[test]
fn test_parse_empty() {
    let mut reader = Reader::from_str("");
    let mut context = ParserContext::default();
    let mosfet_file = MosfetFile::parse(&mut reader, &mut context).expect("The parser must succeed");

    assert_eq!(mosfet_file.statements().len(), 0, "The statement length is incorrect");
}

#[test]
fn test_parse_blank() {
    let mut reader = Reader::from_str("   \t \t \n\r\n    \t \t ");
    let mut context = ParserContext::default();
    let mosfet_file = MosfetFile::parse(&mut reader, &mut context).expect("The parser must succeed");

    assert_eq!(mosfet_file.statements().len(), 0, "The statement length is incorrect");
}

#[test]
fn test_parse_statement() {
    let mut reader = Reader::from_str(" \t  let x = 3   \n\n");
    let mut context = ParserContext::default();
    let mosfet_file = MosfetFile::parse(&mut reader, &mut context).expect("The parser must succeed");

    assert_eq!(mosfet_file.statements().len(), 1, "The statement length is incorrect");
}

#[test]
fn test_parse_many_statements() {
    let mut reader = Reader::from_str(" \t  let x = 3   \n let x = 3\nlet x = 3");
    let mut context = ParserContext::default();
    let mosfet_file = MosfetFile::parse(&mut reader, &mut context).expect("The parser must succeed");

    assert_eq!(mosfet_file.statements().len(), 3, "The statement length is incorrect");
}

#[test]
fn test_parse_err_eof_before_first_statement() {
    let mut reader = Reader::from_str(" \n t");
    let mut context = ParserContext::default();
    let error =
        MosfetFile::parse(&mut reader, &mut context).expect_err("The parser must not succeed");

    assert_error(&context, &error, ParserError::NotAMosfetFile);
}

#[test]
fn test_parse_err_eof_after_first_statement() {
    let mut reader = Reader::from_str("let x = 3 t");
    let mut context = ParserContext::default();
    let error =
        MosfetFile::parse(&mut reader, &mut context).expect_err("The parser must not succeed");

    assert_error(&context, &error, ParserError::ExpectedEOFInFile);
}

#[test]
fn test_parse_err_two_statements_same_line() {
    let mut reader = Reader::from_str("let x = 3 let y = 4");
    let mut context = ParserContext::default();
    let error =
        MosfetFile::parse(&mut reader, &mut context).expect_err("The parser must not succeed");

    assert_error(&context, &error, ParserError::TwoStatementsInSameLineInFile);
}

#[test]
fn test_file_span_covers_whole_input() {
    let text = " \t  let x = 3   \n let y = 4\n";
    let mut reader = Reader::from_str(text);
    let mut context = ParserContext::default();
    let mosfet_file = MosfetFile::parse(&mut reader, &mut context).expect("The parser must succeed");

    assert_eq!(mosfet_file.span().content(), text, "The file span must cover the input");
}

#[test]
fn test_file_statement_spans_reconstruct_input() {
    // Concatenating the statement spans with the whitespace between them
    // reconstructs the original input exactly.
    let text = "let x = 3\n  return x\n";
    let mut reader = Reader::from_str(text);
    let mut context = ParserContext::default();
    let mosfet_file = MosfetFile::parse(&mut reader, &mut context).expect("The parser must succeed");

    let mut rebuilt = String::new();
    let mut position = 0usize;
    for statement in mosfet_file.statements() {
        let span = statement.span();
        let start = span.start_cursor().char_offset();
        rebuilt.push_str(&text.chars().skip(position).take(start - position).collect::<String>());
        rebuilt.push_str(span.content());
        position = span.end_cursor().char_offset();
    }
    rebuilt.push_str(&text.chars().skip(position).collect::<String>());
    assert_eq!(rebuilt, text, "The spans must reconstruct the input");
}

#[test]
fn test_file_unterminated_comment_is_hard_error() {
    let mut reader = Reader::from_str("#++ never closed");
    let mut context = ParserContext::default();
    let error =
        MosfetFile::parse(&mut reader, &mut context).expect_err("The parser must not succeed");

    assert_error(&context, &error, ParserError::MultilineCommentWithoutEndToken);
}

#[test]
fn test_file_warning_does_not_stop_parse() {
    let mut reader = Reader::from_str("let x = 007\n");
    let mut context = ParserContext::default();
    let mosfet_file = MosfetFile::parse(&mut reader, &mut context).expect("The parser must succeed");

    assert_eq!(mosfet_file.statements().len(), 1, "The statement length is incorrect");
    assert_eq!(context.messages().len(), 1, "The messages length is incorrect");
    assert_eq!(
        context.messages()[0].id,
        ParserMessageId::Warning(parser::warnings::ParserWarning::NumberWithLeadingZeroes),
        "The warning type is incorrect"
    );
}

#[test]
fn files_test_parse_empty() {
    let mut reader = Reader::from_str("");
    let mut context = ParserContext::default();
    let mosfet_file = MosfetFile::parse(&mut reader, &mut context).expect("The parser must succeed");

    assert_eq!(mosfet_file.statements().len(), 0, "The statement length is incorrect");
}

#[test]
fn files_test_parse_blank() {
    let mut reader = Reader::from_str("   \t \t \n\r\n    \t \t ");
    let mut context = ParserContext::default();
    let mosfet_file = MosfetFile::parse(&mut reader, &mut context).expect("The parser must succeed");

    assert_eq!(mosfet_file.statements().len(), 0, "The statement length is incorrect");
}

#[test]
fn files_test_parse_statement() {
    let mut reader = Reader::from_str(" \t  let x = 3   \n\n");
    let mut context = ParserContext::default();
    let mosfet_file = MosfetFile::parse(&mut reader, &mut context).expect("The parser must succeed");

    assert_eq!(mosfet_file.statements().len(), 1, "The statement length is incorrect");
}

#[test]
fn files_test_parse_many_statements() {
    let mut reader = Reader::from_str(" \t  let x = 3   \n let x = 3\nlet x = 3");
    let mut context = ParserContext::default();
    let mosfet_file = MosfetFile::parse(&mut reader, &mut context).expect("The parser must succeed");

    assert_eq!(mosfet_file.statements().len(), 3, "The statement length is incorrect");
}
