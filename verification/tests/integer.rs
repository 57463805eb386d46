//! Tests for integer number literals.

use parser::context::{ParserContext, ParserIgnoreConfig};
use parser::errors::ParserError;
use parser::integer::{IntegerNumber, Radix};
use parser::messages::ParserMessageId;
use parser::node::ParserNode;
use parser::reader::Reader;
use parser::result::ParserResultError;
use parser::warnings::ParserWarning;

const PREFIXES: [&str; 4] = ["0b", "0o", "0d", "0x"];

fn assert_error(context: &ParserContext, error: &ParserResultError, error_type: ParserError) {
    assert_eq!(error, &ParserResultError::Error, "The error is incorrect");
    assert_eq!(context.messages().len(), 1, "The messages length is incorrect");
    assert_eq!(
        context.messages()[0].id,
        ParserMessageId::Error(error_type),
        "The error type is incorrect"
    );
}

fn assert_warning(context: &ParserContext, warning_type: ParserWarning) {
    assert_eq!(context.messages().len(), 1, "The messages length is incorrect");
    assert_eq!(
        context.messages()[0].id,
        ParserMessageId::Warning(warning_type),
        "The warning type is incorrect"
    );
}

#[test]
fn integer_test_parse() {
    // Decimal without prefix.
    let mut reader = Reader::from_str("25/rest");
    let mut context = ParserContext::default();
    let number = IntegerNumber::parse(&mut reader, &mut context).expect("The parser must succeed");

    assert_eq!(number.content(), "25", "The content is incorrect");
    assert_eq!(number.digits().content(), "25", "The digits field is incorrect");
    assert_eq!(number.has_prefix, false, "The has_prefix field is incorrect");
    assert_eq!(number.radix, Radix::Decimal, "The radix field is incorrect");

    // Binary with prefix.
    let mut reader = Reader::from_str("0b10/rest");
    let mut context = ParserContext::default();
    let number = IntegerNumber::parse(&mut reader, &mut context).expect("The parser must succeed");

    assert_eq!(number.content(), "0b10", "The content is incorrect");
    assert_eq!(number.digits().content(), "10", "The digits field is incorrect");
    assert_eq!(number.has_prefix, true, "The has_prefix field is incorrect");
    assert_eq!(number.radix, Radix::Binary, "The radix field is incorrect");

    // Octal with prefix.
    let mut reader = Reader::from_str("0o74/rest");
    let mut context = ParserContext::default();
    let number = IntegerNumber::parse(&mut reader, &mut context).expect("The parser must succeed");

    assert_eq!(number.content(), "0o74", "The content is incorrect");
    assert_eq!(number.digits().content(), "74", "The digits field is incorrect");
    assert_eq!(number.has_prefix, true, "The has_prefix field is incorrect");
    assert_eq!(number.radix, Radix::Octal, "The radix field is incorrect");

    // Decimal with prefix.
    let mut reader = Reader::from_str("0d53/rest");
    let mut context = ParserContext::default();
    let number = IntegerNumber::parse(&mut reader, &mut context).expect("The parser must succeed");

    assert_eq!(number.content(), "0d53", "The content is incorrect");
    assert_eq!(number.digits().content(), "53", "The digits field is incorrect");
    assert_eq!(number.has_prefix, true, "The has_prefix field is incorrect");
    assert_eq!(number.radix, Radix::Decimal, "The radix field is incorrect");

    // Hexadecimal with prefix.
    let mut reader = Reader::from_str("0x123/rest");
    let mut context = ParserContext::default();
    let number = IntegerNumber::parse(&mut reader, &mut context).expect("The parser must succeed");

    assert_eq!(number.content(), "0x123", "The content is incorrect");
    assert_eq!(number.digits().content(), "123", "The digits field is incorrect");
    assert_eq!(number.has_prefix, true, "The has_prefix field is incorrect");
    assert_eq!(number.radix, Radix::Hexadecimal, "The radix field is incorrect");
}

#[test]
fn test_parse_binary() {
    let mut reader = Reader::from_str("1010101010/rest");
    let mut context = ParserContext::default();
    let number =
        IntegerNumber::parse_binary(&mut reader, &mut context).expect("The parser must succeed");

    assert_eq!(number.content(), "1010101010", "The content is incorrect");
    assert_eq!(number.digits().content(), "1010101010", "The digits field is incorrect");
    assert_eq!(number.has_prefix, false, "The has_prefix field is incorrect");
    assert_eq!(number.radix, Radix::Binary, "The radix field is incorrect");
}

#[test]
fn test_parse_binary_with_underscores() {
    let mut reader = Reader::from_str("101_01_____0101____0/rest");
    let mut context = ParserContext::default();
    let number =
        IntegerNumber::parse_binary(&mut reader, &mut context).expect("The parser must succeed");

    assert_eq!(number.content(), "101_01_____0101____0", "The content is incorrect");
    assert_eq!(number.digits().content(), "101_01_____0101____0", "The digits field is incorrect");
    assert_eq!(number.has_prefix, false, "The has_prefix field is incorrect");
    assert_eq!(number.radix, Radix::Binary, "The radix field is incorrect");
}

#[test]
fn test_parse_octal() {
    let mut reader = Reader::from_str("12345670/rest");
    let mut context = ParserContext::default();
    let number =
        IntegerNumber::parse_octal(&mut reader, &mut context).expect("The parser must succeed");

    assert_eq!(number.content(), "12345670", "The content is incorrect");
    assert_eq!(number.digits().content(), "12345670", "The digits field is incorrect");
    assert_eq!(number.has_prefix, false, "The has_prefix field is incorrect");
    assert_eq!(number.radix, Radix::Octal, "The radix field is incorrect");
}

#[test]
fn test_parse_octal_with_underscores() {
    let mut reader = Reader::from_str("12_34_____56___70/rest");
    let mut context = ParserContext::default();
    let number =
        IntegerNumber::parse_octal(&mut reader, &mut context).expect("The parser must succeed");

    assert_eq!(number.content(), "12_34_____56___70", "The content is incorrect");
    assert_eq!(number.digits().content(), "12_34_____56___70", "The digits field is incorrect");
    assert_eq!(number.has_prefix, false, "The has_prefix field is incorrect");
    assert_eq!(number.radix, Radix::Octal, "The radix field is incorrect");
}

#[test]
fn test_parse_decimal() {
    let mut reader = Reader::from_str("1234567890/rest");
    let mut context = ParserContext::default();
    let number =
        IntegerNumber::parse_decimal(&mut reader, &mut context).expect("The parser must succeed");

    assert_eq!(number.content(), "1234567890", "The content is incorrect");
    assert_eq!(number.digits().content(), "1234567890", "The digits field is incorrect");
    assert_eq!(number.has_prefix, false, "The has_prefix field is incorrect");
    assert_eq!(number.radix, Radix::Decimal, "The radix field is incorrect");
}

#[test]
fn test_parse_decimal_with_underscores() {
    let mut reader = Reader::from_str("1_234_____567___890/rest");
    let mut context = ParserContext::default();
    let number =
        IntegerNumber::parse_decimal(&mut reader, &mut context).expect("The parser must succeed");

    assert_eq!(number.content(), "1_234_____567___890", "The content is incorrect");
    assert_eq!(number.digits().content(), "1_234_____567___890", "The digits field is incorrect");
    assert_eq!(number.has_prefix, false, "The has_prefix field is incorrect");
    assert_eq!(number.radix, Radix::Decimal, "The radix field is incorrect");
}

#[test]
fn test_parse_hexadecimal() {
    let mut reader = Reader::from_str("1234567890abcdefABCDEF/rest");
    let mut context = ParserContext::default();
    let number = IntegerNumber::parse_hexadecimal(&mut reader, &mut context)
        .expect("The parser must succeed");

    assert_eq!(number.content(), "1234567890abcdefABCDEF", "The content is incorrect");
    assert_eq!(
        number.digits().content(),
        "1234567890abcdefABCDEF",
        "The digits field is incorrect"
    );
    assert_eq!(number.has_prefix, false, "The has_prefix field is incorrect");
    assert_eq!(number.radix, Radix::Hexadecimal, "The radix field is incorrect");
}

#[test]
fn test_parse_hexadecimal_with_underscores() {
    let mut reader = Reader::from_str("12_345678______90ab____cdefA____BCDEF/rest");
    let mut context = ParserContext::default();
    let number = IntegerNumber::parse_hexadecimal(&mut reader, &mut context)
        .expect("The parser must succeed");

    assert_eq!(
        number.content(),
        "12_345678______90ab____cdefA____BCDEF",
        "The content is incorrect"
    );
    assert_eq!(
        number.digits().content(),
        "12_345678______90ab____cdefA____BCDEF",
        "The digits field is incorrect"
    );
    assert_eq!(number.has_prefix, false, "The has_prefix field is incorrect");
    assert_eq!(number.radix, Radix::Hexadecimal, "The radix field is incorrect");
}

#[test]
fn test_number_with_separator_after_prefix() {
    for prefix in &PREFIXES {
        let mut reader = Reader::from_str(format!("{}{}", prefix, '_').as_str());
        let mut context = ParserContext::default();
        let error =
            IntegerNumber::parse(&mut reader, &mut context).expect_err("The parser must not succeed");

        assert_error(&context, &error, ParserError::NumberWithSeparatorAfterPrefix);
    }
}

#[test]
fn test_number_without_digits_after_prefix() {
    for prefix in &PREFIXES {
        let mut reader = Reader::from_str(prefix);
        let mut context = ParserContext::default();
        let error =
            IntegerNumber::parse(&mut reader, &mut context).expect_err("The parser must not succeed");

        assert_error(&context, &error, ParserError::NumberWithoutDigitsAfterPrefix);
    }
}

#[test]
fn test_warning_leading_zeroes() {
    let mut reader = Reader::from_str("000");
    let mut context = ParserContext::default();
    IntegerNumber::parse(&mut reader, &mut context).expect("The parser must succeed");

    assert_warning(&context, ParserWarning::NumberWithLeadingZeroes);

    for prefix in &PREFIXES {
        let mut reader = Reader::from_str(format!("{}00", prefix).as_str());
        let mut context = ParserContext::default();
        IntegerNumber::parse(&mut reader, &mut context).expect("The parser must succeed");

        assert_warning(&context, ParserWarning::NumberWithLeadingZeroes);
    }
}

#[test]
fn test_ignore_warning_leading_zeroes() {
    let mut reader = Reader::from_str("000");
    let mut ignore = ParserIgnoreConfig::new();
    ignore.number_leading_zeroes = true;

    let mut context = ParserContext::new(ignore);
    IntegerNumber::parse(&mut reader, &mut context).expect("The parser must succeed");

    assert_eq!(context.messages().len(), 0, "There must no be messages");
}

#[test]
fn test_warning_leading_zeroes_ignores_ok_numbers() {
    for number in &["0", "1", "10101"] {
        let mut reader = Reader::from_str(number);
        let mut context = ParserContext::default();
        IntegerNumber::parse(&mut reader, &mut context).expect("The parser must succeed");

        assert_eq!(context.messages().len(), 0, "There must no be messages");

        for prefix in &PREFIXES {
            let mut reader = Reader::from_str(format!("{}{}", prefix, number).as_str());
            let mut context = ParserContext::default();
            IntegerNumber::parse(&mut reader, &mut context).expect("The parser must succeed");

            assert_eq!(context.messages().len(), 0, "There must no be messages");
        }
    }
}
