//! Tests for number literals with fractional parts.

use parser::context::{ParserContext, ParserIgnoreConfig};
use parser::integer::{IntegerNumber, Radix};
use parser::messages::ParserMessageId;
use parser::node::ParserNode;
use parser::numbers::Number;
use parser::reader::Reader;
use parser::warnings::ParserWarning;

const PREFIXES: [&str; 4] = ["0b", "0o", "0d", "0x"];

fn assert_warning(context: &ParserContext, warning_type: ParserWarning) {
    assert_eq!(context.messages().len(), 1, "The messages length is incorrect");
    assert_eq!(
        context.messages()[0].id,
        ParserMessageId::Warning(warning_type),
        "The warning type is incorrect"
    );
}

#[test]
fn test_warning_trailing_zeroes() {
    let mut reader = Reader::from_str("0.00");
    let mut context = ParserContext::default();
    Number::parse(&mut reader, &mut context).expect("The parser must succeed");

    assert_warning(&context, ParserWarning::NumberWithTrailingZeroes);

    for prefix in &PREFIXES {
        let mut reader = Reader::from_str(format!("{}0.000", prefix).as_str());
        let mut context = ParserContext::default();
        Number::parse(&mut reader, &mut context).expect("The parser must succeed");

        assert_warning(&context, ParserWarning::NumberWithTrailingZeroes);
    }
}

#[test]
fn test_ignore_warning_trailing_zeroes() {
    let mut reader = Reader::from_str("0.00");
    let mut ignore = ParserIgnoreConfig::new();
    ignore.number_trailing_zeroes = true;

    let mut context = ParserContext::new(ignore);
    Number::parse(&mut reader, &mut context).expect("The parser must succeed");

    assert_eq!(context.messages().len(), 0, "There must no be messages");
}

#[test]
fn test_warning_trailing_zeroes_ignores_0() {
    for number in &["0.0", "1.1", "10101.10101"] {
        let mut reader = Reader::from_str(number);
        let mut context = ParserContext::default();
        Number::parse(&mut reader, &mut context).expect("The parser must succeed");

        assert_eq!(context.messages().len(), 0, "There must no be messages");

        for prefix in &PREFIXES {
            let mut reader = Reader::from_str(format!("{}{}", prefix, number).as_str());
            let mut context = ParserContext::default();
            IntegerNumber::parse(&mut reader, &mut context).expect("The parser must succeed");

            assert_eq!(context.messages().len(), 0, "There must no be messages");
        }
    }
}

#[test]
fn test_parse_number_with_fraction() {
    let mut reader = Reader::from_str("12.34/rest");
    let mut context = ParserContext::default();
    let number = Number::parse(&mut reader, &mut context).expect("The parser must succeed");

    assert_eq!(number.content(), "12.34", "The content is incorrect");
    assert_eq!(number.integer_digits().content(), "12", "The integer digits are incorrect");
    assert_eq!(
        number.decimal_digits().as_ref().map(|d| d.content()),
        Some("34"),
        "The decimal digits are incorrect"
    );
    assert_eq!(number.radix(), &Radix::Decimal, "The radix is incorrect");
    assert!(!number.has_prefix(), "The has_prefix is incorrect");
}

#[test]
fn test_parse_number_dot_without_digits() {
    // A '.' not directly followed by a digit stays unconsumed.
    let mut reader = Reader::from_str("12.x");
    let mut context = ParserContext::default();
    let number = Number::parse(&mut reader, &mut context).expect("The parser must succeed");

    assert_eq!(number.content(), "12", "The content is incorrect");
    assert!(number.decimal_digits().is_none(), "The decimal digits must be absent");
    assert_eq!(reader.char_offset(), 2, "The reader must stop before the dot");
}

#[test]
fn test_parse_number_hexadecimal_fraction() {
    let mut reader = Reader::from_str("0xA.Fe_1 rest");
    let mut context = ParserContext::default();
    let number = Number::parse(&mut reader, &mut context).expect("The parser must succeed");

    assert_eq!(number.content(), "0xA.Fe_1", "The content is incorrect");
    assert_eq!(number.prefix_str(), "0x", "The prefix is incorrect");
    assert_eq!(
        number.decimal_digits().as_ref().map(|d| d.content()),
        Some("Fe_1"),
        "The decimal digits are incorrect"
    );
}

#[test]
fn test_number_rederivation() {
    // Re-parsing the exact text a number span covers yields an equal
    // number.
    let mut reader = Reader::from_str("0b10_1.0_1 rest");
    let mut context = ParserContext::default();
    let number = Number::parse(&mut reader, &mut context).expect("The parser must succeed");

    let sub = number.content().to_string();
    let mut reader2 = Reader::from_str(&sub);
    let mut context2 = ParserContext::default();
    let again = Number::parse(&mut reader2, &mut context2).expect("The parser must succeed");

    assert_eq!(again.content(), number.content());
    assert_eq!(again.integer_digits().content(), number.integer_digits().content());
    assert_eq!(
        again.decimal_digits().as_ref().map(|d| d.content()),
        number.decimal_digits().as_ref().map(|d| d.content())
    );
    assert_eq!(again.radix(), number.radix());
    assert_eq!(reader2.remaining_length(), 0, "The whole substring must be consumed");
}
