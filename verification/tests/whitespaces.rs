//! Tests for whitespace composites.

use parser::context::ParserContext;
use parser::errors::ParserError;
use parser::messages::ParserMessageId;
use parser::reader::Reader;
use parser::result::ParserResultError;
use parser::whitespaces::{
    multiline_whitespace_chars, whitespace_chars, Whitespace, WhitespaceElement,
};

#[test]
fn whitespaces_test_parse_inline() {
    let mut reader = Reader::from_str("  \t\t\t  \t\n");
    let mut context = ParserContext::default();
    let whitespace =
        Whitespace::parse_inline(&mut reader, &mut context).expect("The parser must succeed");

    assert_eq!(whitespace.span.content(), "  \t\t\t  \t", "The content is incorrect");
    assert_eq!(whitespace.is_multiline, false, "The is_multiline is incorrect");
    assert_eq!(whitespace.elements.len(), 1, "The elements.len is incorrect");

    match &whitespace.elements[0] {
        WhitespaceElement::Whitespace(v) => {
            assert_eq!(v.content(), "  \t\t\t  \t", "The element is incorrect");
        },
        WhitespaceElement::Comment(_) => panic!("Incorrect element type"),
    }
}

#[test]
fn test_parse_inline_exhaustive() {
    for char_range in whitespace_chars() {
        for char in char_range.start..=char_range.end {
            let text = format!("{}", char);
            let mut reader = Reader::from_str(text.as_str());
            let mut context = ParserContext::default();
            let whitespace = Whitespace::parse_inline(&mut reader, &mut context)
                .expect("The parser must succeed");

            assert_eq!(whitespace.span.content(), text.as_str(), "The content is incorrect");
            assert_eq!(whitespace.is_multiline, false, "The is_multiline is incorrect");
            assert_eq!(whitespace.elements.len(), 1, "The elements.len is incorrect");

            match &whitespace.elements[0] {
                WhitespaceElement::Whitespace(v) => {
                    assert_eq!(v.content(), text.as_str(), "The element is incorrect");
                },
                WhitespaceElement::Comment(_) => panic!("Incorrect element type"),
            }
        }
    }
}

#[test]
fn test_parse_inline_with_comments() {
    let mut reader = Reader::from_str("  #+multiline\ncomment+##++#  test");
    let mut context = ParserContext::default();
    let whitespace =
        Whitespace::parse_inline(&mut reader, &mut context).expect("The parser must succeed");

    assert_eq!(
        whitespace.span.content(),
        "  #+multiline\ncomment+##++#  ",
        "The content is incorrect"
    );
    assert_eq!(whitespace.is_multiline, true, "The is_multiline is incorrect");
    assert_eq!(whitespace.elements.len(), 4, "The elements.len is incorrect");

    match &whitespace.elements[0] {
        WhitespaceElement::Whitespace(v) => {
            assert_eq!(v.content(), "  ", "The element[0] is incorrect");
        },
        WhitespaceElement::Comment(_) => panic!("Incorrect element type for 0"),
    }

    match &whitespace.elements[1] {
        WhitespaceElement::Whitespace(_) => panic!("Incorrect element type for 1"),
        WhitespaceElement::Comment(v) => {
            assert_eq!(v.span.content(), "#+multiline\ncomment+#", "The element[1] is incorrect");
        },
    }

    match &whitespace.elements[2] {
        WhitespaceElement::Whitespace(_) => panic!("Incorrect element type for 2"),
        WhitespaceElement::Comment(v) => {
            assert_eq!(v.span.content(), "#++#", "The element[1] is incorrect");
        },
    }

    match &whitespace.elements[3] {
        WhitespaceElement::Whitespace(v) => {
            assert_eq!(v.content(), "  ", "The element[3] is incorrect");
        },
        WhitespaceElement::Comment(_) => panic!("Incorrect element type for 3"),
    }
}

#[test]
fn test_parse_multiline_without_jump_lines() {
    let mut reader = Reader::from_str("  \t\t\t  \t-rest");
    let mut context = ParserContext::default();
    let whitespace =
        Whitespace::parse_multiline(&mut reader, &mut context).expect("The parser must succeed");

    assert_eq!(whitespace.span.content(), "  \t\t\t  \t", "The content is incorrect");
    assert_eq!(whitespace.is_multiline, false, "The is_multiline is incorrect");
    assert_eq!(whitespace.elements.len(), 1, "The elements.len is incorrect");

    match &whitespace.elements[0] {
        WhitespaceElement::Whitespace(v) => {
            assert_eq!(v.content(), "  \t\t\t  \t", "The element is incorrect");
        },
        WhitespaceElement::Comment(_) => panic!("Incorrect element type"),
    }
}

#[test]
fn test_parse_multiline_with_jump_lines() {
    let mut reader = Reader::from_str("\n\n \r\n \t\t\n\t \r \t-rest");
    let mut context = ParserContext::default();
    let whitespace =
        Whitespace::parse_multiline(&mut reader, &mut context).expect("The parser must succeed");

    assert_eq!(whitespace.span.content(), "\n\n \r\n \t\t\n\t \r \t", "The content is incorrect");
    assert_eq!(whitespace.is_multiline, true, "The is_multiline is incorrect");
    assert_eq!(whitespace.elements.len(), 1, "The elements.len is incorrect");

    match &whitespace.elements[0] {
        WhitespaceElement::Whitespace(v) => {
            assert_eq!(v.content(), "\n\n \r\n \t\t\n\t \r \t", "The element is incorrect");
        },
        WhitespaceElement::Comment(_) => panic!("Incorrect element type"),
    }
}

#[test]
fn test_parse_multiline_exhaustive() {
    for char_range in whitespace_chars() {
        for char in char_range.start..=char_range.end {
            let text = format!("{}", char);
            let mut reader = Reader::from_str(text.as_str());
            let mut context = ParserContext::default();
            let whitespace = Whitespace::parse_multiline(&mut reader, &mut context)
                .expect("The parser must succeed");

            assert_eq!(whitespace.span.content(), text.as_str(), "The content is incorrect");
            assert_eq!(whitespace.is_multiline, false, "The is_multiline is incorrect");
            assert_eq!(whitespace.elements.len(), 1, "The elements.len is incorrect");

            match &whitespace.elements[0] {
                WhitespaceElement::Whitespace(v) => {
                    assert_eq!(v.content(), text.as_str(), "The element is incorrect");
                },
                WhitespaceElement::Comment(_) => panic!("Incorrect element type"),
            }
        }
    }

    for char_range in multiline_whitespace_chars() {
        for char in char_range.start..=char_range.end {
            let text = format!("{}", char);
            let mut reader = Reader::from_str(text.as_str());
            let mut context = ParserContext::default();
            let whitespace = Whitespace::parse_multiline(&mut reader, &mut context)
                .expect("The parser must succeed");

            assert_eq!(whitespace.span.content(), text.as_str(), "The content is incorrect");
            assert_eq!(whitespace.is_multiline, true, "The is_multiline is incorrect");
            assert_eq!(whitespace.elements.len(), 1, "The elements.len is incorrect");

            match &whitespace.elements[0] {
                WhitespaceElement::Whitespace(v) => {
                    assert_eq!(v.content(), text.as_str(), "The element is incorrect");
                },
                WhitespaceElement::Comment(_) => panic!("Incorrect element type"),
            }
        }
    }
}

#[test]
fn test_parse_multiline_with_comments() {
    let mut reader = Reader::from_str("  #+multiline\ncomment+## test\n x");
    let mut context = ParserContext::default();
    let whitespace =
        Whitespace::parse_multiline(&mut reader, &mut context).expect("The parser must succeed");

    assert_eq!(
        whitespace.span.content(),
        "  #+multiline\ncomment+## test\n ",
        "The content is incorrect"
    );
    assert_eq!(whitespace.is_multiline, true, "The is_multiline is incorrect");
    assert_eq!(whitespace.elements.len(), 4, "The elements.len is incorrect");

    match &whitespace.elements[0] {
        WhitespaceElement::Whitespace(v) => {
            assert_eq!(v.content(), "  ", "The element[0] is incorrect");
        },
        WhitespaceElement::Comment(_) => panic!("Incorrect element type for 0"),
    }

    match &whitespace.elements[1] {
        WhitespaceElement::Whitespace(_) => panic!("Incorrect element type for 1"),
        WhitespaceElement::Comment(v) => {
            assert_eq!(v.span.content(), "#+multiline\ncomment+#", "The element[1] is incorrect");
        },
    }

    match &whitespace.elements[2] {
        WhitespaceElement::Whitespace(_) => panic!("Incorrect element type for 2"),
        WhitespaceElement::Comment(v) => {
            assert_eq!(v.span.content(), "# test", "The element[1] is incorrect");
        },
    }

    match &whitespace.elements[3] {
        WhitespaceElement::Whitespace(v) => {
            assert_eq!(v.content(), "\n ", "The element[3] is incorrect");
        },
        WhitespaceElement::Comment(_) => panic!("Incorrect element type for 3"),
    }
}

#[test]
fn test_whitespace_elements_tile_span() {
    // Concatenating the element contents reconstructs the composite's
    // exact input slice.
    let mut reader = Reader::from_str("  #+one+# \t #+two\nlines+#  x");
    let mut context = ParserContext::default();
    let whitespace =
        Whitespace::parse_multiline(&mut reader, &mut context).expect("The parser must succeed");

    let mut rebuilt = String::new();
    for element in whitespace.elements() {
        match element {
            WhitespaceElement::Whitespace(v) => rebuilt.push_str(v.content()),
            WhitespaceElement::Comment(c) => rebuilt.push_str(c.span.content()),
        }
    }
    assert_eq!(rebuilt, whitespace.span.content(), "The elements must tile the span");
}

#[test]
fn test_whitespace_error_records_one_message() {
    let mut reader = Reader::from_str("  #++ never closed");
    let mut context = ParserContext::default();
    let error = Whitespace::parse_multiline(&mut reader, &mut context)
        .expect_err("The parser must not succeed");

    assert_eq!(error, ParserResultError::Error, "The error is incorrect");
    assert_eq!(context.messages().len(), 1, "The messages length is incorrect");
    assert_eq!(
        context.messages()[0].id,
        ParserMessageId::Error(ParserError::MultilineCommentWithoutEndToken),
        "The error type is incorrect"
    );
}
