//! Tests for spans and their line-extraction view.

use parser::reader::Reader;
use parser::span::Span;

/// Builds a span of `text` between the two character offsets.
fn span_at(text: &str, from: usize, to: usize) -> Span {
    let mut reader = Reader::from_str(text);
    let start = reader.cursor_at(from).expect("offset inside the text");
    let end = reader.cursor_at(to).expect("offset inside the text");
    reader.restore(start);
    reader.restore(end);
    reader.substring(&start, &end)
}

#[test]
fn test_lines_single_line() {
    let text = "This\nis\nthe\ntest";
    let span = span_at(text, 1, 1);

    assert_eq!(span.lines(), "This", "The lines is incorrect");

    // Check at \n
    let text = "This\nis\nthe\ntest";
    let span = span_at(text, 4, 4);

    assert_eq!(span.lines(), "This", "The lines is incorrect");

    // Check next of \n
    let text = "This\nis\nthe\ntest";
    let span = span_at(text, 5, 5);

    assert_eq!(span.lines(), "is", "The lines is incorrect");
}

#[test]
fn test_lines_multiline() {
    let text = "This\nis\nthe\ntest";
    let span = span_at(text, 5, 8);

    assert_eq!(span.lines(), "is\nthe", "The lines is incorrect");
}

#[test]
fn test_span_views() {
    let text = "one two three";
    let span = span_at(text, 4, 7);

    assert_eq!(span.content(), "two");
    assert_eq!(span.content_before(), "one ");
    assert_eq!(span.content_after(), " three");
    assert_eq!(span.len(), 3);
    assert_eq!(span.char_length(), 3);
    assert_eq!(span.start_cursor().char_offset(), 4);
    assert_eq!(span.end_cursor().char_offset(), 7);
    assert_eq!(span.whole_content().as_str(), text);
}

#[test]
fn test_span_multibyte_lengths() {
    let text = "aモスb";
    let span = span_at(text, 1, 3);

    assert_eq!(span.content(), "モス");
    assert_eq!(span.char_length(), 2);
    assert_eq!(span.len(), 6);
}
