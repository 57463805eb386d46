//! Tests for the reader's position bookkeeping and primitive operations.

use std::sync::Arc;

use parser::reader::Reader;
use parser::text::CharRange;

#[test]
fn test_consume_0() {
    let text = "This\nis\nthe\nfragment";
    let mut reader = Reader::from_str(text);
    reader.consume(0);

    assert_eq!(reader.offset(), 0, "The offset is incorrect");
    assert_eq!(reader.char_offset(), 0, "The char_offset is incorrect");
    assert_eq!(reader.line(), 1, "The line is incorrect");
    assert_eq!(reader.column(), 1, "The column is incorrect");
}

#[test]
fn test_consume() {
    let text = "This\nis\nthe\nfragment";
    let mut reader = Reader::from_str(text);
    reader.consume(2);

    assert_eq!(reader.offset(), 2, "The offset is incorrect");
    assert_eq!(reader.char_offset(), 2, "The char_offset is incorrect");
    assert_eq!(reader.line(), 1, "The line is incorrect");
    assert_eq!(reader.column(), 3, "The column is incorrect");

    reader.consume(3);

    assert_eq!(reader.offset(), 5, "The offset is incorrect");
    assert_eq!(reader.char_offset(), 5, "The char_offset is incorrect");
    assert_eq!(reader.line(), 2, "The line is incorrect");
    assert_eq!(reader.column(), 1, "The column is incorrect");

    reader.consume(2);

    assert_eq!(reader.offset(), 7, "The offset is incorrect");
    assert_eq!(reader.char_offset(), 7, "The char_offset is incorrect");
    assert_eq!(reader.line(), 2, "The line is incorrect");
    assert_eq!(reader.column(), 3, "The column is incorrect");
}

#[test]
fn test_consume_utf_chars() {
    let text = "モスフェト";
    let mut reader = Reader::from_str(text);
    reader.consume(3);

    assert_eq!(reader.offset(), 3, "The offset is incorrect");
    assert_eq!(reader.char_offset(), 1, "The char_offset is incorrect");
    assert_eq!(reader.line(), 1, "The line is incorrect");
    assert_eq!(reader.column(), 2, "The column is incorrect");
}

#[test]
fn test_read() {
    let mut reader = Reader::from_str("test");
    assert_eq!(reader.offset(), 0);

    let result = reader.read("tes");
    assert!(result);
    assert_eq!(reader.offset(), 3);

    let result = reader.read("tes");
    assert!(!result);
    assert_eq!(reader.offset(), 3);
}

#[test]
fn test_read_one_of() {
    let lowercase = [CharRange { start: 'a', end: 'z' }];
    let mut reader = Reader::from_str("te");
    assert_eq!(reader.offset(), 0);

    assert_eq!(reader.read_one_of(&lowercase), Some('t'));
    assert_eq!(reader.offset(), 1);

    assert_eq!(reader.read_one_of(&lowercase), Some('e'));
    assert_eq!(reader.offset(), 2);

    assert_eq!(reader.read_one_of(&lowercase), None);
    assert_eq!(reader.offset(), 2);
}

#[test]
fn test_read_one_or_more_of() {
    let lowercase = [CharRange { start: 'a', end: 'z' }];
    let mut reader = Reader::from_str("this test");

    let result = reader.read_one_or_more_of(&lowercase);
    assert_eq!(result.as_deref(), Some("this"));
    assert_eq!(reader.offset(), 4);

    let result = reader.read_one_or_more_of(&lowercase);
    assert_eq!(result, None);
    assert_eq!(reader.offset(), 4);
}

#[test]
fn test_continues_with() {
    let reader = Reader::from_str("test");
    assert!(reader.continues_with("tes"));
    assert!(!reader.continues_with("this"));
    assert_eq!(reader.offset(), 0);
}

#[test]
fn test_continues_with_one_of() {
    let lowercase = [CharRange { start: 'a', end: 'z' }];
    let uppercase = [CharRange { start: 'A', end: 'Z' }];
    let reader = Reader::from_str("test");

    assert_eq!(reader.continues_with_one_of(&lowercase), Some('t'));
    assert_eq!(reader.continues_with_one_of(&uppercase), None);
    assert_eq!(reader.offset(), 0);
}

#[test]
fn test_continues_with_one_or_more_of() {
    let lowercase = [CharRange { start: 'a', end: 'z' }];
    let uppercase = [CharRange { start: 'A', end: 'Z' }];
    let reader = Reader::from_str("this test");

    assert_eq!(reader.continues_with_one_or_more_of(&lowercase).as_deref(), Some("this"));
    assert_eq!(reader.continues_with_one_or_more_of(&uppercase), None);
    assert_eq!(reader.offset(), 0);
}

#[test]
fn test_read_until() {
    let mut reader = Reader::from_str("one,two,three");

    let scanned = reader.read_until(",", false);
    assert_eq!(scanned.as_deref(), Some("one"));
    assert_eq!(reader.offset(), 3);
    assert!(reader.continues_with(","));

    let scanned = reader.read_until("missing", false);
    assert_eq!(scanned, None);
    assert_eq!(reader.offset(), 3);

    let scanned = reader.read_until("missing", true);
    assert_eq!(scanned.as_deref(), Some(",two,three"));
    assert_eq!(reader.offset(), 13);
}

#[test]
fn test_save_and_restore() {
    let mut reader = Reader::from_str("this test");
    let cursor = reader.save();

    assert_eq!(reader.offset(), 0);
    assert_eq!(cursor.offset(), 0);

    reader.read("th");
    let cursor2 = reader.save();

    assert_eq!(reader.offset(), 2);
    assert_eq!(cursor.offset(), 0);
    assert_eq!(cursor2.offset(), 2);

    reader.restore(cursor);

    assert_eq!(reader.offset(), 0);
    assert_eq!(cursor2.offset(), 2);
}

#[test]
fn test_substring() {
    let mut reader = Reader::from_str("this test");
    reader.read("th");

    let from = reader.save();
    reader.read("is tes");
    let to = reader.save();

    assert_eq!(reader.substring(&from, &to).content(), "is tes");
    assert_eq!(reader.substring(&to, &from).content(), "is tes");
    assert_eq!(reader.substring_to_current(&from).content(), "is tes");
}

#[test]
fn test_remaining_content() {
    let mut reader = Reader::from_str("this test");
    reader.read("this ");

    assert_eq!(reader.remaining_content(), "test");
    assert_eq!(reader.remaining_length(), 4);
    assert_eq!(reader.remaining_char_length(), 4);

    let span = reader.remaining_content_span();
    assert_eq!(span.content(), "test");
}

#[test]
fn test_belongs_to() {
    let reader1 = Reader::from_str("test1");
    let reader2 = Reader::from_str("モスフェト");
    let cursor1 = reader1.save();
    let cursor2 = {
        let mut r = Reader::from_str("モスフェト");
        r.read("モス");
        r.save()
    };

    assert!(cursor1.belongs_to(&reader1));
    assert!(cursor2.belongs_to(&reader2));
    assert!(!cursor2.belongs_to(&reader1));
}

#[test]
fn test_from_content() {
    let content = Arc::new("shared".to_string());
    let reader = Reader::from_content(content.clone());
    assert_eq!(reader.content().as_str(), "shared");
    assert!(reader.file_path().is_none());
}

#[test]
fn test_new_with_file_path() {
    let path = Arc::new("main.mos".to_string());
    let reader = Reader::new(Some(path), Arc::new("let x = 1".to_string()));
    assert_eq!(reader.file_path().as_ref().map(|p| p.as_str()), Some("main.mos"));
}

#[test]
fn test_cursor_manager_restores_on_not_found() {
    let mut reader = Reader::from_str("abc");
    let init_cursor = reader.save();
    reader.read("ab");

    let result: parser::result::ParserResult<u32> =
        parser::result::cursor_manager(&mut reader, init_cursor, Err(parser::result::ParserResultError::NotFound));
    assert!(result.is_err());
    assert_eq!(reader.char_offset(), 0, "NotFound must restore the reader");

    reader.read("ab");
    let result: parser::result::ParserResult<u32> =
        parser::result::cursor_manager(&mut reader, init_cursor, Ok(7));
    assert_eq!(result, Ok(7));
    assert_eq!(reader.char_offset(), 2, "Other outcomes keep the reader in place");
}
