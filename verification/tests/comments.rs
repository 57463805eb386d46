//! Tests for single-line and multiline comments.

use parser::comments::Comment;
use parser::context::ParserContext;
use parser::errors::ParserError;
use parser::messages::ParserMessageId;
use parser::reader::Reader;
use parser::result::ParserResultError;

fn assert_not_found(context: &ParserContext, error: &ParserResultError, messages: usize) {
    assert_eq!(error, &ParserResultError::NotFound, "The error is incorrect");
    assert_eq!(context.messages().len(), messages, "The messages length is incorrect");
}

fn assert_error(context: &ParserContext, error: &ParserResultError, error_type: ParserError) {
    assert_eq!(error, &ParserResultError::Error, "The error is incorrect");
    assert_eq!(context.messages().len(), 1, "The messages length is incorrect");
    assert_eq!(
        context.messages()[0].id,
        ParserMessageId::Error(error_type),
        "The error type is incorrect"
    );
}

#[test]
fn comments_test_parse_inline() {
    let mut reader = Reader::from_str("# This is a comment\n");
    let mut context = ParserContext::default();
    let comment = Comment::parse_inline(&mut reader, &mut context).expect("The parser must succeed");

    assert_eq!(comment.span.content(), "# This is a comment", "The content is incorrect");
    assert_eq!(comment.is_multiline_type, false, "The is_multiline_type is incorrect");
    assert_eq!(comment.message.content(), "This is a comment", "The message is incorrect");
    assert_eq!(comment.repeated_tokens, 0, "The repeated_tokens is incorrect");
}

#[test]
fn test_parse_inline_till_end() {
    let mut reader = Reader::from_str("# This is a comment");
    let mut context = ParserContext::default();
    let comment = Comment::parse_inline(&mut reader, &mut context).expect("The parser must succeed");

    assert_eq!(comment.span.content(), "# This is a comment", "The content is incorrect");
    assert_eq!(comment.is_multiline_type, false, "The is_multiline_type is incorrect");
    assert_eq!(comment.message.content(), "This is a comment", "The message is incorrect");
    assert_eq!(comment.repeated_tokens, 0, "The repeated_tokens is incorrect");
}

#[test]
fn test_parse_inline_not_found() {
    for content in &["", "#", "#This is a comment"] {
        let mut reader = Reader::from_str(content);
        let mut context = ParserContext::default();
        let error = Comment::parse_inline(&mut reader, &mut context)
            .expect_err("The parser must not succeed");

        assert_not_found(&context, &error, 0);
    }
}

#[test]
fn test_parse_multiline() {
    let mut reader = Reader::from_str("#+This is a\n # + comment+#");
    let mut context = ParserContext::default();
    let comment =
        Comment::parse_multiline(&mut reader, &mut context).expect("The parser must succeed");

    assert_eq!(comment.span.content(), "#+This is a\n # + comment+#", "The content is incorrect");
    assert_eq!(comment.is_multiline_type, true, "The is_multiline_type is incorrect");
    assert_eq!(comment.message.content(), "This is a\n # + comment", "The message is incorrect");
    assert_eq!(comment.repeated_tokens, 1, "The repeated_tokens is incorrect");
}

#[test]
fn test_parse_multiline_many_tokens() {
    let mut reader = Reader::from_str("#+++This is a ++# +# # + comment++++#");
    let mut context = ParserContext::default();
    let comment =
        Comment::parse_multiline(&mut reader, &mut context).expect("The parser must succeed");

    assert_eq!(
        comment.span.content(),
        "#+++This is a ++# +# # + comment++++#",
        "The content is incorrect"
    );
    assert_eq!(comment.is_multiline_type, true, "The is_multiline_type is incorrect");
    assert_eq!(
        comment.message.content(),
        "This is a ++# +# # + comment+",
        "The message is incorrect"
    );
    assert_eq!(comment.repeated_tokens, 3, "The repeated_tokens is incorrect");
}

#[test]
fn test_parse_multiline_immediately_closed() {
    for content in &["#+#", "#++#", "#+++#"] {
        let mut reader = Reader::from_str(content);
        let mut context = ParserContext::default();
        let comment =
            Comment::parse_multiline(&mut reader, &mut context).expect("The parser must succeed");

        assert_eq!(comment.span.content(), *content, "The content is incorrect");
        assert_eq!(comment.is_multiline_type, true, "The is_multiline_type is incorrect");
        assert_eq!(comment.message.content(), "", "The message is incorrect");
        assert_eq!(comment.repeated_tokens, content.len() - 2, "The repeated_tokens is incorrect");
        assert!(comment.immediately_closed());
    }
}

#[test]
fn test_parse_multiline_not_found() {
    for content in &["", "#", "#This is a comment"] {
        let mut reader = Reader::from_str(content);
        let mut context = ParserContext::default();
        let error = Comment::parse_multiline(&mut reader, &mut context)
            .expect_err("The parser must not succeed");

        assert_not_found(&context, &error, 0);
    }
}

#[test]
fn test_parse_multiline_err_without_end_token() {
    let mut reader = Reader::from_str("#++ This is a comment");
    let mut context = ParserContext::default();
    let error = Comment::parse_multiline(&mut reader, &mut context)
        .expect_err("The parser must not succeed");

    assert_error(&context, &error, ParserError::MultilineCommentWithoutEndToken);
}

#[test]
fn test_comment_rederivation() {
    // Re-parsing the exact text a comment span covers yields an equal
    // comment.
    let mut reader = Reader::from_str("#+first pass+# rest");
    let mut context = ParserContext::default();
    let comment =
        Comment::parse_multiline(&mut reader, &mut context).expect("The parser must succeed");

    let sub = comment.span.content().to_string();
    let mut reader2 = Reader::from_str(&sub);
    let mut context2 = ParserContext::default();
    let again =
        Comment::parse_multiline(&mut reader2, &mut context2).expect("The parser must succeed");

    assert_eq!(again.span.content(), comment.span.content());
    assert_eq!(again.message.content(), comment.message.content());
    assert_eq!(again.repeated_tokens, comment.repeated_tokens);
    assert_eq!(again.is_multiline_type, comment.is_multiline_type);
}

#[test]
fn test_unterminated_comment_render() {
    let mut reader = Reader::from_str("#++ This is a comment");
    let mut context = ParserContext::default();
    let _ = Comment::parse_multiline(&mut reader, &mut context)
        .expect_err("The parser must not succeed");

    let rendered = context.messages()[0].render();
    assert!(rendered.contains("The end token '++#' was expected here"));
    assert!(rendered.contains("#++ This is a comment"));
    assert!(rendered.contains("^"));
    assert!(rendered.contains("MultilineCommentWithoutEndToken"));
}
