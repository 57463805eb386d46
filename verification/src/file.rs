//! A whole Mosfet file: statements separated by line-breaking whitespace.
//! Two statements on one source line, or trailing unparsed content, are
//! hard errors; an empty or whitespace-only file holds zero statements.

use vstd::prelude::*;

use crate::context::ParserContext;
use crate::errors::ParserError;
use crate::messages::ParserMessage;
use crate::reader::Reader;
use crate::result::{
    lemma_messages_extended_trans, lemma_one_error_is_warnings_then_error,
    lemma_warnings_only_trans, lemma_warnings_then_error_compose, messages_unchanged,
    one_error_reported, some_error_reported, warnings_only_added, warnings_then_error,
    ParserResult, ParserResultError,
};
use crate::return_statement::lemma_context_chain;
use crate::span::Span;
use crate::statements::{
    lemma_statement_end_bounds, statement_end, statement_parses, statement_start, Statement,
};
use crate::whitespaces::{
    all_whitespace_ranges, lemma_in_ranges_concat, lemma_multiline_ws_scan_bounds,
    multiline_whitespace_ranges, multiline_ws_scan, whitespace_ranges, Whitespace,
};

verus! {

/// What a whole file parse does, scanning from `pos`: a separator, then a
/// statement, in turn, until the input ends. `first` distinguishes the
/// opening position, where no preceding line break is owed and a
/// statement-less leftover is "not a Mosfet file" rather than trailing
/// content. `Parsed` carries how many statements the file holds.
pub enum FileOutcome {
    CommentFailure,
    StatementFailure,
    NotAFile,
    Unseparated,
    TrailingContent,
    Parsed(int),
}

/// The outcome of the file grammar from `pos` on.
pub open spec fn file_scan(s: Seq<char>, pos: int, first: bool) -> FileOutcome
    decreases s.len() - pos,
        when 0 <= pos <= s.len()
    via file_scan_dec
{
    match multiline_ws_scan(s, pos) {
        None => FileOutcome::CommentFailure,
        Some(step) => {
            let w = step.0;
            if !statement_start(s, w) {
                if w == s.len() {
                    FileOutcome::Parsed(0)
                } else if first {
                    FileOutcome::NotAFile
                } else {
                    FileOutcome::TrailingContent
                }
            } else if !statement_parses(s, w) {
                FileOutcome::StatementFailure
            } else if !first && !step.1 {
                FileOutcome::Unseparated
            } else {
                match file_scan(s, statement_end(s, w), false) {
                    FileOutcome::Parsed(n) => FileOutcome::Parsed(n + 1),
                    o => o,
                }
            }
        },
    }
}

#[via_fn]
proof fn file_scan_dec(s: Seq<char>, pos: int, first: bool) {
    lemma_multiline_ws_scan_bounds(s, pos);
    match multiline_ws_scan(s, pos) {
        None => {},
        Some(step) => {
            if statement_start(s, step.0) && statement_parses(s, step.0) {
                lemma_statement_end_bounds(s, step.0);
            }
        },
    }
}

/// Glues one statement step onto a whole file scan: the scan from the
/// entry position agrees with the scan from the step's end, with the
/// statements counted so far folded in.
pub open spec fn file_scan_continues(full: FileOutcome, count: int, rest: FileOutcome) -> bool {
    match rest {
        FileOutcome::Parsed(n) => full == FileOutcome::Parsed(n + count),
        o => full == o,
    }
}

/// A Mosfet file.
#[derive(Debug)]
pub struct MosfetFile {
    pub span: Span,
    pub statements: Vec<Statement>,
}

impl MosfetFile {
    /// Every statement is sound, they stand in source order without
    /// overlapping, and all of them lie inside the file's span.
    pub open spec fn wf(&self) -> bool {
        &&& self.span.wf()
        &&& forall|i: int|
            0 <= i < self.statements@.len() ==> (#[trigger] self.statements@[i]).wf()
                && self.statements@[i].spec_span().content@ == self.span.content@
        &&& forall|i: int|
            0 <= i < self.statements@.len() - 1 ==> (#[trigger] self.statements@[i]).spec_span().end_cursor.char_offset
                <= self.statements@[i + 1].spec_span().start_cursor.char_offset
        &&& self.statements@.len() > 0 ==> self.span.start_cursor.char_offset
            <= self.statements@[0].spec_span().start_cursor.char_offset
            && self.statements@.last().spec_span().end_cursor.char_offset
            <= self.span.end_cursor.char_offset
    }

    // GETTERS ----------------------------------------------------------------
    /// The span of the node.
    pub fn span(&self) -> (r: &Span)
        ensures
            r == &self.span,
    {
        &self.span
    }

    /// The statements of the file, in source order.
    pub fn statements(&self) -> (r: &Vec<Statement>)
        ensures
            r == &self.statements,
    {
        &self.statements
    }

    // STATIC METHODS ---------------------------------------------------------
    /// Parses a Mosfet file: success exactly when the file grammar reaches
    /// the end of input, with as many statements as the grammar counts, and
    /// failure with the diagnostic each file outcome owns. The file rule
    /// never signals `NotFound`.
    #[verifier::rlimit(100)]
    #[verifier::spinoff_prover]
    pub fn parse(reader: &mut Reader, context: &mut ParserContext) -> (r: ParserResult<MosfetFile>)
        requires
            old(reader).wf(),
            old(context).wf(),
        ensures
            final(reader).wf(),
            final(reader).same_source(old(reader)),
            old(reader).pos() <= final(reader).pos(),
            final(context).wf(),
            r is Err ==> r->Err_0 == ParserResultError::Error && some_error_reported(
                *old(context),
                *final(context),
            ),
            ({
                let o = file_scan(old(reader).text(), old(reader).pos(), true);
                &&& (r is Ok <==> o is Parsed)
                &&& (o is CommentFailure ==> warnings_then_error(
                    *old(context),
                    *final(context),
                    ParserError::MultilineCommentWithoutEndToken,
                ))
                &&& (o is NotAFile ==> one_error_reported(
                    *old(context),
                    *final(context),
                    ParserError::NotAMosfetFile,
                ))
                &&& (o is Unseparated ==> warnings_then_error(
                    *old(context),
                    *final(context),
                    ParserError::TwoStatementsInSameLineInFile,
                ))
                &&& (o is TrailingContent ==> warnings_then_error(
                    *old(context),
                    *final(context),
                    ParserError::ExpectedEOFInFile,
                ))
                &&& (r matches Ok(f) ==> o == FileOutcome::Parsed(f.statements@.len() as int))
            }),
            r matches Ok(f) ==> {
                &&& f.wf()
                &&& f.span.content@ == old(reader).text()
                &&& f.span.start_cursor == old(reader).cursor
                &&& f.span.end_cursor == final(reader).cursor
                &&& final(reader).pos() == old(reader).text().len()
                &&& warnings_only_added(*old(context), *final(context))
            },
    {
        let ghost s = old(reader).text();
        let ghost p = old(reader).pos();
        let init_cursor = reader.save();
        let mut statements: Vec<Statement> = Vec::new();
        // First statement.
        match parse_separator_step(reader, context) {
            Ok(_) => {},
            Err(ParserResultError::NotFound) => {},
            Err(ParserResultError::Error) => {
                proof {
                    lemma_one_error_is_warnings_then_error(
                        *old(context),
                        *context,
                        ParserError::MultilineCommentWithoutEndToken,
                    );
                }
                return Err(ParserResultError::Error);
            },
        }
        let ghost w0 = reader.pos();
        match parse_statement_step(reader, context) {
            Ok(statement) => {
                statements.push(statement);
                proof {
                    assert(file_scan_continues(
                        file_scan(s, p, true),
                        statements@.len() as int,
                        file_scan(s, reader.pos(), false),
                    ));
                }
            },
            Err(ParserResultError::Error) => {
                proof {
                    assert(file_scan(s, p, true) == FileOutcome::StatementFailure);
                }
                return Err(ParserResultError::Error);
            },
            Err(ParserResultError::NotFound) => {
                let span = reader.substring_to_current(&init_cursor);
                if reader.remaining_length() == 0 {
                    proof {
                        crate::text::lemma_bytes_len_take_mono(s, reader.pos(), s.len() as int);
                        assert(s.take(s.len() as int) =~= s);
                        assert(file_scan(s, p, true) == FileOutcome::Parsed(0));
                        assert(context.messages@.subrange(
                            0,
                            old(context).messages@.len() as int,
                        ) =~= old(context).messages@);
                    }
                    return Ok(MosfetFile { span, statements });
                }
                let ghost pre_push = *context;
                let title = "The file is not recognized as valid Mosfet file".to_owned();
                context.add_message(
                    ParserMessage::error(ParserError::NotAMosfetFile, title, span),
                );
                proof {
                    assert(file_scan(s, p, true) == FileOutcome::NotAFile);
                    assert(context.messages@.subrange(0, pre_push.messages@.len() as int)
                        =~= pre_push.messages@);
                    lemma_context_chain(*old(context), pre_push, *context);
                }
                return Err(ParserResultError::Error);
            },
        }
        // Next statements.
        loop
            invariant
                reader.wf(),
                reader.same_source(old(reader)),
                warnings_only_added(*old(context), *context),
                old(context).wf(),
                context.wf(),
                init_cursor == old(reader).cursor,
                s == reader.text(),
                s == old(reader).text(),
                p == old(reader).pos(),
                p <= reader.pos() <= s.len(),
                statements@.len() > 0,
                file_scan_continues(
                    file_scan(s, p, true),
                    statements@.len() as int,
                    file_scan(s, reader.pos(), false),
                ),
                forall|i: int|
                    0 <= i < statements@.len() ==> (#[trigger] statements@[i]).wf()
                        && statements@[i].spec_span().content@ == s,
                forall|i: int|
                    0 <= i < statements@.len() - 1 ==> (#[trigger] statements@[i]).spec_span().end_cursor.char_offset
                        <= statements@[i + 1].spec_span().start_cursor.char_offset,
                p <= statements@[0].spec_span().start_cursor.char_offset,
                statements@.last().spec_span().end_cursor.char_offset <= reader.pos(),
            ensures
                reader.wf(),
                reader.same_source(old(reader)),
                s == reader.text(),
                p <= reader.pos() <= s.len(),
                warnings_only_added(*old(context), *context),
                context.wf(),
                statements@.len() > 0,
                file_scan_continues(
                    file_scan(s, p, true),
                    statements@.len() as int,
                    file_scan(s, reader.pos(), false),
                ),
                file_scan(s, reader.pos(), false) == if reader.pos() == s.len() {
                    FileOutcome::Parsed(0)
                } else {
                    FileOutcome::TrailingContent
                },
                forall|i: int|
                    0 <= i < statements@.len() ==> (#[trigger] statements@[i]).wf()
                        && statements@[i].spec_span().content@ == s,
                forall|i: int|
                    0 <= i < statements@.len() - 1 ==> (#[trigger] statements@[i]).spec_span().end_cursor.char_offset
                        <= statements@[i + 1].spec_span().start_cursor.char_offset,
                p <= statements@[0].spec_span().start_cursor.char_offset,
                statements@.last().spec_span().end_cursor.char_offset <= reader.pos(),
            decreases s.len() - reader.pos(),
        {
            let ghost loop_statements = statements@;
            let ghost loop_context = *context;
            let ghost loop_reader = *reader;
            let step = parse_tail_statement(reader, context, &mut statements);
            match step {
                Ok(true) => {
                    proof {
                        lemma_warnings_only_trans(*old(context), loop_context, *context);
                        let mid = file_scan(s, loop_reader.pos(), false);
                        let rest = file_scan(s, reader.pos(), false);
                        match rest {
                            FileOutcome::Parsed(n) => {
                                assert(mid == FileOutcome::Parsed(n + 1));
                                assert(file_scan(s, p, true) == FileOutcome::Parsed(
                                    n + 1 + loop_statements.len(),
                                ));
                            },
                            _ => {
                                assert(mid == rest);
                            },
                        }
                        let st = choose|st: Statement|
                            {
                                &&& statements@ == #[trigger] loop_statements.push(st)
                                &&& st.wf()
                                &&& st.spec_span().content@ == loop_reader.text()
                                &&& st.spec_span().start_cursor.char_offset >= loop_reader.pos()
                                &&& st.spec_span().end_cursor.char_offset == reader.pos()
                            };
                        assert(statements@ == loop_statements.push(st));
                        assert forall|i: int| 0 <= i < statements@.len() - 1 implies (
                        #[trigger] statements@[i]).spec_span().end_cursor.char_offset
                            <= statements@[i + 1].spec_span().start_cursor.char_offset by {
                            if i + 1 < loop_statements.len() {
                                assert(statements@[i + 1] == loop_statements[i + 1]);
                                assert(statements@[i] == loop_statements[i]);
                            } else {
                                assert(statements@[i] == loop_statements[i]);
                                assert(statements@[i + 1] == st);
                            }
                        }
                    }
                },
                Ok(false) => {
                    proof {
                        lemma_warnings_only_trans(*old(context), loop_context, *context);
                    }
                    break;
                },
                Err(_) => {
                    proof {
                        lemma_messages_extended_trans(*old(context), loop_context, *context);
                        if file_scan(s, loop_reader.pos(), false) is CommentFailure {
                            lemma_warnings_then_error_compose(
                                *old(context),
                                loop_context,
                                *context,
                                ParserError::MultilineCommentWithoutEndToken,
                            );
                        }
                        if file_scan(s, loop_reader.pos(), false) is Unseparated {
                            lemma_warnings_then_error_compose(
                                *old(context),
                                loop_context,
                                *context,
                                ParserError::TwoStatementsInSameLineInFile,
                            );
                        }
                    }
                    return Err(ParserResultError::Error);
                },
            }
        }
        // Check end.
        let span = reader.substring_to_current(&init_cursor);
        if reader.remaining_length() == 0 {
            proof {
                crate::text::lemma_bytes_len_take_mono(s, reader.pos(), s.len() as int);
                assert(s.take(s.len() as int) =~= s);
            }
            Ok(MosfetFile { span, statements })
        } else {
            let ghost pre_push = *context;
            let title = "The End Of File (EOF) was expected here".to_owned();
            context.add_message(ParserMessage::error(ParserError::ExpectedEOFInFile, title, span));
            proof {
                crate::text::lemma_bytes_len_take_mono(s, reader.pos(), s.len() as int);
                assert(s.take(s.len() as int) =~= s);
                assert(reader.pos() < s.len());
                assert(context.messages@.subrange(0, pre_push.messages@.len() as int)
                    =~= pre_push.messages@);
                lemma_context_chain(*old(context), pre_push, *context);
                assert forall|i: int|
                    old(context).messages@.len() <= i < context.messages@.len() - 1 implies (
                #[trigger] context.messages@[i]).id is Warning by {
                    crate::result::lemma_extended_index(pre_push, *context, i);
                }
            }
            Err(ParserResultError::Error)
        }
    }
}

/// One pass of the statement loop: a separator, then a statement. Signals
/// `Ok(true)` when a statement was appended, `Ok(false)` when the file's
/// statement list ends here, and a hard error otherwise; two statements
/// without a line break between them are the hard error this pass owns.
fn parse_tail_statement(
    reader: &mut Reader,
    context: &mut ParserContext,
    statements: &mut Vec<Statement>,
) -> (r: ParserResult<bool>)
    requires
        old(reader).wf(),
        old(context).wf(),
        old(statements)@.len() > 0,
        old(statements)@.last().spec_span().end_cursor.char_offset <= old(reader).pos(),
    ensures
        final(reader).wf(),
        final(reader).same_source(old(reader)),
        final(context).wf(),
        old(reader).pos() <= final(reader).pos() <= final(reader).text().len(),
        r is Err ==> r->Err_0 == ParserResultError::Error && some_error_reported(
            *old(context),
            *final(context),
        ),
        r is Err ==> ({
            let o = file_scan(old(reader).text(), old(reader).pos(), false);
            &&& (o is CommentFailure || o is StatementFailure || o is Unseparated)
            &&& (o is CommentFailure ==> warnings_then_error(
                *old(context),
                *final(context),
                ParserError::MultilineCommentWithoutEndToken,
            ))
            &&& (o is Unseparated ==> warnings_then_error(
                *old(context),
                *final(context),
                ParserError::TwoStatementsInSameLineInFile,
            ))
        }),
        r is Ok ==> warnings_only_added(*old(context), *final(context)),
        r == ParserResult::<bool>::Ok(false) ==> final(statements)@ == old(statements)@
            && file_scan(old(reader).text(), old(reader).pos(), false) == file_scan(
            old(reader).text(),
            final(reader).pos(),
            false,
        ) && file_scan(old(reader).text(), old(reader).pos(), false) == (
        if final(reader).pos() == final(reader).text().len() {
            FileOutcome::Parsed(0)
        } else {
            FileOutcome::TrailingContent
        }),
        r == ParserResult::<bool>::Ok(true) ==> file_scan_continues(
            file_scan(old(reader).text(), old(reader).pos(), false),
            1,
            file_scan(old(reader).text(), final(reader).pos(), false),
        ) && final(reader).pos() > old(reader).pos() && (exists|st: Statement|
            {
                &&& final(statements)@ == #[trigger] old(statements)@.push(st)
                &&& st.wf()
                &&& st.spec_span().content@ == old(reader).text()
                &&& st.spec_span().start_cursor.char_offset >= old(reader).pos()
                &&& st.spec_span().end_cursor.char_offset == final(reader).pos()
            }),
{
    let ghost s = old(reader).text();
    let ghost p = old(reader).pos();
    let whitespace = match parse_separator_step(reader, context) {
        Ok(w) => Some(w),
        Err(ParserResultError::NotFound) => None,
        Err(ParserResultError::Error) => {
            proof {
                lemma_one_error_is_warnings_then_error(
                    *old(context),
                    *context,
                    ParserError::MultilineCommentWithoutEndToken,
                );
            }
            return Err(ParserResultError::Error);
        },
    };
    let ghost w0 = reader.pos();
    let ghost sep_ml = match &whitespace {
        Some(w) => w.is_multiline,
        None => false,
    };
    proof {
        assert(multiline_ws_scan(s, p) == Some((w0, sep_ml)));
    }
    match parse_statement_step(reader, context) {
        Ok(statement) => {
            // Check the whitespace is multiline to prevent two statements
            // in the same line.
            let is_separated = match &whitespace {
                Some(w) => w.is_multiline(),
                None => false,
            };
            if !is_separated {
                proof {
                    assert(file_scan(s, p, false) == FileOutcome::Unseparated);
                }
                let ghost pre_push = *context;
                let here = reader.save();
                let span = reader.substring_to_current(&here);
                let title = "Two statements in the same line are forbidden".to_owned();
                context.add_message(
                    ParserMessage::error(
                        ParserError::TwoStatementsInSameLineInFile,
                        title,
                        span,
                    ),
                );
                proof {
                    assert(context.messages@.subrange(0, pre_push.messages@.len() as int)
                        =~= pre_push.messages@);
                    lemma_context_chain(*old(context), pre_push, *context);
                }
                return Err(ParserResultError::Error);
            }
            proof {
                assert(file_scan(s, p, false) == match file_scan(
                    s,
                    statement_end(s, w0),
                    false,
                ) {
                    FileOutcome::Parsed(n) => FileOutcome::Parsed(n + 1),
                    o => o,
                });
            }
            let ghost old_list = statements@;
            statements.push(statement);
            proof {
                assert(statements@ == old_list.push(statement));
            }
            Ok(true)
        },
        Err(ParserResultError::NotFound) => {
            proof {
                crate::whitespaces::lemma_multiline_ws_scan_idempotent(s, p);
                assert(multiline_ws_scan(s, w0) == Some((w0, false)));
                if reader.pos() == s.len() {
                    assert(file_scan(s, p, false) == FileOutcome::Parsed(0));
                    assert(file_scan(s, w0, false) == FileOutcome::Parsed(0));
                } else {
                    assert(file_scan(s, p, false) == FileOutcome::TrailingContent);
                    assert(file_scan(s, w0, false) == FileOutcome::TrailingContent);
                }
                assert(context.messages@.subrange(0, old(context).messages@.len() as int) =~= old(
                    context,
                ).messages@);
            }
            Ok(false)
        },
        Err(ParserResultError::Error) => {
            proof {
                assert(file_scan(s, p, false) == FileOutcome::StatementFailure);
            }
            Err(ParserResultError::Error)
        },
    }
}

/// Runs the statement rule under the reduced contract the file loop needs.
fn parse_statement_step(reader: &mut Reader, context: &mut ParserContext) -> (r: ParserResult<
    Statement,
>)
    requires
        old(reader).wf(),
        old(context).wf(),
    ensures
        final(reader).wf(),
        final(reader).same_source(old(reader)),
        old(reader).pos() <= final(reader).pos(),
        final(context).wf(),
        r == ParserResult::<Statement>::Err(ParserResultError::NotFound) ==> final(reader).cursor
            == old(reader).cursor && messages_unchanged(*old(context), *final(context))
            && !statement_start(old(reader).text(), old(reader).pos()),
        r == ParserResult::<Statement>::Err(ParserResultError::Error) ==> some_error_reported(
            *old(context),
            *final(context),
        ) && statement_start(old(reader).text(), old(reader).pos()) && !statement_parses(
            old(reader).text(),
            old(reader).pos(),
        ),
        r matches Ok(st) ==> {
            &&& st.wf()
            &&& st.spec_span().content@ == old(reader).text()
            &&& st.spec_span().start_cursor == old(reader).cursor
            &&& st.spec_span().end_cursor == final(reader).cursor
            &&& statement_start(old(reader).text(), old(reader).pos())
            &&& statement_parses(old(reader).text(), old(reader).pos())
            &&& final(reader).pos() == statement_end(old(reader).text(), old(reader).pos())
            &&& final(reader).pos() > old(reader).pos()
            &&& warnings_only_added(*old(context), *final(context))
        },
{
    Statement::parse(reader, context)
}

/// Runs the separator whitespace rule under the reduced contract the file
/// loop needs.
fn parse_separator_step(reader: &mut Reader, context: &mut ParserContext) -> (r: ParserResult<
    Whitespace,
>)
    requires
        old(reader).wf(),
        old(context).wf(),
    ensures
        final(reader).wf(),
        final(reader).same_source(old(reader)),
        old(reader).pos() <= final(reader).pos(),
        final(context).wf(),
        r == ParserResult::<Whitespace>::Err(ParserResultError::NotFound) ==> final(reader).cursor
            == old(reader).cursor && messages_unchanged(*old(context), *final(context))
            && multiline_ws_scan(old(reader).text(), old(reader).pos()) == Some(
            (old(reader).pos(), false),
        ),
        r == ParserResult::<Whitespace>::Err(ParserResultError::Error) ==> one_error_reported(
            *old(context),
            *final(context),
            ParserError::MultilineCommentWithoutEndToken,
        ) && multiline_ws_scan(old(reader).text(), old(reader).pos()) is None,
        r matches Ok(w) ==> {
            &&& w.wf()
            &&& final(reader).pos() >= old(reader).pos()
            &&& multiline_ws_scan(old(reader).text(), old(reader).pos()) == Some(
                (final(reader).pos(), w.is_multiline),
            )
            &&& messages_unchanged(*old(context), *final(context))
        },
{
    let ghost s = old(reader).text();
    let ghost p = old(reader).pos();
    let result = Whitespace::parse_multiline(reader, context);
    proof {
        if result == ParserResult::<Whitespace>::Err(ParserResultError::NotFound) {
            if p < s.len() {
                lemma_in_ranges_concat(
                    whitespace_ranges(),
                    multiline_whitespace_ranges(),
                    s[p],
                );
            }
            assert(crate::text::class_run_end(s, p, all_whitespace_ranges()) == p);
            assert(multiline_ws_scan(s, p) == Some((p, false)));
        }
    }
    result
}

} // verus!
