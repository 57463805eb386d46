//! Number literals of the Mosfet language: an integer part, optionally
//! followed by a fractional part introduced by `.` and written with the
//! same digit class and grouping rules. Removable trailing zeroes of the
//! fraction leave a warning.

use std::sync::Arc;

use vstd::prelude::*;

use crate::context::ParserContext;
use crate::cursor::Cursor;
use crate::integer::{
    digit_group_shape, leading_zero_warning_expected, number_end, prefix_radix_at,
    prefixed_number_failures, radix_digit_ranges, read_digit_grouping, IntegerNumber, Radix,
};
use crate::messages::{ParserMessage, ParserMessageId};
use crate::node::ParserNode;
use crate::reader::Reader;
use crate::result::{
    cursor_manager, messages_extended, messages_unchanged, ParserResult, ParserResultError,
};
use crate::span::Span;
use crate::text::{in_ranges, matches_at, CharRange};
use crate::warnings::ParserWarning;

verus! {

/// Where the fractional part that may follow an integer part ending at `ie`
/// ends: only a `.` directly followed by a digit of the same radix opens a
/// fraction; anything else leaves the literal integral.
pub open spec fn fraction_end(s: Seq<char>, ie: int, rs: Seq<CharRange>) -> Option<int> {
    if matches_at(s, ie, seq!['.']) && ie + 1 < s.len() && in_ranges(rs, s[ie + 1]) {
        Some(number_end(s, ie + 1, rs))
    } else {
        None
    }
}

/// Whether a fraction's digit text ends with a removable zero, which earns
/// a warning unless the class is suppressed. A lone `0` fraction (`X.0`) is
/// not removable.
pub open spec fn trailing_zero_warning_expected(
    s: Seq<char>,
    fstart: int,
    fend: int,
    ignore: crate::context::ParserIgnoreConfig,
) -> bool {
    &&& !ignore.number_trailing_zeroes
    &&& fstart < fend <= s.len()
    &&& s[fend - 1] == '0'
    &&& fend - fstart >= 2
}

/// The context after the trailing-zeroes check: exactly one warning was
/// appended when one was due, and nothing else.
pub open spec fn trailing_zero_outcome(
    oldc: ParserContext,
    newc: ParserContext,
    s: Seq<char>,
    fstart: int,
    fend: int,
) -> bool {
    if trailing_zero_warning_expected(s, fstart, fend, oldc.ignore) {
        &&& messages_extended(oldc, newc)
        &&& newc.messages@.len() == oldc.messages@.len() + 1
        &&& newc.messages@.last().id == ParserMessageId::Warning(
            ParserWarning::NumberWithTrailingZeroes,
        )
        &&& newc.messages@.last().wf()
    } else {
        messages_unchanged(oldc, newc)
    }
}

/// What a whole number parse adds to the context: the leading-zeroes
/// warning of the integer part, then the trailing-zeroes warning of the
/// fraction, each exactly when due.
pub open spec fn number_warning_outcome(
    oldc: ParserContext,
    newc: ParserContext,
    s: Seq<char>,
    dstart: int,
    ie: int,
    fe: Option<int>,
) -> bool {
    let lead = leading_zero_warning_expected(s, dstart, ie, oldc.ignore);
    let trail = fe matches Some(e) && trailing_zero_warning_expected(s, ie + 1, e, oldc.ignore);
    &&& messages_extended(oldc, newc)
    &&& newc.messages@.len() == oldc.messages@.len() + (if lead {
        1int
    } else {
        0int
    }) + (if trail {
        1int
    } else {
        0int
    })
    &&& (lead ==> newc.messages@[oldc.messages@.len() as int].id == ParserMessageId::Warning(
        ParserWarning::NumberWithLeadingZeroes,
    ) && newc.messages@[oldc.messages@.len() as int].wf())
    &&& (trail ==> newc.messages@.last().id == ParserMessageId::Warning(
        ParserWarning::NumberWithTrailingZeroes,
    ) && newc.messages@.last().wf())
}

/// Where the number literal that starts at `p` ends, fraction included.
pub open spec fn number_full_end(s: Seq<char>, p: int) -> int {
    let pr = prefix_radix_at(s, p);
    let radix = if pr is Some {
        pr->0
    } else {
        Radix::Decimal
    };
    let dstart: int = if pr is Some {
        p + 2
    } else {
        p
    };
    let rs = radix_digit_ranges(radix);
    let ie = number_end(s, dstart, rs);
    match fraction_end(s, ie, rs) {
        Some(e) => e,
        None => ie,
    }
}

/// A number in the Mosfet language.
/// Can be written in binary (`0b`), octal (`0o`), decimal (`0d`) and
/// hexadecimal (`0x`), using their own prefix. For decimal it can be
/// omitted.
#[derive(Debug, Clone)]
pub struct Number {
    pub span: Arc<Span>,
    pub integer: IntegerNumber,
    pub decimal_digits: Option<Arc<Span>>,
}

impl Number {
    /// The integer part is sound and opens the node's span; the fraction,
    /// when present, follows a `.` directly after the integer part and
    /// closes the span.
    pub open spec fn wf(&self) -> bool {
        &&& self.span.wf()
        &&& self.integer.wf()
        &&& self.integer.span.content@ == self.span.content@
        &&& self.span.start_cursor == self.integer.span.start_cursor
        &&& match self.decimal_digits {
            None => self.span.end_cursor == self.integer.span.end_cursor,
            Some(d) => {
                &&& d.wf()
                &&& d.content@ == self.span.content@
                &&& self.span.end_cursor == d.end_cursor
                &&& self.integer.span.end_cursor.char_offset + 1 == d.start_cursor.char_offset
                &&& self.span.content@[self.integer.span.end_cursor.char_offset as int] == '.'
                &&& digit_group_shape(
                    self.span.content@,
                    d.start_cursor.char_offset as int,
                    d.end_cursor.char_offset as int,
                    radix_digit_ranges(self.integer.radix),
                )
            },
        }
    }

    // GETTERS ----------------------------------------------------------------
    /// Whether the number is prefixed or not.
    pub fn has_prefix(&self) -> (r: bool)
        ensures
            r == self.integer.has_prefix,
    {
        self.integer.has_prefix()
    }

    /// The prefix of the number as text, empty when no prefix was written.
    pub fn prefix_str(&self) -> (r: &'static str)
        ensures
            self.integer.has_prefix ==> r@ == crate::integer::radix_prefix(self.integer.radix),
            !self.integer.has_prefix ==> r@.len() == 0,
    {
        self.integer.prefix_str()
    }

    /// The radix in which the number is represented.
    pub fn radix(&self) -> (r: &Radix)
        ensures
            r == &self.integer.radix,
    {
        self.integer.radix()
    }

    /// The digits of the integer part.
    pub fn integer_digits(&self) -> (r: &Arc<Span>)
        ensures
            r == &self.integer.digits,
    {
        self.integer.digits()
    }

    /// The digits of the fractional part, if one was written.
    pub fn decimal_digits(&self) -> (r: &Option<Arc<Span>>)
        ensures
            r == &self.decimal_digits,
    {
        &self.decimal_digits
    }

    // STATIC METHODS ---------------------------------------------------------
    /// Parses a prefixed `Number` or a decimal without prefix: the integer
    /// part as [`IntegerNumber::parse`], then an optional fraction. A `.`
    /// not directly followed by a digit is left unconsumed.
    pub fn parse(reader: &mut Reader, context: &mut ParserContext) -> (r: ParserResult<Number>)
        requires
            old(reader).wf(),
            old(context).wf(),
        ensures
            final(reader).wf(),
            final(reader).same_source(old(reader)),
            old(reader).pos() <= final(reader).pos(),
            final(context).wf(),
            prefixed_number_failures(r, *old(reader), *final(reader), *old(context), *final(context)),
            r matches Ok(n) ==> ({
                let s = old(reader).text();
                let p = old(reader).pos();
                let pr = prefix_radix_at(s, p);
                let radix = if pr is Some {
                    pr->0
                } else {
                    Radix::Decimal
                };
                let dstart = if pr is Some {
                    p + 2
                } else {
                    p
                };
                let rs = radix_digit_ranges(radix);
                let ie = number_end(s, dstart, rs);
                let fe = fraction_end(s, ie, rs);
                &&& n.wf()
                &&& n.integer.radix == radix
                &&& n.integer.has_prefix == (pr is Some)
                &&& n.span.content@ == s
                &&& n.span.start_cursor == old(reader).cursor
                &&& n.span.end_cursor == final(reader).cursor
                &&& n.integer.digits.start_cursor.char_offset == dstart
                &&& n.integer.span.end_cursor.char_offset == ie
                &&& (fe is None ==> n.decimal_digits is None && final(reader).pos() == ie)
                &&& (fe matches Some(e) ==> n.decimal_digits matches Some(d)
                    && d.start_cursor.char_offset == ie + 1 && d.end_cursor == final(reader).cursor
                    && final(reader).pos() == e)
                &&& final(reader).pos() == number_full_end(s, p)
                &&& number_warning_outcome(
                    *old(context),
                    *final(context),
                    s,
                    dstart,
                    ie,
                    fe,
                )
            }),
    {
        let init_cursor = reader.save();
        let result = Self::parse_body(reader, context, init_cursor);
        cursor_manager(reader, init_cursor, result)
    }

    /// The body of [`Number::parse`], run under the cursor manager.
    fn parse_body(reader: &mut Reader, context: &mut ParserContext, init_cursor: Cursor) -> (r:
        ParserResult<Number>)
        requires
            old(reader).wf(),
            old(context).wf(),
            init_cursor == old(reader).cursor,
        ensures
            final(reader).wf(),
            final(reader).same_source(old(reader)),
            old(reader).pos() <= final(reader).pos(),
            final(context).wf(),
            prefixed_number_failures(r, *old(reader), *final(reader), *old(context), *final(context)),
            r == ParserResult::<Number>::Err(ParserResultError::NotFound) ==> final(reader).cursor
                == old(reader).cursor,
            r matches Ok(n) ==> ({
                let s = old(reader).text();
                let p = old(reader).pos();
                let pr = prefix_radix_at(s, p);
                let radix = if pr is Some {
                    pr->0
                } else {
                    Radix::Decimal
                };
                let dstart = if pr is Some {
                    p + 2
                } else {
                    p
                };
                let rs = radix_digit_ranges(radix);
                let ie = number_end(s, dstart, rs);
                let fe = fraction_end(s, ie, rs);
                &&& n.wf()
                &&& n.integer.radix == radix
                &&& n.integer.has_prefix == (pr is Some)
                &&& n.span.content@ == s
                &&& n.span.start_cursor == old(reader).cursor
                &&& n.span.end_cursor == final(reader).cursor
                &&& n.integer.digits.start_cursor.char_offset == dstart
                &&& n.integer.span.end_cursor.char_offset == ie
                &&& (fe is None ==> n.decimal_digits is None && final(reader).pos() == ie)
                &&& (fe matches Some(e) ==> n.decimal_digits matches Some(d)
                    && d.start_cursor.char_offset == ie + 1 && d.end_cursor == final(reader).cursor
                    && final(reader).pos() == e)
                &&& final(reader).pos() == number_full_end(s, p)
                &&& number_warning_outcome(
                    *old(context),
                    *final(context),
                    s,
                    dstart,
                    ie,
                    fe,
                )
            }),
    {
        let ghost s = old(reader).text();
        let ghost p = old(reader).pos();
        let integer_part = match IntegerNumber::parse(reader, context) {
            Ok(v) => v,
            Err(e) => {
                return Err(e);
            },
        };
        let ghost mid_context = *context;
        let ghost ie = reader.pos();
        let pre_decimal_cursor = reader.save();
        proof {
            reveal_strlit(".");
            assert("."@ =~= seq!['.']);
        }
        if !reader.read(".") {
            proof {
                if matches_at(s, ie, seq!['.']) {
                    assert(false);
                }
            }
            proof {
                assert(context.messages@.subrange(0, old(context).messages@.len() as int) =~= old(
                    context,
                ).messages@);
            }
            let span = Arc::new(reader.substring_to_current(&init_cursor));
            return Ok(Number { span, integer: integer_part, decimal_digits: None });
        }
        proof {
            assert(s.subrange(ie, ie + 1) =~= seq![s[ie]]);
            assert(s.subrange(ie, ie + 1)[0] == s[ie]);
            assert(s[ie] == '.');
        }
        let post_decimal_cursor = reader.save();
        let digit_table = integer_part.radix().digit_chars();
        if reader.read_one_or_more_of(digit_table.as_slice()).is_none() {
            reader.restore(pre_decimal_cursor);
            proof {
                assert(context.messages@.subrange(0, old(context).messages@.len() as int) =~= old(
                    context,
                ).messages@);
            }
            let span = Arc::new(reader.substring_to_current(&init_cursor));
            return Ok(Number { span, integer: integer_part, decimal_digits: None });
        }
        proof {
            crate::text::lemma_class_run_end_bounds(
                s,
                ie + 1,
                radix_digit_ranges(integer_part.radix),
            );
        }
        read_digit_grouping(reader, integer_part.radix());
        let decimal_digits = Arc::new(reader.substring_to_current(&post_decimal_cursor));
        Self::check_trailing_zeroes(reader, context, &decimal_digits);
        proof {
            let oldc = *old(context);
            let n0 = oldc.messages@.len() as int;
            if messages_unchanged(oldc, mid_context) {
                crate::result::lemma_unchanged_extends(oldc, mid_context);
            }
            if messages_unchanged(mid_context, *context) {
                crate::result::lemma_unchanged_extends(mid_context, *context);
            }
            crate::result::lemma_messages_extended_trans(oldc, mid_context, *context);
            if mid_context.messages@.len() > n0 {
                crate::result::lemma_extended_index(mid_context, *context, n0);
            }
        }
        let span = Arc::new(reader.substring_to_current(&init_cursor));
        Ok(Number { span, integer: integer_part, decimal_digits: Some(decimal_digits) })
    }

    /// Records the trailing-zeroes warning when the fraction's digit text
    /// ends with a removable zero and the warning class is not suppressed.
    /// The lone `0` fraction is never reported.
    fn check_trailing_zeroes(reader: &Reader, context: &mut ParserContext, digits: &Arc<Span>)
        requires
            reader.wf(),
            old(context).wf(),
            digits.wf(),
            digits.content@ == reader.text(),
            digits.start_cursor.char_offset < digits.end_cursor.char_offset,
        ensures
            final(context).wf(),
            trailing_zero_outcome(
                *old(context),
                *final(context),
                reader.text(),
                digits.start_cursor.char_offset as int,
                digits.end_cursor.char_offset as int,
            ),
    {
        if context.ignore.number_trailing_zeroes {
            return ;
        }
        let ghost s = reader.text();
        let a = digits.start_cursor.char_offset;
        let b = digits.end_cursor.char_offset;
        let mut z: usize = 0;
        while a + z < b && reader.content.as_str().get_char(b - 1 - z) == '0'
            invariant
                reader.wf(),
                s == reader.text(),
                a == digits.start_cursor.char_offset,
                b == digits.end_cursor.char_offset,
                a + z <= b <= s.len(),
                forall|i: int| b - z <= i < b ==> s[i] == '0',
            decreases b - (a + z),
        {
            z = z + 1;
        }
        if z == 0 {
            return ;
        }
        if z == b - a && z == 1 {
            return ;
        }
        let number_of_zeroes = if z == b - a {
            z - 1
        } else {
            z
        };
        let zeroes_start = reader.cursor_at(b - number_of_zeroes).unwrap();
        let span = reader.substring(&zeroes_start, &digits.end_cursor);
        let title = "Trailing zeroes are unnecessary".to_owned();
        context.add_message(
            ParserMessage::warning(ParserWarning::NumberWithTrailingZeroes, title, span),
        );
        proof {
            assert(context.messages@.subrange(0, old(context).messages@.len() as int) =~= old(
                context,
            ).messages@);
        }
    }
}

/// A number parse touches the context through the warning channel alone.
pub proof fn lemma_number_warnings_only(
    oldc: ParserContext,
    newc: ParserContext,
    s: Seq<char>,
    dstart: int,
    ie: int,
    fe: Option<int>,
)
    requires
        number_warning_outcome(oldc, newc, s, dstart, ie, fe),
    ensures
        crate::result::warnings_only_added(oldc, newc),
{
    let lead = leading_zero_warning_expected(s, dstart, ie, oldc.ignore);
    let trail = fe matches Some(e) && trailing_zero_warning_expected(s, ie + 1, e, oldc.ignore);
    assert forall|i: int|
        oldc.messages@.len() <= i < newc.messages@.len() implies newc.messages@[i].id
        is Warning by {
        if lead && i == oldc.messages@.len() {
        } else {
            assert(i == newc.messages@.len() - 1);
        }
    }
}

impl ParserNode for Number {
    open spec fn spec_span(&self) -> Span {
        *self.span
    }

    open spec fn node_wf(&self) -> bool {
        self.wf()
    }

    proof fn node_wf_implies_span_wf(&self) {
        assert(self.node_wf());
        assert(self.span.wf());
        assert(self.spec_span() == *self.span);
    }

    fn span(&self) -> (r: &Arc<Span>) {
        &self.span
    }
}

} // verus!
