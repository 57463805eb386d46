//! Natural (unsigned) integer literals of the Mosfet language. A literal is
//! written in binary (`0b`), octal (`0o`), decimal (`0d`, or bare) or
//! hexadecimal (`0x`), as digit runs that may be grouped by `_` separators;
//! a separator run must always be followed by another digit.

use std::sync::Arc;

use vstd::prelude::*;

use crate::context::ParserContext;
use crate::cursor::Cursor;
use crate::errors::ParserError;
use crate::messages::ParserMessage;
use crate::node::ParserNode;
use crate::reader::Reader;
use crate::result::{
    cursor_manager, messages_extended, messages_unchanged, one_error_reported, ParserResult,
    ParserResultError,
};
use crate::span::Span;
use crate::text::{
    class_run_end, in_range, in_ranges, lemma_class_run_end_bounds, matches_at, ranges_sorted,
    CharRange,
};
use crate::warnings::ParserWarning;

verus! {

/// The digit-group separator class: the underscore.
pub open spec fn separator_ranges() -> Seq<CharRange> {
    seq![CharRange { start: '_', end: '_' }]
}

/// The separator class as a table for the reader.
pub fn separator_chars() -> (r: Vec<CharRange>)
    ensures
        r@ == separator_ranges(),
        ranges_sorted(r@),
{
    let mut v: Vec<CharRange> = Vec::new();
    v.push(CharRange { start: '_', end: '_' });
    proof {
        assert(v@ =~= separator_ranges());
    }
    v
}

/// The numeral bases a literal can be written in.
#[derive(Debug, Clone, Eq, PartialEq, Hash, Structural)]
pub enum Radix {
    Binary,
    Octal,
    Decimal,
    Hexadecimal,
}

/// The prefix text that announces each radix.
pub open spec fn radix_prefix(r: Radix) -> Seq<char> {
    match r {
        Radix::Binary => seq!['0', 'b'],
        Radix::Octal => seq!['0', 'o'],
        Radix::Decimal => seq!['0', 'd'],
        Radix::Hexadecimal => seq!['0', 'x'],
    }
}

/// The digit class of each radix.
pub open spec fn radix_digit_ranges(r: Radix) -> Seq<CharRange> {
    match r {
        Radix::Binary => seq![CharRange { start: '0', end: '1' }],
        Radix::Octal => seq![CharRange { start: '0', end: '7' }],
        Radix::Decimal => seq![CharRange { start: '0', end: '9' }],
        Radix::Hexadecimal => seq![
            CharRange { start: '0', end: '9' },
            CharRange { start: 'A', end: 'F' },
            CharRange { start: 'a', end: 'f' },
        ],
    }
}

impl Radix {
    /// The prefix of the radix as text.
    pub fn prefix_str(&self) -> (r: &'static str)
        ensures
            r@ == radix_prefix(*self),
    {
        proof {
            reveal_strlit("0b");
            reveal_strlit("0o");
            reveal_strlit("0d");
            reveal_strlit("0x");
            assert("0b"@ =~= seq!['0', 'b']);
            assert("0o"@ =~= seq!['0', 'o']);
            assert("0d"@ =~= seq!['0', 'd']);
            assert("0x"@ =~= seq!['0', 'x']);
        }
        match self {
            Radix::Binary => "0b",
            Radix::Octal => "0o",
            Radix::Decimal => "0d",
            Radix::Hexadecimal => "0x",
        }
    }

    /// The digit class of the radix as a table for the reader.
    pub fn digit_chars(&self) -> (r: Vec<CharRange>)
        ensures
            r@ == radix_digit_ranges(*self),
            ranges_sorted(r@),
    {
        let mut v: Vec<CharRange> = Vec::new();
        match self {
            Radix::Binary => {
                v.push(CharRange { start: '0', end: '1' });
            },
            Radix::Octal => {
                v.push(CharRange { start: '0', end: '7' });
            },
            Radix::Decimal => {
                v.push(CharRange { start: '0', end: '9' });
            },
            Radix::Hexadecimal => {
                v.push(CharRange { start: '0', end: '9' });
                v.push(CharRange { start: 'A', end: 'F' });
                v.push(CharRange { start: 'a', end: 'f' });
            },
        }
        proof {
            assert(v@ =~= radix_digit_ranges(*self));
        }
        v
    }
}

/// Where the digit grouping that resumes at `pos` (a position just after a
/// digit run) ends: each further group is a separator run followed by a
/// digit run; a separator run with no digit after it is left unconsumed.
pub open spec fn grouped_end(s: Seq<char>, pos: int, rs: Seq<CharRange>) -> int
    decreases s.len() - pos + 1,
        when 0 <= pos <= s.len()
    via grouped_end_decreases
{
    let sep = class_run_end(s, pos, separator_ranges());
    if sep == pos {
        pos
    } else {
        let dig = class_run_end(s, sep, rs);
        if dig == sep {
            pos
        } else {
            grouped_end(s, dig, rs)
        }
    }
}

#[via_fn]
proof fn grouped_end_decreases(s: Seq<char>, pos: int, rs: Seq<CharRange>) {
    lemma_class_run_end_bounds(s, pos, separator_ranges());
    lemma_class_run_end_bounds(s, class_run_end(s, pos, separator_ranges()), rs);
}

/// Where the whole digit text of a literal whose first digit stands at
/// `pos` ends: the first digit run, then the grouping.
pub open spec fn number_end(s: Seq<char>, pos: int, rs: Seq<CharRange>) -> int {
    grouped_end(s, class_run_end(s, pos, rs), rs)
}

/// The digit grouping stays within the text and only moves forward.
pub proof fn lemma_grouped_end_bounds(s: Seq<char>, pos: int, rs: Seq<CharRange>)
    requires
        0 <= pos <= s.len(),
    ensures
        pos <= grouped_end(s, pos, rs) <= s.len(),
    decreases s.len() - pos + 1,
{
    let sep = class_run_end(s, pos, separator_ranges());
    lemma_class_run_end_bounds(s, pos, separator_ranges());
    if sep != pos {
        let dig = class_run_end(s, sep, rs);
        lemma_class_run_end_bounds(s, sep, rs);
        if dig != sep {
            lemma_grouped_end_bounds(s, dig, rs);
        }
    }
}

/// The digit grouping consumes every remaining character when the text is
/// digits and separators throughout and ends on a digit.
proof fn lemma_grouped_end_consumes_all(s: Seq<char>, pos: int, rs: Seq<CharRange>)
    requires
        0 <= pos <= s.len(),
        forall|i: int|
            pos <= i < s.len() ==> in_ranges(rs, #[trigger] s[i]) || in_ranges(
                separator_ranges(),
                s[i],
            ),
        pos < s.len() ==> !in_ranges(rs, s[pos]),
        pos < s.len() ==> in_ranges(rs, s[s.len() - 1]),
        forall|c: char| #[trigger] in_ranges(separator_ranges(), c) ==> !in_ranges(rs, c),
    ensures
        grouped_end(s, pos, rs) == s.len(),
    decreases s.len() - pos,
{
    lemma_class_run_end_bounds(s, pos, separator_ranges());
    let sep = class_run_end(s, pos, separator_ranges());
    if pos < s.len() {
        assert(in_ranges(separator_ranges(), s[pos]));
        assert(sep > pos);
        assert(sep < s.len()) by {
            if sep == s.len() {
                assert(in_ranges(separator_ranges(), s[s.len() - 1]));
            }
        }
        assert(in_ranges(rs, s[sep]));
        let dig = class_run_end(s, sep, rs);
        lemma_class_run_end_bounds(s, sep, rs);
        assert(dig > sep);
        if dig < s.len() {
            assert(in_ranges(separator_ranges(), s[dig]));
        }
        lemma_grouped_end_consumes_all(s, dig, rs);
    }
}

/// Re-deriving a digit text: a tail that is digits and separators
/// throughout and begins and ends on a digit parses, in isolation, as one
/// whole digit text again.
pub proof fn lemma_digits_rederivation(s: Seq<char>, pos: int, rs: Seq<CharRange>)
    requires
        0 <= pos < s.len(),
        in_ranges(rs, s[pos]),
        in_ranges(rs, s[s.len() - 1]),
        forall|i: int|
            pos <= i < s.len() ==> in_ranges(rs, #[trigger] s[i]) || in_ranges(
                separator_ranges(),
                s[i],
            ),
        forall|c: char| #[trigger] in_ranges(separator_ranges(), c) ==> !in_ranges(rs, c),
    ensures
        number_end(s, pos, rs) == s.len(),
{
    let d0 = class_run_end(s, pos, rs);
    lemma_class_run_end_bounds(s, pos, rs);
    lemma_grouped_end_consumes_all(s, d0, rs);
}

/// The separator is not a digit of any radix.
pub proof fn lemma_separator_not_digit(radix: Radix)
    ensures
        forall|c: char|
            #[trigger] in_ranges(separator_ranges(), c) ==> !in_ranges(
                radix_digit_ranges(radix),
                c,
            ),
{
    assert forall|c: char|
        in_ranges(separator_ranges(), c) implies !in_ranges(
        radix_digit_ranges(radix),
        c,
    ) by {
        let i = choose|i: int|
            0 <= i < separator_ranges().len() && in_range(separator_ranges()[i], c);
        assert(c == '_');
        if in_ranges(radix_digit_ranges(radix), c) {
            let j = choose|j: int|
                0 <= j < radix_digit_ranges(radix).len() && in_range(
                    radix_digit_ranges(radix)[j],
                    c,
                );
            assert(false);
        }
    }
}

/// Re-deriving an integer literal's digits: the digit span a parse
/// produced is, parsed in isolation as the same radix's digit text, one
/// whole literal again covering everything.
pub proof fn lemma_integer_digits_rederivation(n: IntegerNumber)
    requires
        n.wf(),
    ensures
        ({
            let sub = n.digits.text();
            let rs = radix_digit_ranges(n.radix);
            &&& sub.len() > 0
            &&& in_ranges(rs, sub[0])
            &&& number_end(sub, 0, rs) == sub.len()
        }),
{
    let sub = n.digits.text();
    let rs = radix_digit_ranges(n.radix);
    let a = n.digits.start_cursor.char_offset as int;
    let b = n.digits.end_cursor.char_offset as int;
    assert(forall|i: int| 0 <= i < sub.len() ==> sub[i] == #[trigger] n.digits.content@[a + i]);
    assert(sub[0] == n.digits.content@[a]);
    assert(sub[sub.len() - 1] == n.digits.content@[b - 1]);
    lemma_separator_not_digit(n.radix);
    lemma_digits_rederivation(sub, 0, rs);
}

/// Re-deriving a whole integer literal: the exact substring an integer
/// parse consumed is, parsed in isolation by the same rule, the same
/// literal again, with the same radix and prefix, covering everything.
pub proof fn lemma_integer_rederivation(n: IntegerNumber)
    requires
        n.wf(),
    ensures
        ({
            let sub = n.span.text();
            let rs = radix_digit_ranges(n.radix);
            &&& (n.has_prefix ==> prefix_radix_at(sub, 0) == Some(n.radix) && number_end(
                sub,
                2,
                rs,
            ) == sub.len())
            &&& (!n.has_prefix && n.radix == Radix::Decimal ==> prefix_radix_at(sub, 0) is None
                && in_ranges(rs, sub[0]) && number_end(sub, 0, rs) == sub.len())
        }),
{
    let sub = n.span.text();
    let rs = radix_digit_ranges(n.radix);
    let p = n.span.start_cursor.char_offset as int;
    let a = n.digits.start_cursor.char_offset as int;
    let b = n.digits.end_cursor.char_offset as int;
    assert(forall|i: int| 0 <= i < sub.len() ==> sub[i] == #[trigger] n.span.content@[p + i]);
    lemma_separator_not_digit(n.radix);
    if n.has_prefix {
        assert(sub.len() == 2 + (b - a));
        assert(sub.subrange(0, 2) =~= n.span.content@.subrange(p, p + 2));
        assert(n.span.content@.subrange(p, p + 2) == radix_prefix(n.radix));
        assert(matches_at(sub, 0, radix_prefix(n.radix))) by {
            assert(sub.subrange(0, 2) =~= radix_prefix(n.radix));
        }
        assert(sub[0] == radix_prefix(n.radix)[0]);
        assert(sub[1] == radix_prefix(n.radix)[1]);
        assert forall|other: Radix| other != n.radix implies !matches_at(
            sub,
            0,
            radix_prefix(other),
        ) by {
            if matches_at(sub, 0, radix_prefix(other)) {
                assert(sub.subrange(0, 2)[1] == sub[1]);
                assert(radix_prefix(other)[1] == sub[1]);
            }
        }
        assert(prefix_radix_at(sub, 0) == Some(n.radix));
        assert(in_ranges(rs, sub[2]));
        assert(in_ranges(rs, sub[sub.len() - 1]));
        lemma_digits_rederivation(sub, 2, rs);
    }
    if !n.has_prefix && n.radix == Radix::Decimal {
        assert(sub.len() == b - a);
        assert(in_ranges(rs, sub[0]));
        assert(in_ranges(rs, sub[sub.len() - 1]));
        assert forall|other: Radix| true implies !matches_at(sub, 0, radix_prefix(other)) by {
            if matches_at(sub, 0, radix_prefix(other)) {
                assert(sub.subrange(0, 2)[1] == sub[1]);
                assert(radix_prefix(other)[1] == sub[1]);
                assert(in_ranges(rs, sub[1]) || in_ranges(separator_ranges(), sub[1]));
                let j = choose|j: int|
                    0 <= j < rs.len() && in_range(rs[j], radix_prefix(other)[1]);
                assert(false);
            }
        }
        assert(prefix_radix_at(sub, 0) is None);
        lemma_digits_rederivation(sub, 0, rs);
    }
}

/// The range `[a, b)` of `s` is one grouped digit text: nonempty, all
/// digits or separators, starting and ending on a digit.
pub open spec fn digit_group_shape(s: Seq<char>, a: int, b: int, rs: Seq<CharRange>) -> bool {
    &&& 0 <= a < b <= s.len()
    &&& in_ranges(rs, s[a])
    &&& in_ranges(rs, s[b - 1])
    &&& forall|i: int|
        a <= i < b ==> in_ranges(rs, #[trigger] s[i]) || in_ranges(separator_ranges(), s[i])
}

/// A natural (without sign) number literal in the Mosfet language.
/// Can be written in binary (`0b`), octal (`0o`), decimal (`0d`) or
/// hexadecimal (`0x`). For decimal, the prefix can be omitted.
#[derive(Debug, Clone)]
pub struct IntegerNumber {
    pub span: Arc<Span>,
    pub has_prefix: bool,
    pub radix: Radix,
    pub digits: Arc<Span>,
}

impl IntegerNumber {
    /// The digit span is a nonempty run of digits and separators starting
    /// and ending on a digit; the node's span adds the radix prefix in
    /// front of the digits when one was written.
    pub open spec fn wf(&self) -> bool {
        let rs = radix_digit_ranges(self.radix);
        let a = self.digits.start_cursor.char_offset as int;
        let b = self.digits.end_cursor.char_offset as int;
        &&& self.span.wf()
        &&& self.digits.wf()
        &&& self.digits.content@ == self.span.content@
        &&& self.span.end_cursor == self.digits.end_cursor
        &&& a < b
        &&& in_ranges(rs, self.digits.content@[a])
        &&& in_ranges(rs, self.digits.content@[b - 1])
        &&& forall|i: int|
            a <= i < b ==> in_ranges(rs, #[trigger] self.digits.content@[i]) || in_ranges(
                separator_ranges(),
                self.digits.content@[i],
            )
        &&& (self.has_prefix ==> self.span.start_cursor.char_offset + 2 == a && matches_at(
            self.span.content@,
            self.span.start_cursor.char_offset as int,
            radix_prefix(self.radix),
        ))
        &&& (!self.has_prefix ==> self.span.start_cursor == self.digits.start_cursor)
    }

    // GETTERS ----------------------------------------------------------------
    /// Whether the number is prefixed or not.
    pub fn has_prefix(&self) -> (r: bool)
        ensures
            r == self.has_prefix,
    {
        self.has_prefix
    }

    /// The prefix of the number as text, empty when no prefix was written.
    pub fn prefix_str(&self) -> (r: &'static str)
        ensures
            self.has_prefix ==> r@ == radix_prefix(self.radix),
            !self.has_prefix ==> r@.len() == 0,
    {
        if self.has_prefix {
            self.radix.prefix_str()
        } else {
            proof {
                reveal_strlit("");
            }
            ""
        }
    }

    /// The radix in which the number is represented.
    pub fn radix(&self) -> (r: &Radix)
        ensures
            r == &self.radix,
    {
        &self.radix
    }

    /// The digits of the number.
    pub fn digits(&self) -> (r: &Arc<Span>)
        ensures
            r == &self.digits,
    {
        &self.digits
    }
}

impl ParserNode for IntegerNumber {
    open spec fn spec_span(&self) -> Span {
        *self.span
    }

    open spec fn node_wf(&self) -> bool {
        self.wf()
    }

    proof fn node_wf_implies_span_wf(&self) {
        assert(self.node_wf());
        assert(self.span.wf());
        assert(self.spec_span() == *self.span);
    }

    fn span(&self) -> (r: &Arc<Span>) {
        &self.span
    }
}

/// The radix whose prefix is written at `p`, if any. `0d` is tried last, so
/// the prefixes never shadow one another.
pub open spec fn prefix_radix_at(s: Seq<char>, p: int) -> Option<Radix> {
    if matches_at(s, p, seq!['0', 'b']) {
        Some(Radix::Binary)
    } else if matches_at(s, p, seq!['0', 'o']) {
        Some(Radix::Octal)
    } else if matches_at(s, p, seq!['0', 'x']) {
        Some(Radix::Hexadecimal)
    } else if matches_at(s, p, seq!['0', 'd']) {
        Some(Radix::Decimal)
    } else {
        None
    }
}

/// A number parse commits and fails here: a radix prefix is written but no
/// digit of that radix follows it.
pub open spec fn number_error_at(s: Seq<char>, p: int) -> bool {
    let pr = prefix_radix_at(s, p);
    let dstart = p + 2;
    pr is Some && !(dstart < s.len() && in_ranges(radix_digit_ranges(pr->0), s[dstart]))
}

/// Which diagnostic a committed number failure records: the separator
/// variant when a `_` directly follows the prefix, the missing-digit
/// variant otherwise.
pub open spec fn number_error_code(s: Seq<char>, p: int) -> ParserError {
    if p + 2 < s.len() && in_ranges(separator_ranges(), s[p + 2]) {
        ParserError::NumberWithSeparatorAfterPrefix
    } else {
        ParserError::NumberWithoutDigitsAfterPrefix
    }
}

/// What a digit parse starting at `p` adds to the context: one leading-zero
/// warning exactly when the digit text starts with a removable zero, unless
/// that warning class is suppressed.
pub open spec fn leading_zero_warning_expected(
    s: Seq<char>,
    dstart: int,
    dend: int,
    ignore: crate::context::ParserIgnoreConfig,
) -> bool {
    &&& !ignore.number_leading_zeroes
    &&& dstart < dend <= s.len()
    &&& s[dstart] == '0'
    &&& dend - dstart >= 2
}

/// The context after a successful digit parse: exactly one leading-zero
/// warning was appended when one was due, and nothing else.
pub open spec fn leading_zero_outcome(
    oldc: crate::context::ParserContext,
    newc: crate::context::ParserContext,
    s: Seq<char>,
    dstart: int,
    dend: int,
) -> bool {
    if leading_zero_warning_expected(s, dstart, dend, oldc.ignore) {
        &&& messages_extended(oldc, newc)
        &&& newc.messages@.len() == oldc.messages@.len() + 1
        &&& newc.messages@.last().id == crate::messages::ParserMessageId::Warning(
            ParserWarning::NumberWithLeadingZeroes,
        )
        &&& newc.messages@.last().wf()
    } else {
        messages_unchanged(oldc, newc)
    }
}

impl IntegerNumber {
    // STATIC METHODS ---------------------------------------------------------
    /// Parses a prefixed `IntegerNumber` or a decimal without prefix: a
    /// radix prefix commits to that radix, and a prefix followed by no
    /// digit at all is a hard error. A removable leading zero leaves a
    /// warning.
    pub fn parse(reader: &mut Reader, context: &mut ParserContext) -> (r: ParserResult<
        IntegerNumber,
    >)
        requires
            old(reader).wf(),
            old(context).wf(),
        ensures
            final(reader).wf(),
            final(reader).same_source(old(reader)),
            old(reader).pos() <= final(reader).pos(),
            final(context).wf(),
            ({
                let s = old(reader).text();
                let p = old(reader).pos();
                let pr = prefix_radix_at(s, p);
                let radix = if pr is Some {
                    pr->0
                } else {
                    Radix::Decimal
                };
                let dstart = if pr is Some {
                    p + 2
                } else {
                    p
                };
                let rs = radix_digit_ranges(radix);
                &&& (r == ParserResult::<IntegerNumber>::Err(ParserResultError::NotFound) <==> pr
                    is None && !(p < s.len() && in_ranges(rs, s[p])))
                &&& r == ParserResult::<IntegerNumber>::Err(ParserResultError::NotFound)
                    ==> final(reader).cursor == old(reader).cursor && messages_unchanged(
                    *old(context),
                    *final(context),
                )
                &&& (r == ParserResult::<IntegerNumber>::Err(ParserResultError::Error) <==> pr
                    is Some && !(dstart < s.len() && in_ranges(rs, s[dstart])))
                &&& r == ParserResult::<IntegerNumber>::Err(ParserResultError::Error)
                    ==> one_error_reported(
                    *old(context),
                    *final(context),
                    number_error_code(s, p),
                ) && final(reader).pos() > p
                &&& r == ParserResult::<IntegerNumber>::Err(ParserResultError::Error) && dstart
                    < s.len() && in_ranges(separator_ranges(), s[dstart]) ==> final(reader).pos()
                    == dstart + 1
                &&& r == ParserResult::<IntegerNumber>::Err(ParserResultError::Error) && !(dstart
                    < s.len() && in_ranges(separator_ranges(), s[dstart])) ==> final(reader).pos()
                    == dstart
                &&& r matches Ok(n) ==> {
                    &&& n.wf()
                    &&& n.radix == radix
                    &&& n.has_prefix == (pr is Some)
                    &&& n.span.content@ == s
                    &&& n.span.start_cursor == old(reader).cursor
                    &&& n.span.end_cursor == final(reader).cursor
                    &&& n.digits.start_cursor.char_offset == dstart
                    &&& n.digits.end_cursor == final(reader).cursor
                    &&& final(reader).pos() == number_end(s, dstart, rs)
                    &&& leading_zero_outcome(
                        *old(context),
                        *final(context),
                        s,
                        dstart,
                        final(reader).pos(),
                    )
                }
            }),
    {
        let init_cursor = reader.save();
        let result = Self::parse_prefixed_body(reader, context, init_cursor);
        cursor_manager(reader, init_cursor, result)
    }

    /// The body of [`IntegerNumber::parse`], run under the cursor manager.
    fn parse_prefixed_body(
        reader: &mut Reader,
        context: &mut ParserContext,
        init_cursor: Cursor,
    ) -> (r: ParserResult<IntegerNumber>)
        requires
            old(reader).wf(),
            old(context).wf(),
            init_cursor == old(reader).cursor,
        ensures
            final(reader).wf(),
            final(reader).same_source(old(reader)),
            old(reader).pos() <= final(reader).pos(),
            final(context).wf(),
            ({
                let s = old(reader).text();
                let p = old(reader).pos();
                let pr = prefix_radix_at(s, p);
                let radix = if pr is Some {
                    pr->0
                } else {
                    Radix::Decimal
                };
                let dstart = if pr is Some {
                    p + 2
                } else {
                    p
                };
                let rs = radix_digit_ranges(radix);
                &&& (r == ParserResult::<IntegerNumber>::Err(ParserResultError::NotFound) <==> pr
                    is None && !(p < s.len() && in_ranges(rs, s[p])))
                &&& r == ParserResult::<IntegerNumber>::Err(ParserResultError::NotFound)
                    ==> final(reader).cursor == old(reader).cursor && messages_unchanged(
                    *old(context),
                    *final(context),
                )
                &&& (r == ParserResult::<IntegerNumber>::Err(ParserResultError::Error) <==> pr
                    is Some && !(dstart < s.len() && in_ranges(rs, s[dstart])))
                &&& r == ParserResult::<IntegerNumber>::Err(ParserResultError::Error)
                    ==> one_error_reported(
                    *old(context),
                    *final(context),
                    number_error_code(s, p),
                ) && final(reader).pos() > p
                &&& r == ParserResult::<IntegerNumber>::Err(ParserResultError::Error) && dstart
                    < s.len() && in_ranges(separator_ranges(), s[dstart]) ==> final(reader).pos()
                    == dstart + 1
                &&& r == ParserResult::<IntegerNumber>::Err(ParserResultError::Error) && !(dstart
                    < s.len() && in_ranges(separator_ranges(), s[dstart])) ==> final(reader).pos()
                    == dstart
                &&& r matches Ok(n) ==> {
                    &&& n.wf()
                    &&& n.radix == radix
                    &&& n.has_prefix == (pr is Some)
                    &&& n.span.content@ == s
                    &&& n.span.start_cursor == old(reader).cursor
                    &&& n.span.end_cursor == final(reader).cursor
                    &&& n.digits.start_cursor.char_offset == dstart
                    &&& n.digits.end_cursor == final(reader).cursor
                    &&& final(reader).pos() == number_end(s, dstart, rs)
                    &&& leading_zero_outcome(
                        *old(context),
                        *final(context),
                        s,
                        dstart,
                        final(reader).pos(),
                    )
                }
            }),
    {
        proof {
            reveal_strlit("0b");
            reveal_strlit("0o");
            reveal_strlit("0d");
            reveal_strlit("0x");
            assert("0b"@ =~= seq!['0', 'b']);
            assert("0o"@ =~= seq!['0', 'o']);
            assert("0d"@ =~= seq!['0', 'd']);
            assert("0x"@ =~= seq!['0', 'x']);
        }
        if reader.read("0b") {
            let result = Self::parse_number(reader, context, Radix::Binary, true);
            return Self::attach_prefix(reader, init_cursor, result);
        }
        if reader.read("0o") {
            let result = Self::parse_number(reader, context, Radix::Octal, true);
            return Self::attach_prefix(reader, init_cursor, result);
        }
        if reader.read("0x") {
            let result = Self::parse_number(reader, context, Radix::Hexadecimal, true);
            return Self::attach_prefix(reader, init_cursor, result);
        }
        let has_prefix = reader.read("0d");
        let result = Self::parse_number(reader, context, Radix::Decimal, has_prefix);
        if has_prefix {
            Self::attach_prefix(reader, init_cursor, result)
        } else {
            result
        }
    }

    /// Stretches a just-parsed number's span backward over its radix
    /// prefix.
    fn attach_prefix(reader: &Reader, init_cursor: Cursor, result: ParserResult<IntegerNumber>)
        -> (r: ParserResult<IntegerNumber>)
        requires
            reader.wf(),
            init_cursor.wf(reader.text()),
            result matches Ok(n) ==> {
                &&& n.span.content@ == reader.text()
                &&& n.digits.content@ == reader.text()
                &&& n.digits.wf()
                &&& n.span == n.digits
                &&& n.digits.end_cursor == reader.cursor
                &&& init_cursor.char_offset + 2 == n.digits.start_cursor.char_offset
                &&& matches_at(
                    reader.text(),
                    init_cursor.char_offset as int,
                    radix_prefix(n.radix),
                )
                &&& n.digits.start_cursor.char_offset < n.digits.end_cursor.char_offset
                &&& in_ranges(
                    radix_digit_ranges(n.radix),
                    n.digits.content@[n.digits.start_cursor.char_offset as int],
                )
                &&& in_ranges(
                    radix_digit_ranges(n.radix),
                    n.digits.content@[n.digits.end_cursor.char_offset - 1],
                )
                &&& forall|i: int|
                    n.digits.start_cursor.char_offset <= i < n.digits.end_cursor.char_offset
                        ==> in_ranges(
                        radix_digit_ranges(n.radix),
                        #[trigger] n.digits.content@[i],
                    ) || in_ranges(separator_ranges(), n.digits.content@[i])
            },
        ensures
            r is Ok <==> result is Ok,
            r is Err ==> r == result,
            r matches Ok(n) ==> {
                &&& result matches Ok(m) && n.radix == m.radix && n.digits == m.digits
                &&& n.has_prefix
                &&& n.wf()
                &&& n.span.content@ == reader.text()
                &&& n.span.start_cursor == init_cursor
                &&& n.span.end_cursor == reader.cursor
            },
    {
        match result {
            Ok(mut number) => {
                let span = reader.substring_to_current(&init_cursor);
                number.span = Arc::new(span);
                number.has_prefix = true;
                Ok(number)
            },
            Err(e) => Err(e),
        }
    }

    /// Parses a binary `IntegerNumber` without prefix.
    pub fn parse_binary(reader: &mut Reader, context: &mut ParserContext) -> (r: ParserResult<
        IntegerNumber,
    >)
        requires
            old(reader).wf(),
            old(context).wf(),
        ensures
            final(reader).wf(),
            final(reader).same_source(old(reader)),
            old(reader).pos() <= final(reader).pos(),
            final(context).wf(),
            plain_number_contract(
                r,
                *old(reader),
                *final(reader),
                *old(context),
                *final(context),
                Radix::Binary,
            ),
    {
        Self::parse_number(reader, context, Radix::Binary, false)
    }

    /// Parses an octal `IntegerNumber` without prefix.
    pub fn parse_octal(reader: &mut Reader, context: &mut ParserContext) -> (r: ParserResult<
        IntegerNumber,
    >)
        requires
            old(reader).wf(),
            old(context).wf(),
        ensures
            final(reader).wf(),
            final(reader).same_source(old(reader)),
            old(reader).pos() <= final(reader).pos(),
            final(context).wf(),
            plain_number_contract(
                r,
                *old(reader),
                *final(reader),
                *old(context),
                *final(context),
                Radix::Octal,
            ),
    {
        Self::parse_number(reader, context, Radix::Octal, false)
    }

    /// Parses a decimal `IntegerNumber` without prefix.
    pub fn parse_decimal(reader: &mut Reader, context: &mut ParserContext) -> (r: ParserResult<
        IntegerNumber,
    >)
        requires
            old(reader).wf(),
            old(context).wf(),
        ensures
            final(reader).wf(),
            final(reader).same_source(old(reader)),
            old(reader).pos() <= final(reader).pos(),
            final(context).wf(),
            plain_number_contract(
                r,
                *old(reader),
                *final(reader),
                *old(context),
                *final(context),
                Radix::Decimal,
            ),
    {
        Self::parse_number(reader, context, Radix::Decimal, false)
    }

    /// Parses a hexadecimal `IntegerNumber` without prefix.
    pub fn parse_hexadecimal(reader: &mut Reader, context: &mut ParserContext) -> (r: ParserResult<
        IntegerNumber,
    >)
        requires
            old(reader).wf(),
            old(context).wf(),
        ensures
            final(reader).wf(),
            final(reader).same_source(old(reader)),
            old(reader).pos() <= final(reader).pos(),
            final(context).wf(),
            plain_number_contract(
                r,
                *old(reader),
                *final(reader),
                *old(context),
                *final(context),
                Radix::Hexadecimal,
            ),
    {
        Self::parse_number(reader, context, Radix::Hexadecimal, false)
    }

    /// Parses an `IntegerNumber` without prefix, raising the prefix errors
    /// when `has_prefix` says a prefix was just consumed.
    fn parse_number(
        reader: &mut Reader,
        context: &mut ParserContext,
        radix: Radix,
        has_prefix: bool,
    ) -> (r: ParserResult<IntegerNumber>)
        requires
            old(reader).wf(),
            old(context).wf(),
        ensures
            final(reader).wf(),
            final(reader).same_source(old(reader)),
            old(reader).pos() <= final(reader).pos(),
            final(context).wf(),
            ({
                let s = old(reader).text();
                let p = old(reader).pos();
                let rs = radix_digit_ranges(radix);
                &&& (r == ParserResult::<IntegerNumber>::Err(ParserResultError::NotFound) <==> !has_prefix
                    && !(p < s.len() && in_ranges(rs, s[p])))
                &&& r == ParserResult::<IntegerNumber>::Err(ParserResultError::NotFound)
                    ==> final(reader).cursor == old(reader).cursor && messages_unchanged(
                    *old(context),
                    *final(context),
                )
                &&& (r == ParserResult::<IntegerNumber>::Err(ParserResultError::Error) <==> has_prefix
                    && !(p < s.len() && in_ranges(rs, s[p])))
                &&& r == ParserResult::<IntegerNumber>::Err(ParserResultError::Error) && p
                    < s.len() && in_ranges(separator_ranges(), s[p]) ==> one_error_reported(
                    *old(context),
                    *final(context),
                    ParserError::NumberWithSeparatorAfterPrefix,
                ) && final(reader).pos() == p + 1
                &&& r == ParserResult::<IntegerNumber>::Err(ParserResultError::Error) && !(p
                    < s.len() && in_ranges(separator_ranges(), s[p])) ==> one_error_reported(
                    *old(context),
                    *final(context),
                    ParserError::NumberWithoutDigitsAfterPrefix,
                ) && final(reader).pos() == p
                &&& r matches Ok(n) ==> {
                    &&& n.radix == radix
                    &&& n.has_prefix == has_prefix
                    &&& n.span == n.digits
                    &&& n.digits.wf()
                    &&& n.digits.content@ == s
                    &&& n.digits.start_cursor == old(reader).cursor
                    &&& n.digits.end_cursor == final(reader).cursor
                    &&& final(reader).pos() == number_end(s, p, rs)
                    &&& final(reader).pos() > p
                    &&& in_ranges(rs, s[p])
                    &&& in_ranges(rs, s[final(reader).pos() - 1])
                    &&& forall|i: int|
                        p <= i < final(reader).pos() ==> in_ranges(rs, #[trigger] s[i])
                            || in_ranges(separator_ranges(), s[i])
                    &&& leading_zero_outcome(
                        *old(context),
                        *final(context),
                        s,
                        p,
                        final(reader).pos(),
                    )
                }
            }),
    {
        let ghost s = old(reader).text();
        let ghost p = old(reader).pos();
        let init_cursor = reader.save();
        let digit_table = radix.digit_chars();
        let ghost rs = radix_digit_ranges(radix);
        if reader.read_one_or_more_of(digit_table.as_slice()).is_none() {
            if has_prefix {
                let sep_table = separator_chars();
                if reader.read_one_of(sep_table.as_slice()).is_some() {
                    let span = reader.substring_to_current(&init_cursor);
                    let title = "A number cannot start with a separator '_' after the prefix '"
                        .to_owned().concat(radix.prefix_str()).concat("'");
                    context.add_message(
                        ParserMessage::error(
                            ParserError::NumberWithSeparatorAfterPrefix,
                            title,
                            span,
                        ),
                    );
                    proof {
                        assert(context.messages@.subrange(0, old(context).messages@.len() as int)
                            =~= old(context).messages@);
                    }
                    return Err(ParserResultError::Error);
                }
                let span = reader.substring_to_current(&init_cursor);
                let title = "At least one digit was expected after the prefix '".to_owned()
                    .concat(radix.prefix_str()).concat("'");
                context.add_message(
                    ParserMessage::error(ParserError::NumberWithoutDigitsAfterPrefix, title, span),
                );
                proof {
                    assert(context.messages@.subrange(0, old(context).messages@.len() as int)
                        =~= old(context).messages@);
                }
                return Err(ParserResultError::Error);
            }
            return Err(ParserResultError::NotFound);
        }
        let sep_table = separator_chars();
        let ghost q0 = class_run_end(s, p, rs);
        proof {
            lemma_class_run_end_bounds(s, p, rs);
        }
        read_digit_grouping(reader, &radix);
        let digits = Arc::new(reader.substring_to_current(&init_cursor));
        Self::check_leading_zeroes(reader, context, &digits);
        Ok(IntegerNumber { has_prefix, radix, span: digits.clone(), digits })
    }

    /// Records the leading-zeroes warning when the digit text starts with a
    /// removable zero and the warning class is not suppressed. The literal
    /// zero itself is never reported.
    fn check_leading_zeroes(reader: &Reader, context: &mut ParserContext, digits: &Arc<Span>)
        requires
            reader.wf(),
            old(context).wf(),
            digits.wf(),
            digits.content@ == reader.text(),
            digits.start_cursor.char_offset < digits.end_cursor.char_offset,
        ensures
            final(context).wf(),
            leading_zero_outcome(
                *old(context),
                *final(context),
                reader.text(),
                digits.start_cursor.char_offset as int,
                digits.end_cursor.char_offset as int,
            ),
    {
        if context.ignore.number_leading_zeroes {
            return ;
        }
        let ghost s = reader.text();
        let a = digits.start_cursor.char_offset;
        let b = digits.end_cursor.char_offset;
        let mut z: usize = 0;
        while a + z < b && reader.content.as_str().get_char(a + z) == '0'
            invariant
                reader.wf(),
                s == reader.text(),
                a == digits.start_cursor.char_offset,
                b == digits.end_cursor.char_offset,
                a + z <= b <= s.len(),
                forall|i: int| a <= i < a + z ==> s[i] == '0',
            decreases b - (a + z),
        {
            z = z + 1;
        }
        if z == 0 {
            return ;
        }
        if z == b - a && z == 1 {
            return ;
        }
        let number_of_zeroes = if z == b - a {
            z - 1
        } else {
            z
        };
        let zeroes_end = reader.cursor_at(a + number_of_zeroes).unwrap();
        let span = reader.substring(&digits.start_cursor, &zeroes_end);
        let title = "Leading zeroes are unnecessary".to_owned();
        context.add_message(
            ParserMessage::warning(ParserWarning::NumberWithLeadingZeroes, title, span),
        );
        proof {
            assert(context.messages@.subrange(0, old(context).messages@.len() as int) =~= old(
                context,
            ).messages@);
        }
    }
}

/// Consumes the digit grouping that resumes at the current position: each
/// further group is a separator run followed by a digit run; a trailing or
/// doubled separator is rolled back, keeping the digits read so far.
pub(crate) fn read_digit_grouping(reader: &mut Reader, radix: &Radix)
    requires
        old(reader).wf(),
    ensures
        final(reader).wf(),
        final(reader).same_source(old(reader)),
        final(reader).pos() == grouped_end(
            old(reader).text(),
            old(reader).pos(),
            radix_digit_ranges(*radix),
        ),
        old(reader).pos() <= final(reader).pos() <= old(reader).text().len(),
        forall|i: int|
            old(reader).pos() <= i < final(reader).pos() ==> in_ranges(
                radix_digit_ranges(*radix),
                #[trigger] old(reader).text()[i],
            ) || in_ranges(separator_ranges(), old(reader).text()[i]),
        final(reader).pos() > old(reader).pos() ==> in_ranges(
            radix_digit_ranges(*radix),
            old(reader).text()[final(reader).pos() - 1],
        ),
{
    let ghost s = old(reader).text();
    let ghost p = old(reader).pos();
    let ghost rs = radix_digit_ranges(*radix);
    let digit_table = radix.digit_chars();
    let sep_table = separator_chars();
    loop
        invariant
            reader.wf(),
            reader.same_source(old(reader)),
            s == reader.text(),
            s == old(reader).text(),
            p == old(reader).pos(),
            sep_table@ == separator_ranges(),
            ranges_sorted(sep_table@),
            digit_table@ == rs,
            rs == radix_digit_ranges(*radix),
            ranges_sorted(digit_table@),
            p <= reader.pos() <= s.len(),
            grouped_end(s, reader.pos(), rs) == grouped_end(s, p, rs),
            forall|i: int|
                p <= i < reader.pos() ==> in_ranges(rs, #[trigger] s[i]) || in_ranges(
                    separator_ranges(),
                    s[i],
                ),
            reader.pos() > p ==> in_ranges(rs, s[reader.pos() - 1]),
        ensures
            reader.wf(),
            reader.same_source(old(reader)),
            s == reader.text(),
            reader.pos() == grouped_end(s, p, rs),
            p <= reader.pos() <= s.len(),
            forall|i: int|
                p <= i < reader.pos() ==> in_ranges(rs, #[trigger] s[i]) || in_ranges(
                    separator_ranges(),
                    s[i],
                ),
            reader.pos() > p ==> in_ranges(rs, s[reader.pos() - 1]),
        decreases s.len() - reader.pos(),
    {
        let loop_cursor = reader.save();
        if reader.read_one_or_more_of(sep_table.as_slice()).is_none() {
            proof {
                assert(class_run_end(s, loop_cursor.char_offset as int, separator_ranges())
                    == loop_cursor.char_offset as int);
                assert(grouped_end(s, loop_cursor.char_offset as int, rs)
                    == loop_cursor.char_offset as int);
            }
            break;
        }
        let ghost sep_end = reader.pos();
        if reader.read_one_or_more_of(digit_table.as_slice()).is_none() {
            reader.restore(loop_cursor);
            proof {
                assert(class_run_end(s, sep_end, rs) == sep_end);
                assert(grouped_end(s, loop_cursor.char_offset as int, rs)
                    == loop_cursor.char_offset as int);
            }
            break;
        }
        proof {
            crate::text::lemma_class_run_end_bounds(
                s,
                loop_cursor.char_offset as int,
                separator_ranges(),
            );
            crate::text::lemma_class_run_end_bounds(s, sep_end, rs);
            assert(grouped_end(s, loop_cursor.char_offset as int, rs) == grouped_end(
                s,
                reader.pos(),
                rs,
            ));
        }
    }
}

/// The failure half of the contract of the prefixed-literal parsers:
/// `NotFound` exactly when no prefix and no bare decimal digit stands here,
/// a hard error exactly when a prefix is followed by no digit of its radix,
/// with the separator and missing-digit diagnostics told apart.
pub open spec fn prefixed_number_failures<T>(
    r: ParserResult<T>,
    old_reader: Reader,
    new_reader: Reader,
    oldc: crate::context::ParserContext,
    newc: crate::context::ParserContext,
) -> bool {
    let s = old_reader.text();
    let p = old_reader.pos();
    let pr = prefix_radix_at(s, p);
    let radix = if pr is Some {
        pr->0
    } else {
        Radix::Decimal
    };
    let dstart = if pr is Some {
        p + 2
    } else {
        p
    };
    let rs = radix_digit_ranges(radix);
    &&& (r == ParserResult::<T>::Err(ParserResultError::NotFound) <==> pr is None && !(p < s.len()
        && in_ranges(rs, s[p])))
    &&& r == ParserResult::<T>::Err(ParserResultError::NotFound) ==> new_reader.cursor
        == old_reader.cursor && messages_unchanged(oldc, newc)
    &&& (r == ParserResult::<T>::Err(ParserResultError::Error) <==> number_error_at(s, p))
    &&& r == ParserResult::<T>::Err(ParserResultError::Error) ==> one_error_reported(
        oldc,
        newc,
        number_error_code(s, p),
    ) && new_reader.pos() > p
    &&& r == ParserResult::<T>::Err(ParserResultError::Error) && dstart < s.len() && in_ranges(
        separator_ranges(),
        s[dstart],
    ) ==> new_reader.pos() == dstart + 1
    &&& r == ParserResult::<T>::Err(ParserResultError::Error) && !(dstart < s.len() && in_ranges(
        separator_ranges(),
        s[dstart],
    )) ==> new_reader.pos() == dstart
}

/// The contract shared by the four fixed-radix digit parsers: never a hard
/// error, `NotFound` exactly when no digit of the radix stands here, and on
/// success the maximal grouped digit run with its warning bookkeeping.
pub open spec fn plain_number_contract(
    r: ParserResult<IntegerNumber>,
    old_reader: Reader,
    new_reader: Reader,
    oldc: crate::context::ParserContext,
    newc: crate::context::ParserContext,
    radix: Radix,
) -> bool {
    let s = old_reader.text();
    let p = old_reader.pos();
    let rs = radix_digit_ranges(radix);
    &&& (r is Err <==> !(p < s.len() && in_ranges(rs, s[p])))
    &&& r is Err ==> r->Err_0 == ParserResultError::NotFound && new_reader.cursor
        == old_reader.cursor && messages_unchanged(oldc, newc)
    &&& r matches Ok(n) ==> {
        &&& n.wf()
        &&& n.radix == radix
        &&& !n.has_prefix
        &&& n.span == n.digits
        &&& n.digits.content@ == s
        &&& n.digits.start_cursor == old_reader.cursor
        &&& n.digits.end_cursor == new_reader.cursor
        &&& new_reader.pos() == number_end(s, p, rs)
        &&& new_reader.pos() > p
        &&& leading_zero_outcome(oldc, newc, s, p, new_reader.pos())
    }
}

} // verus!
