//! Character-level facts about source text: UTF-8 byte widths, newline
//! bookkeeping for the line/column coordinate model, character classes,
//! maximal runs, and literal search.
//!
//! Everything here is stated over `Seq<char>`, the view that `String` and
//! `str` share; the reader, cursors and spans state their contracts in these
//! terms.

use vstd::prelude::*;
use vstd::utf8::{encode_scalar, encode_utf8};

verus! {

// ---------------------------------------------------------------------------
// UTF-8 byte widths
// ---------------------------------------------------------------------------
/// The number of bytes the UTF-8 encoding of `c` occupies.
pub open spec fn char_len(c: char) -> int {
    if (c as u32) < 0x80 {
        1
    } else if (c as u32) < 0x800 {
        2
    } else if (c as u32) < 0x10000 {
        3
    } else {
        4
    }
}

/// The number of bytes the UTF-8 encoding of `s` occupies.
pub open spec fn bytes_len(s: Seq<char>) -> int
    decreases s.len(),
{
    if s.len() == 0 {
        0
    } else {
        char_len(s[0]) + bytes_len(s.drop_first())
    }
}

/// Computes the UTF-8 width of one character.
pub fn char_utf8_len(c: char) -> (r: usize)
    ensures
        r == char_len(c),
{
    let u = c as u32;
    if u < 0x80 {
        1
    } else if u < 0x800 {
        2
    } else if u < 0x10000 {
        3
    } else {
        4
    }
}

pub proof fn lemma_bytes_len_bounds(s: Seq<char>)
    ensures
        s.len() <= bytes_len(s) <= 4 * s.len(),
    decreases s.len(),
{
    if s.len() > 0 {
        lemma_bytes_len_bounds(s.drop_first());
    }
}

pub proof fn lemma_bytes_len_push(s: Seq<char>, c: char)
    ensures
        bytes_len(s.push(c)) == bytes_len(s) + char_len(c),
    decreases s.len(),
{
    let p = s.push(c);
    assert(p.len() == s.len() + 1);
    assert(bytes_len(p) == char_len(p[0]) + bytes_len(p.drop_first()));
    if s.len() == 0 {
        assert(p.drop_first() =~= Seq::<char>::empty());
        assert(p[0] == c);
        assert(bytes_len(p.drop_first()) == 0);
    } else {
        assert(p.drop_first() =~= s.drop_first().push(c));
        assert(p[0] == s[0]);
        lemma_bytes_len_push(s.drop_first(), c);
        assert(bytes_len(s) == char_len(s[0]) + bytes_len(s.drop_first()));
    }
}

/// One more character of a prefix adds that character's width.
pub proof fn lemma_bytes_len_take_step(s: Seq<char>, n: int)
    requires
        0 <= n < s.len(),
    ensures
        bytes_len(s.take(n + 1)) == bytes_len(s.take(n)) + char_len(s[n]),
{
    assert(s.take(n + 1) =~= s.take(n).push(s[n]));
    lemma_bytes_len_push(s.take(n), s[n]);
}

/// Byte lengths of prefixes grow strictly with the character count.
pub proof fn lemma_bytes_len_take_mono(s: Seq<char>, a: int, b: int)
    requires
        0 <= a <= b <= s.len(),
    ensures
        bytes_len(s.take(a)) <= bytes_len(s.take(b)),
        a < b ==> bytes_len(s.take(a)) < bytes_len(s.take(b)),
    decreases b - a,
{
    if a < b {
        lemma_bytes_len_take_step(s, b - 1);
        lemma_bytes_len_take_mono(s, a, b - 1);
    } else {
        assert(s.take(a) =~= s.take(b));
    }
}

/// A prefix's byte length splits at any interior position.
pub proof fn lemma_bytes_len_split(s: Seq<char>, a: int, b: int)
    requires
        0 <= a <= b <= s.len(),
    ensures
        bytes_len(s.take(b)) == bytes_len(s.take(a)) + bytes_len(s.subrange(a, b)),
    decreases b - a,
{
    if a == b {
        assert(s.subrange(a, b) =~= Seq::<char>::empty());
    } else {
        lemma_bytes_len_split(s, a, b - 1);
        lemma_bytes_len_take_step(s, b - 1);
        assert(s.subrange(a, b) =~= s.subrange(a, b - 1).push(s[b - 1]));
        lemma_bytes_len_push(s.subrange(a, b - 1), s[b - 1]);
    }
}

/// `bytes_len` agrees with the byte length of vstd's UTF-8 encoding, which is
/// what `str::len` returns.
pub proof fn lemma_bytes_len_is_encoded_len(s: Seq<char>)
    ensures
        bytes_len(s) == encode_utf8(s).len(),
    decreases s.len(),
{
    if s.len() > 0 {
        vstd::utf8::char_is_scalar(s[0]);
        assert(encode_scalar(s[0] as u32).len() == char_len(s[0]));
        lemma_bytes_len_is_encoded_len(s.drop_first());
    }
}

// ---------------------------------------------------------------------------
// Newlines, lines and columns
// ---------------------------------------------------------------------------
/// How many line breaks (`'\n'`) occur in `s`.
pub open spec fn newline_count(s: Seq<char>) -> int
    decreases s.len(),
{
    if s.len() == 0 {
        0
    } else {
        newline_count(s.drop_last()) + if s.last() == '\n' {
            1int
        } else {
            0int
        }
    }
}

pub proof fn lemma_newline_count_bounds(s: Seq<char>)
    ensures
        0 <= newline_count(s) <= s.len(),
    decreases s.len(),
{
    if s.len() > 0 {
        lemma_newline_count_bounds(s.drop_last());
    }
}

pub proof fn lemma_newline_count_take_step(s: Seq<char>, n: int)
    requires
        0 <= n < s.len(),
    ensures
        newline_count(s.take(n + 1)) == newline_count(s.take(n)) + if s[n] == '\n' {
            1int
        } else {
            0int
        },
{
    assert(s.take(n + 1).drop_last() =~= s.take(n));
    assert(s.take(n + 1).last() == s[n]);
}

/// The line count never shrinks along the text.
pub proof fn lemma_newline_count_mono(s: Seq<char>, a: int, b: int)
    requires
        0 <= a <= b <= s.len(),
    ensures
        newline_count(s.take(a)) <= newline_count(s.take(b)),
    decreases b - a,
{
    if a < b {
        lemma_newline_count_mono(s, a, b - 1);
        lemma_newline_count_take_step(s, b - 1);
    }
}

/// The line count changes across a window exactly when the window holds a
/// line break.
pub proof fn lemma_newline_count_window(s: Seq<char>, a: int, b: int)
    requires
        0 <= a <= b <= s.len(),
    ensures
        (newline_count(s.take(a)) != newline_count(s.take(b))) == exists|i: int|
            a <= i < b && #[trigger] s[i] == '\n',
{
    if exists|i: int| a <= i < b && #[trigger] s[i] == '\n' {
        let w = choose|i: int| a <= i < b && #[trigger] s[i] == '\n';
        lemma_newline_count_mono(s, a, w);
        lemma_newline_count_take_step(s, w);
        lemma_newline_count_mono(s, w + 1, b);
    } else {
        lemma_newline_count_stable(s, a, b);
    }
}

/// A stretch without line breaks leaves the line count unchanged.
pub proof fn lemma_newline_count_stable(s: Seq<char>, a: int, b: int)
    requires
        0 <= a <= b <= s.len(),
        forall|i: int| a <= i < b ==> s[i] != '\n',
    ensures
        newline_count(s.take(b)) == newline_count(s.take(a)),
    decreases b - a,
{
    if a < b {
        lemma_newline_count_stable(s, a, b - 1);
        lemma_newline_count_take_step(s, b - 1);
    }
}

/// The character offset at which the line containing position `pos` starts:
/// the nearest position at or before `pos` that follows a `'\n'`, or the
/// start of the text. A `'\n'` ends its line, so the position just after a
/// `'\n'` starts the next line.
pub open spec fn line_start(s: Seq<char>, pos: int) -> int
    decreases pos,
{
    if pos <= 0 {
        0
    } else if s[pos - 1] == '\n' {
        pos
    } else {
        line_start(s, pos - 1)
    }
}

pub proof fn lemma_line_start_bounds(s: Seq<char>, pos: int)
    requires
        0 <= pos,
    ensures
        0 <= line_start(s, pos) <= pos,
    decreases pos,
{
    if pos > 0 && s[pos - 1] != '\n' {
        lemma_line_start_bounds(s, pos - 1);
    }
}

/// The first position at or after `pos` holding a `'\n'`, or the text length
/// if no line break follows.
pub open spec fn next_newline(s: Seq<char>, pos: int) -> int
    recommends
        0 <= pos <= s.len(),
    decreases s.len() - pos,
{
    if pos < 0 || pos >= s.len() {
        s.len() as int
    } else if s[pos] == '\n' {
        pos
    } else {
        next_newline(s, pos + 1)
    }
}

pub proof fn lemma_next_newline_bounds(s: Seq<char>, pos: int)
    requires
        0 <= pos <= s.len(),
    ensures
        pos <= next_newline(s, pos) <= s.len(),
        next_newline(s, pos) < s.len() ==> s[next_newline(s, pos)] == '\n',
        forall|i: int| pos <= i < next_newline(s, pos) ==> s[i] != '\n',
    decreases s.len() - pos,
{
    if pos < s.len() && s[pos] != '\n' {
        lemma_next_newline_bounds(s, pos + 1);
    }
}

// ---------------------------------------------------------------------------
// Character classes
// ---------------------------------------------------------------------------
/// An inclusive range of characters; a character class is a sorted slice of
/// these.
#[derive(Debug, Clone, Copy, PartialEq, Eq, Structural)]
pub struct CharRange {
    pub start: char,
    pub end: char,
}

/// Whether `c` lies in the inclusive range `r`.
pub open spec fn in_range(r: CharRange, c: char) -> bool {
    r.start <= c && c <= r.end
}

/// Whether `c` lies in one of the ranges of `rs`.
pub open spec fn in_ranges(rs: Seq<CharRange>, c: char) -> bool {
    exists|i: int| 0 <= i < rs.len() && in_range(rs[i], c)
}

/// The ranges are ordered by their lower bounds, which is what the early exit
/// of the range scan relies on.
pub open spec fn ranges_sorted(rs: Seq<CharRange>) -> bool {
    forall|i: int, j: int| 0 <= i < j < rs.len() ==> rs[i].start <= rs[j].start
}

/// Decides membership of `c` in the sorted character class `rs`, leaving the
/// scan early once a range's lower bound exceeds `c`.
pub fn check_inside(c: char, rs: &[CharRange]) -> (r: bool)
    requires
        ranges_sorted(rs@),
    ensures
        r == in_ranges(rs@, c),
{
    let n = rs.len();
    let mut i: usize = 0;
    while i < n
        invariant
            0 <= i <= n,
            n == rs@.len(),
            ranges_sorted(rs@),
            forall|k: int| 0 <= k < i ==> !in_range(rs@[k], c),
        decreases n - i,
    {
        let range = rs[i];
        if c < range.start {
            assert(forall|k: int| i <= k < rs@.len() ==> rs@[i as int].start <= rs@[k].start);
            return false;
        }
        if c <= range.end {
            return true;
        }
        i = i + 1;
    }
    false
}

// ---------------------------------------------------------------------------
// Maximal runs
// ---------------------------------------------------------------------------
/// The end of the maximal run of characters of the class `rs` that starts at
/// `pos`: the first position at or after `pos` whose character falls outside
/// the class, or the text length.
pub open spec fn class_run_end(s: Seq<char>, pos: int, rs: Seq<CharRange>) -> int
    recommends
        0 <= pos <= s.len(),
    decreases s.len() - pos,
{
    if pos < 0 || pos >= s.len() {
        s.len() as int
    } else if !in_ranges(rs, s[pos]) {
        pos
    } else {
        class_run_end(s, pos + 1, rs)
    }
}

pub proof fn lemma_class_run_end_bounds(s: Seq<char>, pos: int, rs: Seq<CharRange>)
    requires
        0 <= pos <= s.len(),
    ensures
        pos <= class_run_end(s, pos, rs) <= s.len(),
        forall|i: int| pos <= i < class_run_end(s, pos, rs) ==> in_ranges(rs, s[i]),
        class_run_end(s, pos, rs) < s.len() ==> !in_ranges(rs, s[class_run_end(s, pos, rs)]),
    decreases s.len() - pos,
{
    if pos < s.len() && in_ranges(rs, s[pos]) {
        lemma_class_run_end_bounds(s, pos + 1, rs);
    }
}

/// The characterization of `lemma_class_run_end_bounds` pins the run end
/// down: any position with those properties is the run end.
pub proof fn lemma_class_run_end_unique(s: Seq<char>, pos: int, rs: Seq<CharRange>, e: int)
    requires
        0 <= pos <= e <= s.len(),
        forall|i: int| pos <= i < e ==> in_ranges(rs, s[i]),
        e < s.len() ==> !in_ranges(rs, s[e]),
    ensures
        class_run_end(s, pos, rs) == e,
    decreases e - pos,
{
    if pos < e {
        lemma_class_run_end_unique(s, pos + 1, rs, e);
    } else {
        if pos < s.len() {
            assert(!in_ranges(rs, s[pos]));
        }
    }
}

// ---------------------------------------------------------------------------
// Literal search
// ---------------------------------------------------------------------------
/// Whether the text `pat` occurs in `s` starting exactly at position `i`.
pub open spec fn matches_at(s: Seq<char>, i: int, pat: Seq<char>) -> bool {
    0 <= i && i + pat.len() <= s.len() && s.subrange(i, i + pat.len()) =~= pat
}

/// The first position at or after `pos` where `pat` occurs in `s`, or `-1`
/// when it occurs nowhere at or after `pos`.
pub open spec fn first_match(s: Seq<char>, pos: int, pat: Seq<char>) -> int
    recommends
        0 <= pos <= s.len(),
    decreases s.len() - pos,
{
    if pos < 0 || pos + pat.len() > s.len() {
        -1
    } else if matches_at(s, pos, pat) {
        pos
    } else {
        first_match(s, pos + 1, pat)
    }
}

pub proof fn lemma_first_match_found(s: Seq<char>, pos: int, pat: Seq<char>)
    requires
        0 <= pos <= s.len(),
        first_match(s, pos, pat) != -1,
    ensures
        pos <= first_match(s, pos, pat),
        matches_at(s, first_match(s, pos, pat), pat),
        forall|i: int| pos <= i < first_match(s, pos, pat) ==> !matches_at(s, i, pat),
    decreases s.len() - pos,
{
    if pos + pat.len() <= s.len() && !matches_at(s, pos, pat) {
        lemma_first_match_found(s, pos + 1, pat);
    }
}

/// Searching for a lone line break is finding the next newline.
pub proof fn lemma_first_match_newline(s: Seq<char>, pos: int)
    requires
        0 <= pos <= s.len(),
    ensures
        first_match(s, pos, seq!['\n']) == if next_newline(s, pos) < s.len() {
            next_newline(s, pos)
        } else {
            -1int
        },
    decreases s.len() - pos,
{
    if pos < s.len() {
        assert(s.subrange(pos, pos + 1) =~= seq![s[pos]]);
        if s[pos] == '\n' {
            assert(matches_at(s, pos, seq!['\n']));
        } else {
            assert(s.subrange(pos, pos + 1)[0] == s[pos]);
            assert(!matches_at(s, pos, seq!['\n']));
            lemma_first_match_newline(s, pos + 1);
        }
    }
}


} // verus!
