//! The warnings that parsers can rise.

use vstd::prelude::*;

verus! {

/// The warnings that parsers can rise. A warning never changes the result
/// signal of a rule; it only adds a diagnostic to the context.
#[derive(Debug, Copy, Clone, Eq, PartialEq, Hash, Structural)]
pub enum ParserWarning {
    NumberWithLeadingZeroes,
    NumberWithTrailingZeroes,
}

/// The name of the warning, the stable code that tooling keys off.
pub open spec fn warning_code(w: ParserWarning) -> Seq<char> {
    match w {
        ParserWarning::NumberWithLeadingZeroes => "NumberWithLeadingZeroes"@,
        ParserWarning::NumberWithTrailingZeroes => "NumberWithTrailingZeroes"@,
    }
}

impl ParserWarning {
    /// The stable identifier code of this warning.
    pub fn code(&self) -> (r: &'static str)
        ensures
            r@ == warning_code(*self),
    {
        match self {
            ParserWarning::NumberWithLeadingZeroes => "NumberWithLeadingZeroes",
            ParserWarning::NumberWithTrailingZeroes => "NumberWithTrailingZeroes",
        }
    }
}

} // verus!
