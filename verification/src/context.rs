//! The per-session state of one parse: the ordered accumulator of recorded
//! diagnostics, and the configuration that suppresses chosen warning
//! classes before they are ever recorded.

use vstd::prelude::*;

use crate::messages::ParserMessage;

verus! {

/// The named switches that disable specific warning classes. Every class
/// defaults to "warning enabled", that is, to `false` here.
#[derive(Debug, Copy, Clone, PartialEq, Eq, Structural)]
pub struct ParserIgnoreConfig {
    pub number_leading_zeroes: bool,
    pub number_trailing_zeroes: bool,
}

impl ParserIgnoreConfig {
    /// Builds the default configuration: no warning class is suppressed.
    pub fn new() -> (r: ParserIgnoreConfig)
        ensures
            !r.number_leading_zeroes,
            !r.number_trailing_zeroes,
    {
        ParserIgnoreConfig { number_leading_zeroes: false, number_trailing_zeroes: false }
    }
}

impl Default for ParserIgnoreConfig {
    fn default() -> (r: Self)
        ensures
            !r.number_leading_zeroes,
            !r.number_trailing_zeroes,
    {
        Self::new()
    }
}

/// The context of the parser that contains all contextual information of
/// the parsing: the recorded messages, in discovery order, and the
/// ignore-configuration.
#[derive(Debug)]
pub struct ParserContext {
    pub messages: Vec<ParserMessage>,
    pub ignore: ParserIgnoreConfig,
}

impl ParserContext {
    /// Every recorded message has a sound span.
    pub open spec fn wf(&self) -> bool {
        forall|i: int| 0 <= i < self.messages@.len() ==> (#[trigger] self.messages@[i]).wf()
    }

    // CONSTRUCTORS -----------------------------------------------------------
    /// Builds a new `ParserContext` with the given configuration and no
    /// messages.
    pub fn new(ignore: ParserIgnoreConfig) -> (r: ParserContext)
        ensures
            r.messages@.len() == 0,
            r.ignore == ignore,
            r.wf(),
    {
        ParserContext { messages: Vec::new(), ignore }
    }

    // GETTERS ----------------------------------------------------------------
    /// The messages recorded so far, in discovery order.
    pub fn messages(&self) -> (r: &Vec<ParserMessage>)
        ensures
            r == &self.messages,
    {
        &self.messages
    }

    /// The ignore-configuration of this session.
    pub fn ignore(&self) -> (r: &ParserIgnoreConfig)
        ensures
            r == &self.ignore,
    {
        &self.ignore
    }

    // METHODS ----------------------------------------------------------------
    /// Appends one diagnostic; recorded messages are never reordered or
    /// dropped.
    pub fn add_message(&mut self, message: ParserMessage)
        ensures
            final(self).messages@ == old(self).messages@.push(message),
            final(self).ignore == old(self).ignore,
    {
        self.messages.push(message);
    }
}

impl Default for ParserContext {
    fn default() -> (r: Self)
        ensures
            r.messages@.len() == 0,
            !r.ignore.number_leading_zeroes,
            !r.ignore.number_trailing_zeroes,
            r.wf(),
    {
        Self::new(ParserIgnoreConfig::new())
    }
}

} // verus!
