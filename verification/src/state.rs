//! Parse position bookkeeping and the structured hard-failure values.

use vstd::prelude::*;

verus! {

/// What the parser was attempting when a hard failure occurred, so that
/// diagnostics can read naturally.
#[derive(Clone, Copy, Debug, PartialEq, Eq, Structural)]
pub enum Attempting {
    Identifier,
    Expression,
}

/// The reason for a hard failure: an unexpected character together with its
/// character offset within the attempt, or an unexpected end of input.
#[derive(Clone, Copy, Debug, PartialEq, Eq, Structural)]
pub enum FailReason {
    UnexpectedChar(char, usize),
    UnexpectedEof(usize),
}

/// A hard failure. Only inputs that cannot begin an identifier at all abort
/// this way; every other structural violation degrades to a recoverable
/// `Malformed` token.
#[derive(Clone, Copy, Debug, PartialEq, Eq, Structural)]
pub struct Fail {
    pub reason: FailReason,
    pub attempting: Attempting,
}

/// A snapshot of the stream position. The classifier never inspects it; it
/// only advances it by the number of characters it consumed.
#[derive(Clone, Copy, Debug, PartialEq, Eq, Structural)]
pub struct State {
    /// Characters consumed from the stream so far.
    pub offset: usize,
}

impl State {
    /// The position at the start of the stream.
    pub fn new() -> (s: State)
        ensures
            s.offset == 0,
    {
        State { offset: 0 }
    }

    /// The position a given number of characters further along, on the same
    /// line: no indentation bookkeeping needs to be redone.
    pub fn advance_without_indenting(self, n: usize) -> (s: State)
        requires
            self.offset + n <= usize::MAX,
        ensures
            s.offset == self.offset + n,
    {
        State { offset: self.offset + n }
    }
}

} // verus!
