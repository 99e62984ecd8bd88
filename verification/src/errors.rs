//! The error kinds that the pipeline can report.

use vstd::prelude::*;

verus! {

/// Everything that can go wrong while encoding or running a program.
///
/// Every failure is fatal to the run; there is no recovery or retry.
#[derive(Debug, Clone, Copy, PartialEq, Eq, Structural)]
pub enum Error {
    /// The encoder was handed an empty symbol sequence.
    EmptyProgram,
    /// A run of identical symbols is longer than a repeat count can hold.
    RunLengthOverflow,
    /// A move would push the data pointer past the end of the tape.
    TapeOverflow,
    /// A move would push the data pointer below the start of the tape.
    TapeUnderflow,
    /// An input line is not an unsigned integer between 0 and 255.
    InputParseError,
    /// An input instruction ran but no input line was left.
    InputEof,
    /// A loop-end took its backward jump with no loop-start on the stack.
    UnmatchedLoopEnd,
}

} // verus!
