//! The two error taxonomies: compile-time errors and run-time outcomes.

use vstd::prelude::*;

verus! {

/// Error during compilation.
#[derive(Clone, Copy, Debug, PartialEq, Eq, Structural)]
pub enum CompileError {
    /// A character the compiler refuses, with its offset.
    ///
    /// Defined for a stricter scanning mode; the permissive scanner skips
    /// unrecognized characters instead, so it never raises this variant.
    Syntax(usize, char),
    /// A bracket without a partner.
    ///
    /// The offset points at the earliest unmatched `[` if any remain open at
    /// the end of the pass, or at a stray `]` met with no `[` pending.
    UnmatchedBracket(usize),
}

/// Outcome of executing a single instruction.
///
/// Everything but `Continue` is terminal: the caller must stop stepping.
#[derive(Clone, Copy, Debug, PartialEq, Eq, Structural)]
pub enum RunResult {
    /// One instruction executed; more remain.
    Continue,
    /// The program reached its final `Halt` instruction.
    Halted,
    /// A fixed-size tape was accessed out of range, at the carried index.
    IndexOutOfBound(usize),
    /// The underlying input source faulted.
    ReadFailed,
    /// The underlying output sink faulted, or its flush did.
    WriteFailed,
    /// Digit-mode input decoding met an invalid byte.
    ParseNumError,
}

} // verus!
