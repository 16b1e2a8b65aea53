//! Execution policies, chosen once before a run and never mutated after.

use vstd::prelude::*;

verus! {

/// What a read instruction does to the current cell when input is exhausted.
#[derive(Clone, Copy, Debug, PartialEq, Eq, Structural)]
pub enum EofBehavior {
    /// Leave the cell unchanged.
    AsIs,
    /// Set the cell to 255, the byte value of -1.
    NegativeOne,
    /// Set the cell to 0.
    Zero,
}

/// The newline encoding, for both input decoding and output encoding.
#[derive(Clone, Copy, Debug, PartialEq, Eq, Structural)]
pub enum NewlineMode {
    /// Carriage return followed by line feed.
    CRLF,
    /// A single line feed.
    LF,
}

/// How a read instruction decodes input.
#[derive(Clone, Copy, Debug, PartialEq, Eq, Structural)]
pub enum InputMode {
    /// One raw byte per read.
    Ascii,
    /// A run of decimal digits ended by the configured newline.
    Digit,
}

/// The immutable configuration of one interpreter.
#[derive(Clone, Copy, Debug)]
pub struct Settings {
    /// Grow the tape on demand instead of keeping a fixed allocation.
    pub dynamic_size: bool,
    /// Initial tape length; also the fixed length when growth is off.
    pub array_size: usize,
    /// Policy for reads at end of input.
    pub eof_behavior: EofBehavior,
    /// Newline encoding for input and output.
    pub newline_mode: NewlineMode,
    /// Suppress delivering decoded newline bytes as input.
    pub ignore_newline: bool,
    /// Raw byte input versus decimal digit input.
    pub input_mode: InputMode,
    /// Wrap the cell pointer from index 0 to the last index on a left move.
    /// The right edge of a fixed-size tape always wraps, regardless.
    pub wrapping: bool,
}

impl Settings {
    /// The tape length must be positive.
    pub open spec fn wf(self) -> bool {
        self.array_size >= 1
    }
}

} // verus!
