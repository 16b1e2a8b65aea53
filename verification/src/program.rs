//! The compiled program: an ordered list of jump-resolved instructions.

use vstd::prelude::*;

verus! {

/// One resolved instruction.
///
/// `Open` and `Close` are mutually resolved at compile time: an `Open`'s
/// target is the index one past its matching `Close`, and that `Close`'s
/// target is the index of the `Open` itself.
#[derive(Clone, Copy, Debug, PartialEq, Eq, Structural)]
pub enum Command {
    /// Stop execution.
    Halt,
    /// Move the cell pointer one cell right.
    Right,
    /// Move the cell pointer one cell left.
    Left,
    /// Add one to the current cell, modulo 256.
    Inc,
    /// Subtract one from the current cell, modulo 256.
    Dec,
    /// If the current cell is zero, jump to the carried index.
    Open(usize),
    /// If the current cell is nonzero, jump to the carried index.
    Close(usize),
    /// Read one decoded input byte into the current cell.
    Read,
    /// Write the current cell to the output sink.
    Write,
}

/// Instructions for one run; the compiler always appends a final `Halt`.
#[derive(Clone, Debug)]
pub struct Program(pub Vec<Command>);

impl View for Program {
    type V = Seq<Command>;

    open spec fn view(&self) -> Seq<Command> {
        self.0@
    }
}

/// Whether a command's jump target, if it has one, stays inside a program of
/// length `len`.
pub open spec fn target_in_bounds(c: Command, len: nat) -> bool {
    match c {
        Command::Open(t) => t < len,
        Command::Close(t) => t < len,
        _ => true,
    }
}

/// A well-formed instruction list is nonempty, ends in `Halt`, and keeps
/// every jump target inside the list. The compiler only produces such lists,
/// so the instruction pointer stays a valid index while execution has not
/// halted.
pub open spec fn prog_wf(prog: Seq<Command>) -> bool {
    &&& prog.len() >= 1
    &&& prog.last() == Command::Halt
    &&& forall|i: int| 0 <= i < prog.len() ==> target_in_bounds(#[trigger] prog[i], prog.len())
}

impl Program {
    /// Whether this program's instruction list is well formed.
    pub open spec fn wf(self) -> bool {
        prog_wf(self@)
    }
}

} // verus!
