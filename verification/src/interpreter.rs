//! The execution engine: one instruction per call against mutable run state,
//! applying the configured policies at every instruction that touches memory,
//! the pointer, or the byte streams.

use vstd::prelude::*;

use crate::cells::{Cells, grown};
use crate::error::RunResult;
use crate::io_buffer::{ByteRead, ByteSink, ByteSource};
use crate::program::{Command, Program};
use crate::settings::{EofBehavior, InputMode, NewlineMode, Settings};

verus! {

/// Mutable state of one run: the tape and the two pointers. Owned by the
/// caller and passed to each step, so it can be inspected after the run.
#[derive(Debug)]
pub struct State {
    /// The tape.
    pub cells: Cells,
    /// Index of the next instruction in the program.
    pub command_ptr: usize,
    /// Index of the current cell on the tape.
    pub cell_ptr: usize,
}

/// Result of decoding the input for one read instruction.
#[derive(Clone, Copy, Debug, PartialEq, Eq, Structural)]
pub enum ReadResult {
    /// A decoded byte.
    Success(u8),
    /// End of input, to be routed to the end-of-input policy.
    Eof,
    /// A decoded newline, delivered as a line-feed byte.
    Newline,
    /// The input source faulted.
    ReadFailed,
    /// Digit decoding met an invalid byte.
    ParseNumError,
}

/// The interpreter: a compiled program, the policies, and the two exclusively
/// owned byte-stream endpoints for the run's lifetime.
pub struct Interpreter {
    /// The compiled program.
    pub program: Program,
    /// The execution policies, immutable for this interpreter's lifetime.
    pub settings: Settings,
    /// The input source.
    pub reader: ByteSource,
    /// The output sink.
    pub writer: ByteSink,
}

/// The mathematical value of an interpreter joined with its run state.
#[verifier::ext_equal]
pub struct VmModel {
    /// The program's instructions.
    pub prog: Seq<Command>,
    /// The execution policies.
    pub settings: Settings,
    /// The tape's contents.
    pub cells: Seq<u8>,
    /// The cell pointer.
    pub cell_ptr: nat,
    /// The instruction pointer.
    pub command_ptr: nat,
    /// Every byte the input source delivers, in order.
    pub input: Seq<u8>,
    /// How many input bytes are consumed.
    pub input_pos: nat,
    /// Whether the input source faults once its bytes run out.
    pub input_fail: bool,
    /// Every byte written to the sink so far.
    pub output: Seq<u8>,
    /// Whether the output sink rejects writes.
    pub output_fail: bool,
}

/// Whether the cell access shared by the memory-touching instructions
/// succeeds: always under dynamic sizing, else only inside the tape.
pub open spec fn can_access(s: Settings, cells: Seq<u8>, ptr: nat) -> bool {
    s.dynamic_size || ptr < cells.len()
}

/// The tape after that access: grown up to the pointer under dynamic sizing,
/// untouched otherwise.
pub open spec fn accessed(s: Settings, cells: Seq<u8>, ptr: nat) -> Seq<u8> {
    if s.dynamic_size {
        grown(cells, ptr)
    } else {
        cells
    }
}

/// The cell pointer after a plain right move: native-width wraparound.
pub open spec fn wrap_inc(p: nat) -> nat {
    if p == usize::MAX {
        0
    } else {
        p + 1
    }
}

/// The cell pointer after a plain left move: native-width wraparound.
pub open spec fn wrap_dec(p: nat) -> nat {
    if p == 0 {
        usize::MAX as nat
    } else {
        (p - 1) as nat
    }
}

/// Whether this instruction performs the shared cell access.
pub open spec fn touches_cell(c: Command) -> bool {
    match c {
        Command::Halt | Command::Right | Command::Left => false,
        _ => true,
    }
}

/// Raw-mode read under single-line-feed newlines: one byte, except that a
/// suppressed newline is consumed and the byte after it delivered instead.
/// Yields the decoded outcome and the new input position.
pub open spec fn read_ascii_lf_spec(input: Seq<u8>, pos: nat, fail: bool, ignore_nl: bool) -> (
    ReadResult,
    nat,
) {
    if pos >= input.len() {
        ((if fail {
            ReadResult::ReadFailed
        } else {
            ReadResult::Eof
        }), pos)
    } else {
        let b = input[pos as int];
        if b != 10 {
            (ReadResult::Success(b), pos + 1)
        } else if !ignore_nl {
            (ReadResult::Newline, pos + 1)
        } else if pos + 1 >= input.len() {
            (ReadResult::ReadFailed, pos + 1)
        } else {
            (ReadResult::Success(input[pos as int + 1]), pos + 2)
        }
    }
}

/// Raw-mode read under carriage-return/line-feed newlines. A carriage return
/// looks ahead: followed by a line feed it makes a newline (suppressed or
/// delivered per the flag); followed by anything else it passes through as a
/// literal carriage return, leaving the next byte unconsumed; at the end of
/// input it is the last literal byte.
pub open spec fn read_ascii_crlf_spec(input: Seq<u8>, pos: nat, fail: bool, ignore_nl: bool) -> (
    ReadResult,
    nat,
) {
    if pos >= input.len() {
        ((if fail {
            ReadResult::ReadFailed
        } else {
            ReadResult::Eof
        }), pos)
    } else {
        let b = input[pos as int];
        if b != 13 {
            (ReadResult::Success(b), pos + 1)
        } else if pos + 1 >= input.len() {
            ((if fail {
                ReadResult::ReadFailed
            } else {
                ReadResult::Success(13)
            }), pos + 1)
        } else if input[pos as int + 1] != 10 {
            (ReadResult::Success(13), pos + 1)
        } else if !ignore_nl {
            (ReadResult::Newline, pos + 2)
        } else if pos + 2 >= input.len() {
            (ReadResult::ReadFailed, pos + 2)
        } else {
            (ReadResult::Success(input[pos as int + 2]), pos + 3)
        }
    }
}

/// Whether `b` is an ASCII decimal digit.
pub open spec fn ascii_digit(b: u8) -> bool {
    48 <= b <= 57
}

/// The digit accumulator after one more digit byte: multiply by ten and add,
/// with native byte wraparound and no overflow guard.
pub open spec fn digit_acc(acc: u8, b: u8) -> u8 {
    ((((acc * 10) % 256) + (b - 48)) % 256) as u8
}

/// Digit-mode read: successive digit bytes accumulate until the configured
/// newline ends the number. Any other byte — including a digit right after a
/// lone carriage return in carriage-return/line-feed mode — is a hard parse
/// failure. End of input with no digits yet reads as end of input; once
/// digits were accumulated, or when the source faults, it is a read failure.
pub open spec fn read_digit_spec(
    input: Seq<u8>,
    pos: nat,
    fail: bool,
    crlf: bool,
    acc: u8,
    last_cr: bool,
    seen: bool,
) -> (ReadResult, nat)
    decreases input.len() - pos,
{
    if pos >= input.len() {
        ((if !fail && !seen {
            ReadResult::Eof
        } else {
            ReadResult::ReadFailed
        }), pos)
    } else {
        let b = input[pos as int];
        if crlf {
            if b == 13 && !last_cr {
                read_digit_spec(input, pos + 1, fail, crlf, acc, true, seen)
            } else if b == 10 && last_cr {
                (ReadResult::Success(acc), pos + 1)
            } else if ascii_digit(b) && !last_cr {
                read_digit_spec(input, pos + 1, fail, crlf, digit_acc(acc, b), false, true)
            } else {
                (ReadResult::ParseNumError, pos + 1)
            }
        } else {
            if b == 10 {
                (ReadResult::Success(acc), pos + 1)
            } else if ascii_digit(b) {
                read_digit_spec(input, pos + 1, fail, crlf, digit_acc(acc, b), false, true)
            } else {
                (ReadResult::ParseNumError, pos + 1)
            }
        }
    }
}

/// What one read instruction's decoding yields under the configured input
/// mode and newline encoding.
pub open spec fn read_spec(s: Settings, input: Seq<u8>, pos: nat, fail: bool) -> (ReadResult, nat) {
    match s.input_mode {
        InputMode::Ascii => match s.newline_mode {
            NewlineMode::CRLF => read_ascii_crlf_spec(input, pos, fail, s.ignore_newline),
            NewlineMode::LF => read_ascii_lf_spec(input, pos, fail, s.ignore_newline),
        },
        InputMode::Digit => read_digit_spec(
            input,
            pos,
            fail,
            s.newline_mode is CRLF,
            0u8,
            false,
            false,
        ),
    }
}

/// The bytes one write instruction emits for cell value `v`: a line feed
/// becomes the carriage-return/line-feed pair in that newline mode, anything
/// else is the single raw byte.
pub open spec fn encoded_output(v: u8, crlf: bool) -> Seq<u8> {
    if v == 10 && crlf {
        seq![13u8, 10u8]
    } else {
        seq![v]
    }
}

/// The model after the shared cell access wrote `v` to the current cell and
/// the instruction pointer advanced.
pub open spec fn with_cell_write(m: VmModel, v: u8) -> VmModel {
    VmModel {
        cells: accessed(m.settings, m.cells, m.cell_ptr).update(m.cell_ptr as int, v),
        command_ptr: m.command_ptr + 1,
        ..m
    }
}

/// The model and outcome of an access that stepped out of a fixed tape.
pub open spec fn oob(m: VmModel) -> (VmModel, RunResult) {
    (m, RunResult::IndexOutOfBound(m.cell_ptr as usize))
}

/// One read instruction: decode input, then route the outcome — a byte or a
/// newline is stored, end of input applies the configured policy, a fault or
/// parse failure ends the step with input consumed but the cell untouched.
pub open spec fn step_read(m: VmModel) -> (VmModel, RunResult) {
    let (r, pos2) = read_spec(m.settings, m.input, m.input_pos, m.input_fail);
    let m2 = VmModel { input_pos: pos2, ..m };
    match r {
        ReadResult::Success(v) => if can_access(m2.settings, m2.cells, m2.cell_ptr) {
            (with_cell_write(m2, v), RunResult::Continue)
        } else {
            oob(m2)
        },
        ReadResult::Eof => match m.settings.eof_behavior {
            EofBehavior::AsIs => (VmModel { command_ptr: m.command_ptr + 1, ..m2 },
            RunResult::Continue),
            EofBehavior::NegativeOne => if can_access(m2.settings, m2.cells, m2.cell_ptr) {
                (with_cell_write(m2, 255), RunResult::Continue)
            } else {
                oob(m2)
            },
            EofBehavior::Zero => if can_access(m2.settings, m2.cells, m2.cell_ptr) {
                (with_cell_write(m2, 0), RunResult::Continue)
            } else {
                oob(m2)
            },
        },
        ReadResult::Newline => if can_access(m2.settings, m2.cells, m2.cell_ptr) {
            (with_cell_write(m2, 10), RunResult::Continue)
        } else {
            oob(m2)
        },
        ReadResult::ReadFailed => (m2, RunResult::ReadFailed),
        ReadResult::ParseNumError => (m2, RunResult::ParseNumError),
    }
}

/// One instruction's effect on the whole machine: the next model and the
/// outcome handed back to the caller. Jumps are absolute; every other
/// continuing instruction advances the instruction pointer by one; terminal
/// outcomes leave it where it was.
pub open spec fn step(m: VmModel) -> (VmModel, RunResult) {
    if m.command_ptr >= m.prog.len() {
        (m, RunResult::Halted)
    } else {
        match m.prog[m.command_ptr as int] {
            Command::Halt => (m, RunResult::Halted),
            Command::Right => {
                let p = if m.cell_ptr == m.cells.len() - 1 && !m.settings.dynamic_size {
                    0 as nat
                } else {
                    wrap_inc(m.cell_ptr)
                };
                (VmModel { cell_ptr: p, command_ptr: m.command_ptr + 1, ..m }, RunResult::Continue)
            },
            Command::Left => {
                let p = if m.cell_ptr == 0 && m.settings.wrapping {
                    (m.cells.len() - 1) as nat
                } else {
                    wrap_dec(m.cell_ptr)
                };
                (VmModel { cell_ptr: p, command_ptr: m.command_ptr + 1, ..m }, RunResult::Continue)
            },
            Command::Inc => {
                if can_access(m.settings, m.cells, m.cell_ptr) {
                    let v = accessed(m.settings, m.cells, m.cell_ptr)[m.cell_ptr as int];
                    (with_cell_write(m, ((v + 1) % 256) as u8), RunResult::Continue)
                } else {
                    oob(m)
                }
            },
            Command::Dec => {
                if can_access(m.settings, m.cells, m.cell_ptr) {
                    let v = accessed(m.settings, m.cells, m.cell_ptr)[m.cell_ptr as int];
                    (with_cell_write(m, ((v + 255) % 256) as u8), RunResult::Continue)
                } else {
                    oob(m)
                }
            },
            Command::Open(dst) => {
                if can_access(m.settings, m.cells, m.cell_ptr) {
                    let v = accessed(m.settings, m.cells, m.cell_ptr)[m.cell_ptr as int];
                    let cp = if v == 0 {
                        dst as nat
                    } else {
                        m.command_ptr + 1
                    };
                    (
                        VmModel {
                            cells: accessed(m.settings, m.cells, m.cell_ptr),
                            command_ptr: cp,
                            ..m
                        },
                        RunResult::Continue,
                    )
                } else {
                    oob(m)
                }
            },
            Command::Close(dst) => {
                if can_access(m.settings, m.cells, m.cell_ptr) {
                    let v = accessed(m.settings, m.cells, m.cell_ptr)[m.cell_ptr as int];
                    let cp = if v != 0 {
                        dst as nat
                    } else {
                        m.command_ptr + 1
                    };
                    (
                        VmModel {
                            cells: accessed(m.settings, m.cells, m.cell_ptr),
                            command_ptr: cp,
                            ..m
                        },
                        RunResult::Continue,
                    )
                } else {
                    oob(m)
                }
            },
            Command::Read => step_read(m),
            Command::Write => {
                if can_access(m.settings, m.cells, m.cell_ptr) {
                    let grown_cells = accessed(m.settings, m.cells, m.cell_ptr);
                    let v = grown_cells[m.cell_ptr as int];
                    if m.output_fail {
                        (VmModel { cells: grown_cells, ..m }, RunResult::WriteFailed)
                    } else {
                        (
                            VmModel {
                                cells: grown_cells,
                                output: m.output + encoded_output(
                                    v,
                                    m.settings.newline_mode is CRLF,
                                ),
                                command_ptr: m.command_ptr + 1,
                                ..m
                            },
                            RunResult::Continue,
                        )
                    }
                } else {
                    oob(m)
                }
            },
        }
    }
}

/// When one step can be taken without the machine itself misbehaving: the
/// instruction pointer is in range, the tape is nonempty, the consumed input
/// prefix is sound, and a grow-on-demand access is not asked past the largest
/// representable index (the one growth the machine cannot perform).
pub open spec fn step_safe(m: VmModel) -> bool {
    &&& m.command_ptr < m.prog.len()
    &&& m.prog.len() <= usize::MAX
    &&& 1 <= m.cells.len() <= usize::MAX
    &&& m.cell_ptr <= usize::MAX
    &&& m.input_pos <= m.input.len()
    &&& m.input.len() <= usize::MAX
    &&& (m.settings.dynamic_size && touches_cell(m.prog[m.command_ptr as int]) ==> m.cell_ptr
        < usize::MAX)
}

impl Interpreter {
    /// The mathematical value of this interpreter joined with run state `st`.
    pub open spec fn model(self, st: State) -> VmModel {
        VmModel {
            prog: self.program@,
            settings: self.settings,
            cells: st.cells@,
            cell_ptr: st.cell_ptr as nat,
            command_ptr: st.command_ptr as nat,
            input: self.reader.bytes@,
            input_pos: self.reader.pos as nat,
            input_fail: self.reader.fail,
            output: self.writer.bytes@,
            output_fail: self.writer.fail,
        }
    }

    /// A fresh state for running: a zeroed tape of the configured length,
    /// both pointers at zero.
    pub fn ready(&self) -> (st: State)
        ensures
            st.cells@ == Seq::new(self.settings.array_size as nat, |i: int| 0u8),
            st.command_ptr == 0,
            st.cell_ptr == 0,
    {
        State { cells: Cells::new(self.settings.array_size), command_ptr: 0, cell_ptr: 0 }
    }

    /// The shared cell access: under dynamic sizing the tape grows out to the
    /// pointer and the access succeeds; otherwise it succeeds only inside the
    /// tape's fixed bounds.
    fn get_cell<'a>(&self, state: &'a mut State) -> (r: Option<&'a mut u8>)
        requires
            self.settings.dynamic_size ==> old(state).cell_ptr < usize::MAX,
        ensures
            final(state).command_ptr == old(state).command_ptr,
            final(state).cell_ptr == old(state).cell_ptr,
            can_access(self.settings, old(state).cells@, old(state).cell_ptr as nat) ==> {
                &&& r is Some
                &&& *r.unwrap() == accessed(
                    self.settings,
                    old(state).cells@,
                    old(state).cell_ptr as nat,
                )[old(state).cell_ptr as int]
                &&& final(state).cells@ == accessed(
                    self.settings,
                    old(state).cells@,
                    old(state).cell_ptr as nat,
                ).update(old(state).cell_ptr as int, *final(r.unwrap()))
            },
            !can_access(self.settings, old(state).cells@, old(state).cell_ptr as nat) ==> {
                &&& r is None
                &&& final(state).cells@ == old(state).cells@
            },
    {
        if self.settings.dynamic_size {
            state.cells.get_mut_expand(state.cell_ptr)
        } else {
            state.cells.get_mut(state.cell_ptr)
        }
    }

    /// Raw-mode input decoding under the configured newline encoding.
    fn read_ascii(&mut self) -> (r: ReadResult)
        requires
            old(self).reader.wf(),
        ensures
            final(self).program == old(self).program,
            final(self).settings == old(self).settings,
            final(self).writer == old(self).writer,
            final(self).reader.bytes == old(self).reader.bytes,
            final(self).reader.fail == old(self).reader.fail,
            final(self).reader.wf(),
            ({
                let (rr, p2) = match old(self).settings.newline_mode {
                    NewlineMode::CRLF => read_ascii_crlf_spec(
                        old(self).reader.bytes@,
                        old(self).reader.pos as nat,
                        old(self).reader.fail,
                        old(self).settings.ignore_newline,
                    ),
                    NewlineMode::LF => read_ascii_lf_spec(
                        old(self).reader.bytes@,
                        old(self).reader.pos as nat,
                        old(self).reader.fail,
                        old(self).settings.ignore_newline,
                    ),
                };
                r == rr && final(self).reader.pos == p2
            }),
    {
        match self.settings.newline_mode {
            NewlineMode::CRLF => self.read_ascii_crlf(),
            NewlineMode::LF => self.read_ascii_lf(),
        }
    }

    /// Raw-mode read, carriage-return/line-feed newlines; see
    /// `read_ascii_crlf_spec`.
    fn read_ascii_crlf(&mut self) -> (r: ReadResult)
        requires
            old(self).reader.wf(),
        ensures
            final(self).program == old(self).program,
            final(self).settings == old(self).settings,
            final(self).writer == old(self).writer,
            final(self).reader.bytes == old(self).reader.bytes,
            final(self).reader.fail == old(self).reader.fail,
            final(self).reader.wf(),
            ({
                let (rr, p2) = read_ascii_crlf_spec(
                    old(self).reader.bytes@,
                    old(self).reader.pos as nat,
                    old(self).reader.fail,
                    old(self).settings.ignore_newline,
                );
                r == rr && final(self).reader.pos == p2
            }),
    {
        match self.reader.read_byte() {
            ByteRead::Fault => ReadResult::ReadFailed,
            ByteRead::End => ReadResult::Eof,
            ByteRead::Got(b) => {
                if b != 13 {
                    ReadResult::Success(b)
                } else {
                    match self.reader.peek_byte() {
                        ByteRead::Fault => ReadResult::ReadFailed,
                        ByteRead::End => ReadResult::Success(13),
                        ByteRead::Got(b2) => {
                            if b2 != 10 {
                                // a literal carriage return; the byte after it
                                // stays unconsumed
                                ReadResult::Success(13)
                            } else {
                                let _ = self.reader.read_byte();
                                if !self.settings.ignore_newline {
                                    ReadResult::Newline
                                } else {
                                    match self.reader.read_byte() {
                                        ByteRead::Got(b3) => ReadResult::Success(b3),
                                        _ => ReadResult::ReadFailed,
                                    }
                                }
                            }
                        },
                    }
                }
            },
        }
    }

    /// Raw-mode read, line-feed newlines; see `read_ascii_lf_spec`.
    fn read_ascii_lf(&mut self) -> (r: ReadResult)
        requires
            old(self).reader.wf(),
        ensures
            final(self).program == old(self).program,
            final(self).settings == old(self).settings,
            final(self).writer == old(self).writer,
            final(self).reader.bytes == old(self).reader.bytes,
            final(self).reader.fail == old(self).reader.fail,
            final(self).reader.wf(),
            ({
                let (rr, p2) = read_ascii_lf_spec(
                    old(self).reader.bytes@,
                    old(self).reader.pos as nat,
                    old(self).reader.fail,
                    old(self).settings.ignore_newline,
                );
                r == rr && final(self).reader.pos == p2
            }),
    {
        match self.reader.read_byte() {
            ByteRead::Fault => ReadResult::ReadFailed,
            ByteRead::End => ReadResult::Eof,
            ByteRead::Got(b) => {
                if b != 10 {
                    ReadResult::Success(b)
                } else if !self.settings.ignore_newline {
                    ReadResult::Newline
                } else {
                    match self.reader.read_byte() {
                        ByteRead::Got(b2) => ReadResult::Success(b2),
                        _ => ReadResult::ReadFailed,
                    }
                }
            },
        }
    }

    /// Digit-mode input decoding; see `read_digit_spec`.
    fn read_digit(&mut self) -> (r: ReadResult)
        requires
            old(self).reader.wf(),
        ensures
            final(self).program == old(self).program,
            final(self).settings == old(self).settings,
            final(self).writer == old(self).writer,
            final(self).reader.bytes == old(self).reader.bytes,
            final(self).reader.fail == old(self).reader.fail,
            final(self).reader.wf(),
            ({
                let (rr, p2) = read_digit_spec(
                    old(self).reader.bytes@,
                    old(self).reader.pos as nat,
                    old(self).reader.fail,
                    old(self).settings.newline_mode is CRLF,
                    0u8,
                    false,
                    false,
                );
                r == rr && final(self).reader.pos == p2
            }),
    {
        let mut result: u8 = 0;
        let mut last_is_cr = false;
        let mut seen_digits = false;
        let crlf = matches!(self.settings.newline_mode, NewlineMode::CRLF);
        loop
            invariant
                self.reader.wf(),
                self.program == old(self).program,
                self.settings == old(self).settings,
                self.writer == old(self).writer,
                self.reader.bytes == old(self).reader.bytes,
                self.reader.fail == old(self).reader.fail,
                old(self).reader.wf(),
                crlf == (old(self).settings.newline_mode is CRLF),
                read_digit_spec(
                    old(self).reader.bytes@,
                    old(self).reader.pos as nat,
                    old(self).reader.fail,
                    crlf,
                    0u8,
                    false,
                    false,
                ) == read_digit_spec(
                    self.reader.bytes@,
                    self.reader.pos as nat,
                    self.reader.fail,
                    crlf,
                    result,
                    last_is_cr,
                    seen_digits,
                ),
            decreases self.reader.bytes@.len() - self.reader.pos,
        {
            let ghost pos_at = self.reader.pos as nat;
            let ghost res_at = result;
            let ghost cr_at = last_is_cr;
            let ghost seen_at = seen_digits;
            match self.reader.read_byte() {
                ByteRead::Fault => {
                    return ReadResult::ReadFailed;
                },
                ByteRead::End => {
                    return if seen_digits {
                        ReadResult::ReadFailed
                    } else {
                        ReadResult::Eof
                    };
                },
                ByteRead::Got(b) => {
                    if crlf {
                        if b == 13 && !last_is_cr {
                            last_is_cr = true;
                            proof {
                                assert(read_digit_spec(
                                    self.reader.bytes@,
                                    pos_at,
                                    self.reader.fail,
                                    crlf,
                                    res_at,
                                    cr_at,
                                    seen_at,
                                ) == read_digit_spec(
                                    self.reader.bytes@,
                                    pos_at + 1,
                                    self.reader.fail,
                                    crlf,
                                    res_at,
                                    true,
                                    seen_at,
                                ));
                            }
                        } else if b == 10 && last_is_cr {
                            return ReadResult::Success(result);
                        } else if (48 <= b && b <= 57) && !last_is_cr {
                            result = result.wrapping_mul(10).wrapping_add(b - 48);
                            seen_digits = true;
                            proof {
                                assert(result == digit_acc(res_at, b));
                                assert(read_digit_spec(
                                    self.reader.bytes@,
                                    pos_at,
                                    self.reader.fail,
                                    crlf,
                                    res_at,
                                    cr_at,
                                    seen_at,
                                ) == read_digit_spec(
                                    self.reader.bytes@,
                                    pos_at + 1,
                                    self.reader.fail,
                                    crlf,
                                    digit_acc(res_at, b),
                                    false,
                                    true,
                                ));
                            }
                        } else {
                            return ReadResult::ParseNumError;
                        }
                    } else {
                        if b == 10 {
                            return ReadResult::Success(result);
                        } else if 48 <= b && b <= 57 {
                            result = result.wrapping_mul(10).wrapping_add(b - 48);
                            seen_digits = true;
                            proof {
                                assert(result == digit_acc(res_at, b));
                                assert(read_digit_spec(
                                    self.reader.bytes@,
                                    pos_at,
                                    self.reader.fail,
                                    crlf,
                                    res_at,
                                    cr_at,
                                    seen_at,
                                ) == read_digit_spec(
                                    self.reader.bytes@,
                                    pos_at + 1,
                                    self.reader.fail,
                                    crlf,
                                    digit_acc(res_at, b),
                                    false,
                                    true,
                                ));
                            }
                        } else {
                            return ReadResult::ParseNumError;
                        }
                    }
                },
            }
        }
    }

    /// Execute the current instruction, exactly as `step` describes: the
    /// outcome returned and the machine's new model are those of one `step`
    /// of the old model.
    #[verifier::rlimit(100)]
    pub fn next(&mut self, state: &mut State) -> (r: RunResult)
        requires
            step_safe(old(self).model(*old(state))),
        ensures
            ({
                let (m2, rr) = step(old(self).model(*old(state)));
                r == rr && final(self).model(*final(state)) == m2
            }),
    {
        let ghost m0 = self.model(*state);
        let cmd = self.program.0[state.command_ptr];
        match cmd {
            Command::Halt => {
                proof {
                    assert(self.model(*state) =~= step(m0).0);
                }
                return RunResult::Halted;
            },
            Command::Right => {
                if state.cell_ptr == state.cells.0.len() - 1 && !self.settings.dynamic_size {
                    state.cell_ptr = 0;
                } else {
                    state.cell_ptr = state.cell_ptr.wrapping_add(1);
                }
            },
            Command::Left => {
                if state.cell_ptr == 0 && self.settings.wrapping {
                    state.cell_ptr = state.cells.0.len() - 1;
                } else {
                    state.cell_ptr = state.cell_ptr.wrapping_sub(1);
                }
            },
            Command::Inc => {
                match self.get_cell(state) {
                    Some(data) => {
                        let v = *data;
                        *data = v.wrapping_add(1);
                    },
                    None => {
                        proof {
                            assert(self.model(*state) =~= step(m0).0);
                        }
                        return RunResult::IndexOutOfBound(state.cell_ptr);
                    },
                }
            },
            Command::Dec => {
                match self.get_cell(state) {
                    Some(data) => {
                        let v = *data;
                        *data = v.wrapping_sub(1);
                    },
                    None => {
                        proof {
                            assert(self.model(*state) =~= step(m0).0);
                        }
                        return RunResult::IndexOutOfBound(state.cell_ptr);
                    },
                }
            },
            Command::Open(dst) => {
                let v: u8;
                match self.get_cell(state) {
                    Some(data) => {
                        v = *data;
                    },
                    None => {
                        proof {
                            assert(self.model(*state) =~= step(m0).0);
                        }
                        return RunResult::IndexOutOfBound(state.cell_ptr);
                    },
                }
                if v == 0 {
                    state.command_ptr = dst;
                    proof {
                        assert(self.model(*state) =~= step(m0).0);
                    }
                    return RunResult::Continue;
                }
            },
            Command::Close(dst) => {
                let v: u8;
                match self.get_cell(state) {
                    Some(data) => {
                        v = *data;
                    },
                    None => {
                        proof {
                            assert(self.model(*state) =~= step(m0).0);
                        }
                        return RunResult::IndexOutOfBound(state.cell_ptr);
                    },
                }
                if v != 0 {
                    state.command_ptr = dst;
                    proof {
                        assert(self.model(*state) =~= step(m0).0);
                    }
                    return RunResult::Continue;
                }
            },
            Command::Read => {
                let result = match self.settings.input_mode {
                    InputMode::Ascii => self.read_ascii(),
                    InputMode::Digit => self.read_digit(),
                };
                match result {
                    ReadResult::Success(val) => {
                        match self.get_cell(state) {
                            Some(data) => {
                                *data = val;
                            },
                            None => {
                                proof {
                                    assert(self.model(*state) =~= step(m0).0);
                                }
                                return RunResult::IndexOutOfBound(state.cell_ptr);
                            },
                        }
                    },
                    ReadResult::Eof => {
                        match self.settings.eof_behavior {
                            EofBehavior::AsIs => {},
                            EofBehavior::NegativeOne => {
                                match self.get_cell(state) {
                                    Some(data) => {
                                        *data = 255;
                                    },
                                    None => {
                                        proof {
                                            assert(self.model(*state) =~= step(m0).0);
                                        }
                                        return RunResult::IndexOutOfBound(state.cell_ptr);
                                    },
                                }
                            },
                            EofBehavior::Zero => {
                                match self.get_cell(state) {
                                    Some(data) => {
                                        *data = 0;
                                    },
                                    None => {
                                        proof {
                                            assert(self.model(*state) =~= step(m0).0);
                                        }
                                        return RunResult::IndexOutOfBound(state.cell_ptr);
                                    },
                                }
                            },
                        }
                    },
                    ReadResult::Newline => {
                        match self.get_cell(state) {
                            Some(data) => {
                                *data = 10;
                            },
                            None => {
                                proof {
                                    assert(self.model(*state) =~= step(m0).0);
                                }
                                return RunResult::IndexOutOfBound(state.cell_ptr);
                            },
                        }
                    },
                    ReadResult::ReadFailed => {
                        proof {
                            assert(self.model(*state) =~= step(m0).0);
                        }
                        return RunResult::ReadFailed;
                    },
                    ReadResult::ParseNumError => {
                        proof {
                            assert(self.model(*state) =~= step(m0).0);
                        }
                        return RunResult::ParseNumError;
                    },
                }
            },
            Command::Write => {
                let v: u8;
                match self.get_cell(state) {
                    Some(data) => {
                        v = *data;
                    },
                    None => {
                        proof {
                            assert(self.model(*state) =~= step(m0).0);
                        }
                        return RunResult::IndexOutOfBound(state.cell_ptr);
                    },
                }
                let crlf = matches!(self.settings.newline_mode, NewlineMode::CRLF);
                let ok = if v == 10 && crlf {
                    self.writer.write_pair(13, 10)
                } else {
                    self.writer.write_byte(v)
                };
                if !ok {
                    proof {
                        assert(self.model(*state) =~= step(m0).0);
                    }
                    return RunResult::WriteFailed;
                }
            },
        }
        state.command_ptr = state.command_ptr + 1;
        proof {
            assert(self.model(*state) =~= step(m0).0);
        }
        RunResult::Continue
    }
}

/// A machine set up for a fresh run is safe to step: a well-formed program,
/// a positive configured tape length, a tape of that length, both pointers
/// at zero, and no input consumed yet — as `ready` builds it.
pub proof fn lemma_ready_safe(m: VmModel)
    requires
        crate::program::prog_wf(m.prog),
        m.prog.len() <= usize::MAX,
        m.settings.wf(),
        m.cells.len() == m.settings.array_size,
        m.cell_ptr == 0,
        m.command_ptr == 0,
        m.input_pos == 0,
        m.input.len() <= usize::MAX,
    ensures
        step_safe(m),
{
}

/// Digit-mode decoding consumes input forward and never past its end.
pub proof fn lemma_read_digit_pos(
    input: Seq<u8>,
    pos: nat,
    fail: bool,
    crlf: bool,
    acc: u8,
    last_cr: bool,
    seen: bool,
)
    requires
        pos <= input.len(),
    ensures
        pos <= read_digit_spec(input, pos, fail, crlf, acc, last_cr, seen).1 <= input.len(),
    decreases input.len() - pos,
{
    if pos < input.len() {
        let b = input[pos as int];
        if crlf {
            if b == 13 && !last_cr {
                lemma_read_digit_pos(input, pos + 1, fail, crlf, acc, true, seen);
            } else if ascii_digit(b) && !last_cr && !(b == 10 && last_cr) {
                lemma_read_digit_pos(input, pos + 1, fail, crlf, digit_acc(acc, b), false, true);
            }
        } else {
            if b != 10 && ascii_digit(b) {
                lemma_read_digit_pos(input, pos + 1, fail, crlf, digit_acc(acc, b), false, true);
            }
        }
    }
}

/// Any read consumes input forward and never past its end.
pub proof fn lemma_read_pos(s: Settings, input: Seq<u8>, pos: nat, fail: bool)
    requires
        pos <= input.len(),
    ensures
        pos <= read_spec(s, input, pos, fail).1 <= input.len(),
{
    if s.input_mode is Digit {
        lemma_read_digit_pos(input, pos, fail, s.newline_mode is CRLF, 0u8, false, false);
    }
}

/// What one step never changes and never breaks: the program, the policies,
/// and both endpoints' identities are intact; input is consumed forward and
/// in bounds; earlier output stays a prefix of later output; a fixed tape
/// keeps its length, a dynamic one only grows; and while a well-formed
/// program continues, the instruction pointer stays in range.
pub proof fn lemma_step_preserves(m: VmModel)
    requires
        step_safe(m),
    ensures
        ({
            let (m2, r) = step(m);
            &&& m2.prog == m.prog
            &&& m2.settings == m.settings
            &&& m2.input == m.input
            &&& m2.input_fail == m.input_fail
            &&& m2.output_fail == m.output_fail
            &&& m.input_pos <= m2.input_pos <= m.input.len()
            &&& m.output.is_prefix_of(m2.output)
            &&& !m.settings.dynamic_size ==> m2.cells.len() == m.cells.len()
            &&& m.cells.len() <= m2.cells.len()
            &&& m2.cell_ptr <= usize::MAX
            &&& crate::program::prog_wf(m.prog) && r is Continue ==> m2.command_ptr < m.prog.len()
        }),
{
    let (m2, r) = step(m);
    match m.prog[m.command_ptr as int] {
        Command::Read => {
            lemma_read_pos(m.settings, m.input, m.input_pos, m.input_fail);
        },
        Command::Open(dst) => {
            if crate::program::prog_wf(m.prog) {
                assert(crate::program::target_in_bounds(
                    m.prog[m.command_ptr as int],
                    m.prog.len(),
                ));
            }
        },
        Command::Close(dst) => {
            if crate::program::prog_wf(m.prog) {
                assert(crate::program::target_in_bounds(
                    m.prog[m.command_ptr as int],
                    m.prog.len(),
                ));
            }
        },
        _ => {},
    }
    if crate::program::prog_wf(m.prog) && r is Continue {
        assert(m.prog.last() == Command::Halt);
        assert(m.prog[m.prog.len() - 1] == Command::Halt);
    }
    assert(m.output.is_prefix_of(m2.output)) by {
        assert(m2.output.subrange(0, m.output.len() as int) =~= m.output);
    }
}

/// Incrementing and then decrementing the same cell round-trips: after the
/// two steps the tape holds exactly what the first access saw (the byte
/// wraps up and back down), the cell pointer is unmoved, and the instruction
/// pointer has advanced past both instructions.
pub proof fn lemma_inc_dec_round_trip(m: VmModel)
    requires
        step_safe(m),
        m.prog[m.command_ptr as int] == Command::Inc,
        m.command_ptr + 1 < m.prog.len(),
        m.prog[m.command_ptr as int + 1] == Command::Dec,
        can_access(m.settings, m.cells, m.cell_ptr),
    ensures
        step(m).1 == RunResult::Continue,
        step(step(m).0).1 == RunResult::Continue,
        step(step(m).0).0 == (VmModel {
            cells: accessed(m.settings, m.cells, m.cell_ptr),
            command_ptr: m.command_ptr + 2,
            ..m
        }),
{
    let acc = accessed(m.settings, m.cells, m.cell_ptr);
    let p = m.cell_ptr as int;
    let v = acc[p];
    let (m1, r1) = step(m);
    assert(m1 =~= VmModel {
        cells: acc.update(p, ((v + 1) % 256) as u8),
        command_ptr: m.command_ptr + 1,
        ..m
    });
    assert(can_access(m1.settings, m1.cells, m1.cell_ptr));
    assert(accessed(m1.settings, m1.cells, m1.cell_ptr) =~= m1.cells);
    let v1 = m1.cells[p];
    assert(v1 == ((v + 1) % 256) as u8);
    assert(((v1 + 255) % 256) as u8 == v);
    let (m2, r2) = step(m1);
    assert(m2.cells =~= acc.update(p, ((v + 1) % 256) as u8).update(p, v));
    assert(m2.cells =~= acc);
    assert(m2 =~= VmModel { cells: acc, command_ptr: m.command_ptr + 2, ..m });
}

/// With the wrapping flag off, a left move at pointer 0 of a fixed tape does
/// not wrap to the tape's last index: the pointer underflows to the largest
/// pointer value, and the right move after it returns to 0 through pointer
/// arithmetic alone — the only path back.
pub proof fn lemma_left_edge_no_wrap(m: VmModel)
    requires
        step_safe(m),
        !m.settings.wrapping,
        !m.settings.dynamic_size,
        m.cell_ptr == 0,
        m.prog[m.command_ptr as int] == Command::Left,
        m.command_ptr + 1 < m.prog.len(),
        m.prog[m.command_ptr as int + 1] == Command::Right,
    ensures
        step(m).1 == RunResult::Continue,
        step(m).0.cell_ptr == usize::MAX,
        step(m).0.cell_ptr != m.cells.len() - 1,
        step(step(m).0).1 == RunResult::Continue,
        step(step(m).0).0 == (VmModel { command_ptr: m.command_ptr + 2, ..m }),
{
    let (m1, r1) = step(m);
    assert(m1.cell_ptr == usize::MAX);
    assert(m.cells.len() - 1 < usize::MAX);
    let (m2, r2) = step(m1);
    assert(m2.cell_ptr == 0);
    assert(m2 =~= VmModel { command_ptr: m.command_ptr + 2, ..m });
}

} // verus!
