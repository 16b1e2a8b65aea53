//! In-memory byte-stream endpoints: the input source and the output sink an
//! interpreter owns for one run.
//!
//! Any byte-stream-like resource satisfies the interpreter's needs; these
//! buffer-backed endpoints hold the whole exchange as plain values, so the
//! interpreter's effect on them can be stated exactly. A `fail` flag stands
//! in for a stream that faults instead of ending cleanly.

use vstd::prelude::*;

verus! {

/// Outcome of reading one byte from a source.
#[derive(Clone, Copy, Debug, PartialEq, Eq, Structural)]
pub enum ByteRead {
    /// The next byte.
    Got(u8),
    /// The source is exhausted.
    End,
    /// The source faulted.
    Fault,
}

/// A byte-input source: a buffer consumed front to back.
///
/// A faulty source reports `Fault` instead of `End` once its bytes are
/// exhausted, standing in for a stream that breaks mid-run.
#[derive(Clone, Debug)]
pub struct ByteSource {
    /// The bytes the source delivers, in order.
    pub bytes: Vec<u8>,
    /// How many of them have been consumed so far.
    pub pos: usize,
    /// Whether reads past the buffered bytes fault instead of reporting end.
    pub fail: bool,
}

impl ByteSource {
    /// The consumed prefix never outruns the buffer.
    pub open spec fn wf(self) -> bool {
        self.pos <= self.bytes@.len()
    }

    /// A source that delivers `bytes`, then reports end of input.
    pub fn new(bytes: Vec<u8>) -> (s: ByteSource)
        ensures
            s.bytes == bytes,
            s.pos == 0,
            !s.fail,
            s.wf(),
    {
        ByteSource { bytes, pos: 0, fail: false }
    }

    /// A source that delivers `bytes`, then faults.
    pub fn new_faulty(bytes: Vec<u8>) -> (s: ByteSource)
        ensures
            s.bytes == bytes,
            s.pos == 0,
            s.fail,
            s.wf(),
    {
        ByteSource { bytes, pos: 0, fail: true }
    }

    /// Read one byte, consuming it.
    pub fn read_byte(&mut self) -> (r: ByteRead)
        requires
            old(self).wf(),
        ensures
            final(self).bytes == old(self).bytes,
            final(self).fail == old(self).fail,
            final(self).wf(),
            old(self).pos < old(self).bytes@.len() ==> {
                &&& r == ByteRead::Got(old(self).bytes@[old(self).pos as int])
                &&& final(self).pos == old(self).pos + 1
            },
            old(self).pos >= old(self).bytes@.len() ==> {
                &&& final(self).pos == old(self).pos
                &&& r == (if old(self).fail { ByteRead::Fault } else { ByteRead::End })
            },
    {
        if self.pos < self.bytes.len() {
            let b = self.bytes[self.pos];
            self.pos = self.pos + 1;
            ByteRead::Got(b)
        } else if self.fail {
            ByteRead::Fault
        } else {
            ByteRead::End
        }
    }

    /// Look at the next byte without consuming anything.
    pub fn peek_byte(&self) -> (r: ByteRead)
        requires
            self.wf(),
        ensures
            self.pos < self.bytes@.len() ==> r == ByteRead::Got(self.bytes@[self.pos as int]),
            self.pos >= self.bytes@.len() ==> r == (if self.fail {
                ByteRead::Fault
            } else {
                ByteRead::End
            }),
    {
        if self.pos < self.bytes.len() {
            ByteRead::Got(self.bytes[self.pos])
        } else if self.fail {
            ByteRead::Fault
        } else {
            ByteRead::End
        }
    }
}

/// A byte-output sink: collects every written byte, flushed through at once.
///
/// A faulty sink rejects every write, standing in for a sink whose write or
/// flush fails.
#[derive(Clone, Debug)]
pub struct ByteSink {
    /// Everything successfully written so far, in order.
    pub bytes: Vec<u8>,
    /// Whether writes are rejected.
    pub fail: bool,
}

impl ByteSink {
    /// A working sink with nothing written yet.
    pub fn new() -> (s: ByteSink)
        ensures
            s.bytes@ == Seq::<u8>::empty(),
            !s.fail,
    {
        ByteSink { bytes: Vec::new(), fail: false }
    }

    /// A sink whose writes all fail.
    pub fn new_faulty() -> (s: ByteSink)
        ensures
            s.bytes@ == Seq::<u8>::empty(),
            s.fail,
    {
        ByteSink { bytes: Vec::new(), fail: true }
    }

    /// Write one byte and flush it. Reports whether the write took.
    pub fn write_byte(&mut self, b: u8) -> (ok: bool)
        ensures
            final(self).fail == old(self).fail,
            ok == !old(self).fail,
            ok ==> final(self).bytes@ == old(self).bytes@.push(b),
            !ok ==> final(self).bytes@ == old(self).bytes@,
    {
        if self.fail {
            false
        } else {
            self.bytes.push(b);
            true
        }
    }

    /// Write two bytes as one unit (the carriage-return/line-feed pair) and
    /// flush them. All or nothing.
    pub fn write_pair(&mut self, a: u8, b: u8) -> (ok: bool)
        ensures
            final(self).fail == old(self).fail,
            ok == !old(self).fail,
            ok ==> final(self).bytes@ == old(self).bytes@.push(a).push(b),
            !ok ==> final(self).bytes@ == old(self).bytes@,
    {
        if self.fail {
            false
        } else {
            self.bytes.push(a);
            self.bytes.push(b);
            true
        }
    }
}

} // verus!
