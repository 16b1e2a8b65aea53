//! Assembling an interpreter: source text, policies, and the two byte-stream
//! endpoints, compiled into a ready interpreter in one step.

use vstd::prelude::*;

use crate::compiler::{compile_spec, CompileError, Compiler};
use crate::interpreter::Interpreter;
use crate::io_buffer::{ByteSink, ByteSource};
use crate::settings::Settings;

verus! {

/// Collects everything an interpreter needs before compilation. The
/// endpoints default to empty in-memory streams; replace them before
/// building to feed the run.
pub struct InterpreterBuilder {
    src: String,
    settings: Settings,
    reader: ByteSource,
    writer: ByteSink,
}

impl InterpreterBuilder {
    /// The source text this builder will compile.
    pub closed spec fn spec_src(self) -> Seq<char> {
        self.src@
    }

    /// The policies the built interpreter will run under.
    pub closed spec fn spec_settings(self) -> Settings {
        self.settings
    }

    /// The input source the built interpreter will own.
    pub closed spec fn spec_reader(self) -> ByteSource {
        self.reader
    }

    /// The output sink the built interpreter will own.
    pub closed spec fn spec_writer(self) -> ByteSink {
        self.writer
    }

    /// A builder for `src` under `settings`, with empty default endpoints.
    pub fn new(src: String, settings: Settings) -> (b: Self)
        ensures
            b.spec_src() == src@,
            b.spec_settings() == settings,
            b.spec_reader().bytes@ == Seq::<u8>::empty(),
            b.spec_reader().pos == 0,
            !b.spec_reader().fail,
            b.spec_writer().bytes@ == Seq::<u8>::empty(),
            !b.spec_writer().fail,
    {
        InterpreterBuilder {
            src,
            settings,
            reader: ByteSource::new(Vec::new()),
            writer: ByteSink::new(),
        }
    }

    /// Replace the input source. Defaults to an empty one.
    pub fn reader(self, reader: ByteSource) -> (b: Self)
        ensures
            b.spec_src() == self.spec_src(),
            b.spec_settings() == self.spec_settings(),
            b.spec_reader() == reader,
            b.spec_writer() == self.spec_writer(),
    {
        InterpreterBuilder { reader, ..self }
    }

    /// Replace the output sink. Defaults to an empty one.
    pub fn writer(self, writer: ByteSink) -> (b: Self)
        ensures
            b.spec_src() == self.spec_src(),
            b.spec_settings() == self.spec_settings(),
            b.spec_reader() == self.spec_reader(),
            b.spec_writer() == writer,
    {
        InterpreterBuilder { writer, ..self }
    }

    /// Compile the source and assemble the interpreter around it, or report
    /// the compile error. The interpreter takes this builder's policies and
    /// endpoints unchanged.
    pub fn build(self) -> (r: Result<Interpreter, CompileError>)
        ensures
            match compile_spec(self.spec_src()) {
                Ok(cmds) => r matches Ok(it) && it.program@ == cmds && it.program.wf()
                    && it.settings == self.spec_settings() && it.reader == self.spec_reader()
                    && it.writer == self.spec_writer(),
                Err(e) => r matches Err(e2) && e2 == e,
            },
    {
        let program = match Compiler::new().compile(self.src) {
            Ok(p) => p,
            Err(e) => {
                return Err(e);
            },
        };
        Ok(
            Interpreter {
                program,
                settings: self.settings,
                reader: self.reader,
                writer: self.writer,
            },
        )
    }
}

} // verus!
