//! A small virtual machine for an eight-instruction tape-and-pointer language.
//!
//! The compiler turns source text into a flat, jump-resolved instruction list;
//! the interpreter executes that list one instruction per call against a
//! byte-addressable tape, under a set of configurable execution policies.

pub mod cells;
pub mod compiler;
pub mod error;
pub mod interpreter;
pub mod interpreter_builder;
pub mod io_buffer;
pub mod program;
pub mod settings;

pub use crate::error::CompileError;
pub use crate::error::RunResult;
pub use crate::interpreter::Interpreter;
pub use crate::interpreter::State;
pub use crate::interpreter_builder::InterpreterBuilder;
pub use crate::settings::EofBehavior;
pub use crate::settings::InputMode;
pub use crate::settings::NewlineMode;
pub use crate::settings::Settings;
