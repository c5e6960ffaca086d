//! A tape machine for the eight-instruction bracket language.
//!
//! Source bytes are compiled into a [`Program`](program::Program) whose
//! brackets carry their jump targets, and a program is run against a tape of
//! thirty thousand byte cells.

pub mod brackets;
pub mod error;
pub mod interpreter;
pub mod machine;
pub mod program;

pub use error::InterpreterError;
pub use interpreter::Interpreter;
