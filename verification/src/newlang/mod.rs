//! The exceptions of the first version of the interpreter, kept for the
//! programs and tools that still use them.

pub mod exception;
pub mod state;
