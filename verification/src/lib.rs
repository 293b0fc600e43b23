//! An interpreter for a tiny two-dialect byte-code language.
//!
//! A program is an arbitrary byte sequence. The lexer turns each byte
//! into at most one instruction, switching between two spelling
//! tables whenever a new-string operator is scanned. The vm executes the
//! instruction stream against a stack of values and yields the
//! final top of the stack, if any.

pub mod lexer;
pub mod value;
pub mod vm;
