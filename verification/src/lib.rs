//! A compiler and executor for a minimal tape language of eight symbols.
//!
//! Source text is cleaned of everything but the eight symbols, checked for
//! balanced brackets, folded into counted instructions, and its brackets are
//! resolved into jumps. The executor then runs the instructions over a tape
//! of bytes, one step at a time.

pub mod compile;
pub mod fold;
pub mod instruction;
pub mod interpreter;
pub mod lexer;
pub mod machine;
pub mod resolve;
pub mod validate;
