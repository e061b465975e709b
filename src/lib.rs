//! A compiler and stack machine for a small expression language: a scanner, a
//! precedence-climbing parser that emits bytecode directly, and a virtual
//! machine that runs it.
pub mod common;
pub mod compile;
pub mod tokens;
pub mod parse;
pub mod vm;
pub mod laws;
