//! Source text to syntax tree.

pub mod ast;
pub mod grammar;
pub mod laws;
pub mod parse;
