//! A compiler for a minimal tape language: a parser from source text to a
//! syntax tree, and a code generator from the tree to a control-flow graph.
//!
//! The language has six operations on a tape of cells and a cursor, `<` `>`
//! `+` `-` `,` `.`, and loops in `[` `]` that run while the current cell is
//! not zero. Every other character is a comment.
//!
//! - [`parser`] reads text into a tree. The grammar is a set of mathematical
//!   functions on bytes; the parser returns what they say, and laws state
//!   that brackets match, that loops have bodies and that comments do not
//!   count.
//! - [`compiler`] lowers a tree to basic blocks of primitive instructions.
//!   The meaning of a program and the run of a function are mathematical
//!   functions on a machine; laws state that the function a program is
//!   compiled to does what the program means, and no more. An interpreter
//!   runs functions with every access to the tape checked.

pub mod compiler;
pub mod parser;
