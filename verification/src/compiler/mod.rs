//! Syntax tree to control-flow graph.

pub mod callbacks;
pub mod codegen;
pub mod driver;
pub mod generators;
pub mod interpreter;
pub mod ir;
pub mod laws;
pub mod machine;
pub mod meaning;
pub mod shape;
