//! An assembler and interpreter for the Little Man Computer: a tokenizer, a
//! macro expander, a parser, a label resolver and a virtual machine whose
//! memory cells hold their contents as text.
pub mod assembler;
pub mod compiler;
pub mod error;
pub mod instruction;
pub mod interpreter;
pub mod memory;

pub mod pattern;
pub mod program;
pub mod report;
pub mod span;
pub mod text;
