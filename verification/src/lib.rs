//! A verified interpreter for Tiny BASIC, a minimal line-numbered dialect of
//! BASIC with numeric variables, integer arithmetic, conditional branching,
//! subroutine call/return, user input, and printing.
//!
//! The crate is organized around a byte-level model of ASCII text:
//! [`text`] holds the character classes and scanning functions,
//! [`char_stream`] the tokenizer, [`code_line`] the split of an input line
//! into line index and statement, [`program_storage`] the ordered stored
//! program, [`semantics`] the mathematical meaning of expressions and
//! statements, [`interpreter`] the verified evaluator and executor,
//! [`repl`] the dispatch of input lines, [`error`] the diagnostics, and
//! [`laws`] proofs that relate several operations.

pub mod char_stream;
pub mod code_line;
pub mod error;
pub mod interpreter;
pub mod laws;
pub mod program_storage;
pub mod repl;
pub mod semantics;
pub mod text;
pub mod types;
