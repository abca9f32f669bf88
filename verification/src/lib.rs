//! A 9x9 Sudoku puzzle library: a board model with clue tracking, an
//! interactive grid-editing state machine, a piped-mode grid parser, and a
//! constraint encoder that delegates satisfiability to the Z3 engine.

pub mod board;
pub mod editor;
pub mod engine;
pub mod keys;
pub mod parse;
