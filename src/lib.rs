//! Parsing of Ultimate Tic-Tac-Toe position strings.
//!
//! A position string holds a digit naming the active board (`9` meaning any
//! board), a slash, nine boards of nine cells separated by slashes, and an
//! optional trailing move such as `a1`. Inside a board a run of equal cells
//! may be written as its length followed by the cell (`4X` for `XXXX`).
//!
//! `grammar` states the format as spec functions, `parser` computes it and is
//! proved to agree with them, and `laws` proves properties of the format.
pub mod diagnostic;
pub mod grammar;
pub mod laws;
pub mod parser;
pub mod state;

pub use diagnostic::{Diagnostic, ErrorKind, Expected};
pub use parser::parse;
pub use state::{Move, MoveErr, Square, State};
