//! The parsed position: cells, moves and the state that holds them.
use crate::grammar::Position;
use vstd::prelude::*;

verus! {

/// The content of one cell.
#[derive(Debug, Clone, Copy, PartialEq, Eq, Structural)]
pub enum Square {
    Empty,
    X,
    O,
}

/// A cell of the 9x9 grid, given by row and column, each in `0..=8`.
#[derive(Debug, Clone, Copy, PartialEq, Eq, Structural)]
pub struct Move {
    row: u8,
    column: u8,
}

/// Why a `Move` could not be built.
#[derive(Debug, Clone, Copy, PartialEq, Eq, Structural)]
pub enum MoveErr {
    InvalidRow,
    InvalidColumn,
}

/// The largest row or column index.
pub const MAX_COORD: u8 = 8;

impl Move {
    /// Row of the move, as a spec value.
    pub closed spec fn spec_row(self) -> u8 {
        self.row
    }

    /// Column of the move, as a spec value.
    pub closed spec fn spec_col(self) -> u8 {
        self.column
    }

    /// Both coordinates are in `0..=8`.
    pub open spec fn wf(self) -> bool {
        self.spec_row() <= 8 && self.spec_col() <= 8
    }

    /// `m` is the move at the given row and column.
    pub open spec fn is_at(self, row: int, col: int) -> bool {
        self.spec_row() == row && self.spec_col() == col
    }

    /// Builds a move; the row is checked first, then the column.
    pub fn new(row: u8, col: u8) -> (r: Result<Self, MoveErr>)
        ensures
            row > 8 ==> r == Err::<Move, MoveErr>(MoveErr::InvalidRow),
            row <= 8 && col > 8 ==> r == Err::<Move, MoveErr>(MoveErr::InvalidColumn),
            row <= 8 && col <= 8 ==> (r matches Ok(m) && m.wf() && m.is_at(row as int, col as int)),
    {
        if row > MAX_COORD {
            Err(MoveErr::InvalidRow)
        } else if col > MAX_COORD {
            Err(MoveErr::InvalidColumn)
        } else {
            Ok(Self { row, column: col })
        }
    }

    pub fn row(self) -> (r: u8)
        ensures
            r == self.spec_row(),
    {
        self.row
    }

    pub fn col(self) -> (r: u8)
        ensures
            r == self.spec_col(),
    {
        self.column
    }
}

/// A fully parsed position.
#[derive(Debug, Clone)]
pub struct State {
    /// The board the next move must be played in; `9` means any board.
    pub active: u8,
    /// The 81 cells, board by board, each board's cells in order.
    pub squares: [Square; 81],
    /// The most recent move, when the input named one.
    pub last_move: Option<Move>,
}

impl State {
    /// The invariants every parsed state holds.
    pub open spec fn wf(&self) -> bool {
        &&& self.active <= 9
        &&& self.squares@.len() == 81
        &&& self.last_move matches Some(m) ==> m.wf()
    }

    /// The state holds exactly the decoded position `m`.
    pub open spec fn models(&self, m: Position) -> bool {
        &&& self.active as nat == m.0
        &&& self.squares@ == m.1
        &&& match (self.last_move, m.2) {
            (None, None) => true,
            (Some(mv), Some(rc)) => mv.is_at(rc.0, rc.1),
            _ => false,
        }
    }
}

} // verus!
