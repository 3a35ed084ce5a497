//! The position-string grammar as spec functions over the input's characters.
//!
//! `parse_model` gives, for every input, either the decoded position or the
//! diagnostic for the first place (from the left) where the input breaks a rule.
use crate::diagnostic::{Diagnostic, ErrorKind, Expected};
use crate::state::{MoveErr, Square};
use vstd::prelude::*;

verus! {

/// A decoded position: active board, the cells in order, and the optional
/// last move as (row, column).
pub type Position = (nat, Seq<Square>, Option<(int, int)>);

pub open spec fn is_cell_char(c: char) -> bool {
    c == 'X' || c == 'O' || c == '_'
}

pub open spec fn cell_of(c: char) -> Square {
    if c == 'X' {
        Square::X
    } else if c == 'O' {
        Square::O
    } else {
        Square::Empty
    }
}

pub open spec fn is_digit(c: char) -> bool {
    '0' <= c && c <= '9'
}

pub open spec fn digit_of(c: char) -> nat {
    (c as u32 - '0' as u32) as nat
}

/// A character that may stand inside a board.
pub open spec fn is_board_char(c: char) -> bool {
    is_cell_char(c) || is_digit(c)
}

pub open spec fn is_file(c: char) -> bool {
    'a' <= c && c <= 'i'
}

pub open spec fn file_of(c: char) -> int {
    c as u32 - 'a' as u32
}

/// The end of the block of board characters that starts at `i`.
pub open spec fn board_end(s: Seq<char>, i: int) -> int
    decreases s.len() - i,
{
    if 0 <= i < s.len() && is_board_char(s[i]) {
        board_end(s, i + 1)
    } else {
        i
    }
}

pub open spec fn found_at(s: Seq<char>, p: int) -> Option<char> {
    if 0 <= p < s.len() {
        Some(s[p])
    } else {
        None
    }
}

/// The diagnostic for an unexpected character (or end of input) at `p`.
pub open spec fn unexpected(s: Seq<char>, p: int, e: Expected) -> Diagnostic {
    Diagnostic {
        start: p as usize,
        end: (if p < s.len() { p + 1 } else { p }) as usize,
        kind: ErrorKind::Unexpected { found: found_at(s, p), expected: e },
    }
}

/// `n` copies of one cell.
pub open spec fn repeat(c: Square, n: nat) -> Seq<Square> {
    Seq::new(n, |_k: int| c)
}

/// Puts `a` in front of a successful result; passes a failure on.
pub open spec fn prepend(a: Seq<Square>, r: Result<Seq<Square>, Diagnostic>) -> Result<
    Seq<Square>,
    Diagnostic,
> {
    match r {
        Ok(x) => Ok(a + x),
        Err(e) => Err(e),
    }
}

/// Decodes the runs in `s[p..j]`: a cell symbol gives one cell, a length
/// `1`..`9` followed by a cell symbol gives that many copies of the cell.
pub open spec fn runs_from(s: Seq<char>, p: int, j: int) -> Result<Seq<Square>, Diagnostic>
    decreases j - p,
{
    if p >= j {
        Ok(Seq::empty())
    } else if is_cell_char(s[p]) {
        prepend(seq![cell_of(s[p])], runs_from(s, p + 1, j))
    } else if s[p] == '0' || !is_digit(s[p]) {
        Err(unexpected(s, p, Expected::Run))
    } else if p + 1 < j && is_cell_char(s[p + 1]) {
        prepend(repeat(cell_of(s[p + 1]), digit_of(s[p])), runs_from(s, p + 2, j))
    } else {
        Err(unexpected(s, p + 1, Expected::Square))
    }
}

/// A cell count as reported, capped at the largest `usize`.
pub open spec fn capped(n: nat) -> usize {
    if n > usize::MAX {
        usize::MAX
    } else {
        n as usize
    }
}

/// Decodes the board that starts at `i`; it must hold exactly nine cells.
pub open spec fn board_at(s: Seq<char>, i: int) -> Result<Seq<Square>, Diagnostic> {
    let j = board_end(s, i);
    if j == i {
        Err(unexpected(s, i, Expected::Run))
    } else {
        match runs_from(s, i, j) {
            Err(e) => Err(e),
            Ok(cells) => if cells.len() == 9 {
                Ok(cells)
            } else {
                Err(
                    Diagnostic {
                        start: i as usize,
                        end: j as usize,
                        kind: ErrorKind::BoardSize { count: capped(cells.len()) },
                    },
                )
            },
        }
    }
}

/// Decodes `k` boards separated by `/`, the first starting at `i`; gives
/// their cells in order and the offset just past the last board.
pub open spec fn boards_from(s: Seq<char>, i: int, k: nat) -> Result<(Seq<Square>, int), Diagnostic>
    decreases k,
{
    if k == 0 {
        Ok((Seq::empty(), i))
    } else {
        match board_at(s, i) {
            Err(e) => Err(e),
            Ok(cells) => {
                let j = board_end(s, i);
                if k == 1 {
                    Ok((cells, j))
                } else if j < s.len() && s[j] == '/' {
                    match boards_from(s, j + 1, (k - 1) as nat) {
                        Ok(rest) => Ok((cells + rest.0, rest.1)),
                        Err(e) => Err(e),
                    }
                } else {
                    Err(unexpected(s, j, Expected::Slash))
                }
            },
        }
    }
}

/// Decodes what follows the ninth board at `p`: nothing, or a move (file
/// letter and rank digit), optionally after a `/`, ending the input.
pub open spec fn tail_at(s: Seq<char>, p: int) -> Result<Option<(int, int)>, Diagnostic> {
    if p >= s.len() {
        Ok(None)
    } else {
        let q = if s[p] == '/' { p + 1 } else { p };
        if q < s.len() && is_file(s[q]) {
            if q + 1 < s.len() && is_digit(s[q + 1]) {
                if digit_of(s[q + 1]) > 8 {
                    Err(
                        Diagnostic {
                            start: q as usize,
                            end: (q + 2) as usize,
                            kind: ErrorKind::InvalidMove { err: MoveErr::InvalidRow },
                        },
                    )
                } else if q + 2 < s.len() {
                    Err(unexpected(s, q + 2, Expected::End))
                } else {
                    Ok(Some((digit_of(s[q + 1]) as int, file_of(s[q]))))
                }
            } else {
                Err(unexpected(s, q + 1, Expected::Rank))
            }
        } else if s[p] == '/' {
            Err(unexpected(s, q, Expected::File))
        } else {
            Err(unexpected(s, p, Expected::MoveOrEnd))
        }
    }
}

/// The outcome of parsing the whole input.
pub open spec fn parse_model(s: Seq<char>) -> Result<Position, Diagnostic> {
    if s.len() == 0 || !is_digit(s[0]) {
        Err(unexpected(s, 0, Expected::ActiveDigit))
    } else if s.len() < 2 || s[1] != '/' {
        Err(unexpected(s, 1, Expected::Slash))
    } else {
        match boards_from(s, 2, 9) {
            Err(e) => Err(e),
            Ok(b) => match tail_at(s, b.1) {
                Err(e) => Err(e),
                Ok(mv) => Ok((digit_of(s[0]), b.0, mv)),
            },
        }
    }
}

} // verus!
