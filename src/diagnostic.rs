//! Positioned reports of why an input was rejected.
use crate::state::MoveErr;
use vstd::prelude::*;

verus! {

/// What the parser was looking for where it met an unexpected character.
#[derive(Debug, Clone, Copy, PartialEq, Eq)]
pub enum Expected {
    /// The leading active-board digit.
    ActiveDigit,
    /// A `/` between two parts.
    Slash,
    /// The start of a run: a cell symbol or a run length `1`..`9`.
    Run,
    /// A cell symbol `X`, `O` or `_` after a run length.
    Square,
    /// A file letter `a`..`i` after the final `/`.
    File,
    /// A rank digit after a file letter.
    Rank,
    /// A move or the end of the input after the ninth board.
    MoveOrEnd,
    /// The end of the input.
    End,
}

/// The rule that an input broke.
#[derive(Debug, Clone, Copy, PartialEq, Eq)]
pub enum ErrorKind {
    /// A character (or the end, `None`) that no rule allows at this place.
    Unexpected { found: Option<char>, expected: Expected },
    /// A board whose runs decode to a number of cells other than nine.
    BoardSize { count: usize },
    /// A move whose coordinates are out of range.
    InvalidMove { err: MoveErr },
}

/// One reason for rejecting an input, with the characters it concerns:
/// offsets `start` up to, but not including, `end`.
#[derive(Debug, Clone, Copy, PartialEq, Eq)]
pub struct Diagnostic {
    pub start: usize,
    pub end: usize,
    pub kind: ErrorKind,
}

/// What the parser looked for, in words.
pub open spec fn expected_text(e: Expected) -> Seq<char> {
    match e {
        Expected::ActiveDigit => "an active board digit 0-9"@,
        Expected::Slash => "'/'"@,
        Expected::Run => "a square X, O or _, or a run length 1-9"@,
        Expected::Square => "a square X, O or _"@,
        Expected::File => "a file letter a-i"@,
        Expected::Rank => "a rank digit 0-9"@,
        Expected::MoveOrEnd => "'/', a move or the end of input"@,
        Expected::End => "the end of input"@,
    }
}

/// The decimal digit `d` as text.
pub open spec fn digit_text(d: nat) -> Seq<char> {
    if d == 0 {
        "0"@
    } else if d == 1 {
        "1"@
    } else if d == 2 {
        "2"@
    } else if d == 3 {
        "3"@
    } else if d == 4 {
        "4"@
    } else if d == 5 {
        "5"@
    } else if d == 6 {
        "6"@
    } else if d == 7 {
        "7"@
    } else if d == 8 {
        "8"@
    } else {
        "9"@
    }
}

/// `n` written in decimal, without leading zeros.
pub open spec fn decimal(n: nat) -> Seq<char>
    decreases n,
{
    if n < 10 {
        digit_text(n)
    } else {
        decimal(n / 10) + digit_text(n % 10)
    }
}

/// The human-readable message for a kind of diagnostic.
pub open spec fn message_text(k: ErrorKind) -> Seq<char> {
    match k {
        ErrorKind::Unexpected { found, expected } => match found {
            Some(_) => "unexpected character, expected "@ + expected_text(expected),
            None => "unexpected end of input, expected "@ + expected_text(expected),
        },
        ErrorKind::BoardSize { count } => "Board must have exactly 9 squares, got: "@ + decimal(
            count as nat,
        ),
        ErrorKind::InvalidMove { err } => match err {
            MoveErr::InvalidRow => "move row out of range 0-8"@,
            MoveErr::InvalidColumn => "move column out of range 0-8"@,
        },
    }
}

fn expected_str(e: Expected) -> (r: &'static str)
    ensures
        r@ == expected_text(e),
{
    match e {
        Expected::ActiveDigit => "an active board digit 0-9",
        Expected::Slash => "'/'",
        Expected::Run => "a square X, O or _, or a run length 1-9",
        Expected::Square => "a square X, O or _",
        Expected::File => "a file letter a-i",
        Expected::Rank => "a rank digit 0-9",
        Expected::MoveOrEnd => "'/', a move or the end of input",
        Expected::End => "the end of input",
    }
}

fn digit_str(d: usize) -> (r: &'static str)
    requires
        d < 10,
    ensures
        r@ == digit_text(d as nat),
{
    if d == 0 {
        "0"
    } else if d == 1 {
        "1"
    } else if d == 2 {
        "2"
    } else if d == 3 {
        "3"
    } else if d == 4 {
        "4"
    } else if d == 5 {
        "5"
    } else if d == 6 {
        "6"
    } else if d == 7 {
        "7"
    } else if d == 8 {
        "8"
    } else {
        "9"
    }
}

/// Writes `n` in decimal.
pub fn decimal_string(n: usize) -> (r: String)
    ensures
        r@ == decimal(n as nat),
    decreases n,
{
    if n < 10 {
        String::from_str(digit_str(n))
    } else {
        let head = decimal_string(n / 10);
        head.concat(digit_str(n % 10))
    }
}

impl Diagnostic {
    /// A human-readable description of the broken rule.
    pub fn message(&self) -> (r: String)
        ensures
            r@ == message_text(self.kind),
    {
        match self.kind {
            ErrorKind::Unexpected { found, expected } => {
                let head = match found {
                    Some(_) => String::from_str("unexpected character, expected "),
                    None => String::from_str("unexpected end of input, expected "),
                };
                head.concat(expected_str(expected))
            },
            ErrorKind::BoardSize { count } => {
                let digits = decimal_string(count);
                String::from_str("Board must have exactly 9 squares, got: ").concat(digits.as_str())
            },
            ErrorKind::InvalidMove { err } => match err {
                MoveErr::InvalidRow => String::from_str("move row out of range 0-8"),
                MoveErr::InvalidColumn => String::from_str("move column out of range 0-8"),
            },
        }
    }
}

} // verus!
