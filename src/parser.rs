//! The executable parser, proved to compute `parse_model`.
use crate::diagnostic::{Diagnostic, ErrorKind, Expected};
use crate::grammar::{
    board_at, board_end, boards_from, capped, cell_of, digit_of,
    is_cell_char, is_digit, parse_model, prepend, repeat, runs_from, tail_at, unexpected,
    Position,
};
use crate::laws::{lemma_parsed_position_well_formed, lemma_prepend_twice};
use crate::state::{Move, Square, State};
use vstd::prelude::*;

verus! {

/// Puts `a` in front of the cells of a successful boards result.
spec fn prepend_boards(a: Seq<Square>, r: Result<(Seq<Square>, int), Diagnostic>) -> Result<
    (Seq<Square>, int),
    Diagnostic,
> {
    match r {
        Ok(x) => Ok((a + x.0, x.1)),
        Err(e) => Err(e),
    }
}

proof fn lemma_prepend_boards_twice(
    a: Seq<Square>,
    b: Seq<Square>,
    r: Result<(Seq<Square>, int), Diagnostic>,
)
    ensures
        prepend_boards(a, prepend_boards(b, r)) == prepend_boards(a + b, r),
{
    if let Ok(x) = r {
        assert(a + (b + x.0) =~= (a + b) + x.0);
    }
}

fn is_cell(c: char) -> (b: bool)
    ensures
        b == is_cell_char(c),
{
    c == 'X' || c == 'O' || c == '_'
}

fn cell(c: char) -> (sq: Square)
    ensures
        sq == cell_of(c),
{
    if c == 'X' {
        Square::X
    } else if c == 'O' {
        Square::O
    } else {
        Square::Empty
    }
}

fn is_digit_char(c: char) -> (b: bool)
    ensures
        b == is_digit(c),
{
    '0' <= c && c <= '9'
}

fn digit_value(c: char) -> (d: u8)
    requires
        is_digit(c),
    ensures
        d as nat == digit_of(c),
        d <= 9,
{
    (c as u32 - '0' as u32) as u8
}

fn unexpected_at(s: &Vec<char>, p: usize, e: Expected) -> (d: Diagnostic)
    ensures
        d == unexpected(s@, p as int, e),
{
    if p < s.len() {
        Diagnostic {
            start: p,
            end: p + 1,
            kind: ErrorKind::Unexpected { found: Some(s[p]), expected: e },
        }
    } else {
        Diagnostic { start: p, end: p, kind: ErrorKind::Unexpected { found: None, expected: e } }
    }
}

/// The end of the block of board characters that starts at `i`.
fn scan_board(s: &Vec<char>, i: usize) -> (j: usize)
    requires
        i <= s.len(),
    ensures
        j as int == board_end(s@, i as int),
        i <= j <= s.len(),
{
    let mut j = i;
    while j < s.len() && (is_cell(s[j]) || is_digit_char(s[j]))
        invariant
            i <= j <= s.len(),
            board_end(s@, i as int) == board_end(s@, j as int),
        decreases s.len() - j,
    {
        j += 1;
    }
    j
}

/// Adds without passing the largest `usize`.
fn add_capped(a: usize, b: usize) -> (r: usize)
    ensures
        r == (if a + b > usize::MAX { usize::MAX } else { (a + b) as usize }),
{
    if a > usize::MAX - b {
        usize::MAX
    } else {
        a + b
    }
}

/// Decodes the board that starts at `i`; gives its nine cells and its end.
fn parse_board(s: &Vec<char>, i: usize) -> (r: Result<(Vec<Square>, usize), Diagnostic>)
    requires
        i <= s.len(),
    ensures
        match r {
            Ok((v, j)) => board_at(s@, i as int) == Ok::<Seq<Square>, Diagnostic>(v@) && j as int
                == board_end(s@, i as int) && j <= s.len(),
            Err(d) => board_at(s@, i as int) == Err::<Seq<Square>, Diagnostic>(d),
        },
{
    let j = scan_board(s, i);
    if j == i {
        return Err(unexpected_at(s, i, Expected::Run));
    }
    let mut acc: Vec<Square> = Vec::new();
    let mut count: usize = 0;
    let ghost mut done: Seq<Square> = Seq::empty();
    let mut p = i;
    assert(done + runs_from(s@, i as int, j as int)->Ok_0 =~= runs_from(s@, i as int, j as int)->Ok_0);
    while p < j
        invariant
            i <= p <= j,
            j <= s.len(),
            j as int == board_end(s@, i as int),
            j > i,
            runs_from(s@, i as int, j as int) == prepend(done, runs_from(s@, p as int, j as int)),
            count == capped(done.len()),
            acc@.len() <= 9,
            done.len() <= 9 ==> acc@ == done,
        decreases j - p,
    {
        let c = s[p];
        if is_cell(c) {
            proof {
                lemma_prepend_twice(done, seq![cell_of(c)], runs_from(s@, p + 1, j as int));
            }
            if count < 9 {
                acc.push(cell(c));
            }
            proof {
                done = done + seq![cell_of(c)];
            }
            count = add_capped(count, 1);
            p += 1;
        } else if c == '0' || !is_digit_char(c) {
            return Err(unexpected_at(s, p, Expected::Run));
        } else if p + 1 < j && is_cell(s[p + 1]) {
            let n = digit_value(c);
            let sq = cell(s[p + 1]);
            proof {
                lemma_prepend_twice(
                    done,
                    repeat(sq, n as nat),
                    runs_from(s@, p + 2, j as int),
                );
            }
            if count <= 9 && count + (n as usize) <= 9 {
                let ghost before = acc@;
                let mut k: u8 = 0;
                while k < n
                    invariant
                        k <= n,
                        acc@ == before + repeat(sq, k as nat),
                    decreases n - k,
                {
                    acc.push(sq);
                    k += 1;
                    assert(acc@ =~= before + repeat(sq, k as nat));
                }
            }
            proof {
                done = done + repeat(sq, n as nat);
            }
            count = add_capped(count, n as usize);
            p += 2;
        } else {
            return Err(unexpected_at(s, p + 1, Expected::Square));
        }
    }
    assert(done + Seq::<Square>::empty() =~= done);
    if count != 9 {
        Err(Diagnostic { start: i, end: j, kind: ErrorKind::BoardSize { count } })
    } else {
        Ok((acc, j))
    }
}

/// Decodes what follows the ninth board at `p`.
fn parse_tail(s: &Vec<char>, p: usize) -> (r: Result<Option<Move>, Diagnostic>)
    requires
        p <= s.len(),
    ensures
        match r {
            Ok(None) => tail_at(s@, p as int) == Ok::<Option<(int, int)>, Diagnostic>(None),
            Ok(Some(m)) => tail_at(s@, p as int) matches Ok(Some(rc)) && m.wf() && m.is_at(
                rc.0,
                rc.1,
            ),
            Err(d) => tail_at(s@, p as int) == Err::<Option<(int, int)>, Diagnostic>(d),
        },
{
    if p >= s.len() {
        return Ok(None);
    }
    let q = if s[p] == '/' {
        p + 1
    } else {
        p
    };
    if q < s.len() && 'a' <= s[q] && s[q] <= 'i' {
        if q + 1 < s.len() && is_digit_char(s[q + 1]) {
            let row = digit_value(s[q + 1]);
            let col = (s[q] as u32 - 'a' as u32) as u8;
            match Move::new(row, col) {
                Err(err) => Err(Diagnostic { start: q, end: q + 2, kind: ErrorKind::InvalidMove { err } }),
                Ok(m) => if q + 2 < s.len() {
                    Err(unexpected_at(s, q + 2, Expected::End))
                } else {
                    Ok(Some(m))
                },
            }
        } else {
            Err(unexpected_at(s, q + 1, Expected::Rank))
        }
    } else if s[p] == '/' {
        Err(unexpected_at(s, q, Expected::File))
    } else {
        Err(unexpected_at(s, p, Expected::MoveOrEnd))
    }
}

/// Parses a position given as a sequence of characters; the result is
/// exactly `parse_model` of them.
pub fn parse_chars(s: &Vec<char>) -> (r: Result<State, Diagnostic>)
    ensures
        r is Ok <==> parse_model(s@) is Ok,
        r matches Ok(st) ==> st.models(parse_model(s@)->Ok_0),
        r matches Err(d) ==> parse_model(s@) == Err::<Position, Diagnostic>(d),
{
    if s.len() == 0 || !is_digit_char(s[0]) {
        return Err(unexpected_at(s, 0, Expected::ActiveDigit));
    }
    if s.len() < 2 || s[1] != '/' {
        return Err(unexpected_at(s, 1, Expected::Slash));
    }
    let active = digit_value(s[0]);
    let mut cells: Vec<Square> = Vec::new();
    let mut pos: usize = 2;
    let mut b: usize = 0;
    assert(cells@ + boards_from(s@, 2, 9)->Ok_0.0 =~= boards_from(s@, 2, 9)->Ok_0.0);
    while b < 9
        invariant
            b <= 9,
            pos <= s.len(),
            cells@.len() == 9 * b,
            boards_from(s@, 2, 9) == prepend_boards(cells@, boards_from(s@, pos as int, (9 - b) as nat)),
            s@.len() >= 2,
            is_digit(s@[0]),
            s@[1] == '/',
        decreases 9 - b,
    {
        let ghost rest = boards_from(s@, pos as int, (9 - b) as nat);
        match parse_board(s, pos) {
            Err(d) => {
                assert(rest == Err::<(Seq<Square>, int), Diagnostic>(d));
                return Err(d);
            },
            Ok((v, j)) => {
                let ghost cells_before = cells@;
                let mut t: usize = 0;
                while t < v.len()
                    invariant
                        t <= v.len(),
                        cells@ == cells_before + v@.subrange(0, t as int),
                    decreases v.len() - t,
                {
                    cells.push(v[t]);
                    t += 1;
                    assert(cells@ =~= cells_before + v@.subrange(0, t as int));
                }
                assert(v@.subrange(0, v@.len() as int) =~= v@);
                if b < 8 {
                    if j < s.len() && s[j] == '/' {
                        proof {
                            lemma_prepend_boards_twice(
                                cells_before,
                                v@,
                                boards_from(s@, j + 1, (9 - b - 1) as nat),
                            );
                        }
                        pos = j + 1;
                    } else {
                        assert(rest == Err::<(Seq<Square>, int), Diagnostic>(
                            unexpected(s@, j as int, Expected::Slash),
                        ));
                        return Err(unexpected_at(s, j, Expected::Slash));
                    }
                } else {
                    assert(v@ + Seq::<Square>::empty() =~= v@);
                    proof {
                        lemma_prepend_boards_twice(cells_before, v@, boards_from(s@, j as int, 0));
                    }
                    pos = j;
                }
                b += 1;
            },
        }
    }
    let last_move = match parse_tail(s, pos) {
        Err(d) => {
            return Err(d);
        },
        Ok(m) => m,
    };
    let mut squares = [Square::Empty; 81];
    let mut k: usize = 0;
    while k < 81
        invariant
            k <= 81,
            cells@.len() == 81,
            squares@.len() == 81,
            forall|t: int| 0 <= t < k ==> squares@[t] == cells@[t],
        decreases 81 - k,
    {
        squares.set(k, cells[k]);
        k += 1;
    }
    assert(squares@ =~= cells@);
    Ok(State { active, squares, last_move })
}

/// The characters of `input`, in order.
fn chars_of(input: &str) -> (v: Vec<char>)
    ensures
        v@ == input@,
{
    let n = input.unicode_len();
    let mut v: Vec<char> = Vec::new();
    let mut i: usize = 0;
    while i < n
        invariant
            n == input@.len(),
            i <= n,
            v@ == input@.subrange(0, i as int),
        decreases n - i,
    {
        v.push(input.get_char(i));
        i += 1;
        assert(v@ =~= input@.subrange(0, i as int));
    }
    assert(input@.subrange(0, n as int) =~= input@);
    v
}

/// Parses a position string. On success the state holds exactly the decoded
/// position and meets its invariants; on failure the list holds the
/// diagnostic for the first place where the input breaks the grammar.
/// Offsets in diagnostics count characters.
pub fn parse(input: &str) -> (r: Result<State, Vec<Diagnostic>>)
    ensures
        r is Ok <==> parse_model(input@) is Ok,
        r matches Ok(st) ==> st.wf() && st.models(parse_model(input@)->Ok_0),
        r matches Err(ds) ==> ds@ == seq![parse_model(input@)->Err_0],
{
    let chars = chars_of(input);
    match parse_chars(&chars) {
        Ok(st) => {
            proof {
                lemma_parsed_position_well_formed(input@);
            }
            Ok(st)
        },
        Err(d) => {
            let mut ds: Vec<Diagnostic> = Vec::new();
            ds.push(d);
            assert(ds@ =~= seq![d]);
            Err(ds)
        },
    }
}

} // verus!
