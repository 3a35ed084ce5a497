//! Properties of the grammar that hold for every input.
use crate::diagnostic::{Diagnostic, ErrorKind};
use crate::grammar::{
    board_at, board_end, boards_from, capped, cell_of, digit_of, file_of, is_board_char,
    is_cell_char, is_file, parse_model, prepend, repeat, runs_from, Position,
};
use crate::state::Square;
use vstd::prelude::*;

verus! {

/// Decoding `k` boards that succeeds yields nine cells for each board.
pub proof fn lemma_boards_cell_count(s: Seq<char>, i: int, k: nat)
    requires
        boards_from(s, i, k) is Ok,
    ensures
        boards_from(s, i, k)->Ok_0.0.len() == 9 * k,
    decreases k,
{
    if k > 1 {
        lemma_boards_cell_count(s, board_end(s, i) + 1, (k - 1) as nat);
    }
}

/// Every accepted input decodes to 81 cells, an active board in `0..=9`,
/// and, when a move is present, a row and a column in `0..=8`.
pub proof fn lemma_parsed_position_well_formed(s: Seq<char>)
    requires
        parse_model(s) is Ok,
    ensures
        parse_model(s)->Ok_0.1.len() == 81,
        parse_model(s)->Ok_0.0 <= 9,
        parse_model(s)->Ok_0.2 matches Some(rc) ==> 0 <= rc.0 <= 8 && 0 <= rc.1 <= 8,
{
    lemma_boards_cell_count(s, 2, 9);
}

/// A run-length token `d c`, with `d` in `1..=9` and `c` a cell symbol,
/// decodes to `d` copies of `c` followed by whatever the runs after it give.
pub proof fn lemma_run_length_token(s: Seq<char>, p: int, j: int)
    requires
        p + 2 <= j,
        '1' <= s[p] <= '9',
        is_cell_char(s[p + 1]),
        runs_from(s, p + 2, j) is Ok,
    ensures
        runs_from(s, p, j) == Ok::<Seq<Square>, Diagnostic>(
            repeat(cell_of(s[p + 1]), digit_of(s[p])) + runs_from(s, p + 2, j)->Ok_0,
        ),
{
}

/// Decoding runs up to `j` passes through every run boundary `m`: what
/// follows `m` is decoded on its own and put after the cells before `m`.
proof fn lemma_runs_split(s: Seq<char>, i: int, m: int, j: int)
    requires
        i <= m <= j,
        runs_from(s, i, m) is Ok,
    ensures
        runs_from(s, i, j) == prepend(runs_from(s, i, m)->Ok_0, runs_from(s, m, j)),
    decreases m - i,
{
    if i == m {
        if let Ok(c) = runs_from(s, m, j) {
            assert(Seq::<Square>::empty() + c =~= c);
        }
    } else if is_cell_char(s[i]) {
        lemma_runs_split(s, i + 1, m, j);
        lemma_prepend_twice(seq![cell_of(s[i])], runs_from(s, i + 1, m)->Ok_0, runs_from(s, m, j));
    } else {
        lemma_runs_split(s, i + 2, m, j);
        lemma_prepend_twice(
            repeat(cell_of(s[i + 1]), digit_of(s[i])),
            runs_from(s, i + 2, m)->Ok_0,
            runs_from(s, m, j),
        );
    }
}

pub(crate) proof fn lemma_prepend_twice(a: Seq<Square>, b: Seq<Square>, r: Result<Seq<Square>, Diagnostic>)
    ensures
        prepend(a, prepend(b, r)) == prepend(a + b, r),
{
    if let Ok(x) = r {
        assert(a + (b + x) =~= (a + b) + x);
    }
}

/// Decoding two adjacent stretches of runs gives the cells of the first
/// followed by the cells of the second: expansion neither drops, adds nor
/// reorders cells.
pub proof fn lemma_runs_concat(s: Seq<char>, i: int, m: int, j: int)
    requires
        i <= m <= j,
        runs_from(s, i, m) is Ok,
        runs_from(s, m, j) is Ok,
    ensures
        runs_from(s, i, j) == Ok::<Seq<Square>, Diagnostic>(
            runs_from(s, i, m)->Ok_0 + runs_from(s, m, j)->Ok_0,
        ),
{
    lemma_runs_split(s, i, m, j);
}

/// Every run yields at least one cell.
proof fn lemma_runs_nonempty(s: Seq<char>, p: int, j: int)
    requires
        p < j,
        runs_from(s, p, j) is Ok,
    ensures
        runs_from(s, p, j)->Ok_0.len() >= 1,
{
}

/// A board whose runs decode to a number of cells other than nine is
/// rejected at that board, with a diagnostic that spans the board and
/// reports the count.
pub proof fn lemma_board_count_enforced(s: Seq<char>, i: int, k: nat)
    requires
        k >= 1,
        board_end(s, i) > i,
        runs_from(s, i, board_end(s, i)) is Ok,
        runs_from(s, i, board_end(s, i))->Ok_0.len() != 9,
    ensures
        boards_from(s, i, k) == Err::<(Seq<Square>, int), Diagnostic>(
            Diagnostic {
                start: i as usize,
                end: board_end(s, i) as usize,
                kind: ErrorKind::BoardSize {
                    count: capped(runs_from(s, i, board_end(s, i))->Ok_0.len()),
                },
            },
        ),
{
}

/// Parsing is a function of the input alone: equal inputs give equal outcomes.
pub proof fn lemma_parse_deterministic(a: Seq<char>, b: Seq<char>)
    requires
        a == b,
    ensures
        parse_model(a) == parse_model(b),
{
}

proof fn lemma_board_end_bounds(s: Seq<char>, i: int)
    requires
        0 <= i <= s.len(),
    ensures
        i <= board_end(s, i) <= s.len(),
    decreases s.len() - i,
{
    if i < s.len() && is_board_char(s[i]) {
        lemma_board_end_bounds(s, i + 1);
    }
}

proof fn lemma_boards_end_bounds(s: Seq<char>, i: int, k: nat)
    requires
        0 <= i <= s.len(),
        boards_from(s, i, k) is Ok,
    ensures
        i <= boards_from(s, i, k)->Ok_0.1 <= s.len(),
    decreases k,
{
    lemma_board_end_bounds(s, i);
    if k > 1 {
        lemma_boards_end_bounds(s, board_end(s, i) + 1, (k - 1) as nat);
    }
}

proof fn lemma_board_end_extend(s: Seq<char>, t: Seq<char>, i: int)
    requires
        0 <= i <= s.len(),
        board_end(s, i) < s.len() || (t.len() > 0 && !is_board_char(t[0])),
    ensures
        board_end(s + t, i) == board_end(s, i),
    decreases s.len() - i,
{
    if i < s.len() && is_board_char(s[i]) {
        assert((s + t)[i] == s[i]);
        lemma_board_end_extend(s, t, i + 1);
    } else if i < s.len() {
        assert((s + t)[i] == s[i]);
    } else {
        assert((s + t)[i] == t[0]);
    }
}

proof fn lemma_runs_extend(s: Seq<char>, t: Seq<char>, p: int, j: int)
    requires
        0 <= p <= j <= s.len(),
        runs_from(s, p, j) is Ok,
    ensures
        runs_from(s + t, p, j) == runs_from(s, p, j),
    decreases j - p,
{
    if p < j {
        assert((s + t)[p] == s[p]);
        if is_cell_char(s[p]) {
            lemma_runs_extend(s, t, p + 1, j);
        } else {
            assert((s + t)[p + 1] == s[p + 1]);
            lemma_runs_extend(s, t, p + 2, j);
        }
    }
}

/// Decoding boards reads nothing past the end of their own text, so text
/// appended after it (that does not continue the last board) changes nothing.
proof fn lemma_boards_extend(s: Seq<char>, t: Seq<char>, i: int, k: nat)
    requires
        0 <= i <= s.len(),
        boards_from(s, i, k) is Ok,
        boards_from(s, i, k)->Ok_0.1 < s.len() || (t.len() > 0 && !is_board_char(t[0])),
    ensures
        boards_from(s + t, i, k) == boards_from(s, i, k),
    decreases k,
{
    if k > 0 {
        let j = board_end(s, i);
        lemma_board_end_bounds(s, i);
        if k > 1 {
            lemma_boards_end_bounds(s, j + 1, (k - 1) as nat);
            lemma_boards_extend(s, t, j + 1, (k - 1) as nat);
            assert((s + t)[j] == s[j]);
        }
        lemma_board_end_extend(s, t, i);
        lemma_runs_extend(s, t, i, j);
        assert(board_at(s + t, i) == board_at(s, i));
    }
}

/// Appending a move token, with or without a leading `/`, to an accepted
/// input that names no move gives the same position with that move: the
/// file letter gives the column, the rank digit the row.
pub proof fn lemma_move_appended(s: Seq<char>, f: char, r: char)
    requires
        parse_model(s) matches Ok(m) && m.2 is None,
        is_file(f),
        '0' <= r <= '8',
    ensures
        ({
            let m = parse_model(s)->Ok_0;
            let with_move: Position = (m.0, m.1, Some((digit_of(r) as int, file_of(f))));
            &&& parse_model(s + seq!['/', f, r]) == Ok::<Position, Diagnostic>(with_move)
            &&& parse_model(s + seq![f, r]) == Ok::<Position, Diagnostic>(with_move)
        }),
{
    lemma_boards_end_bounds(s, 2, 9);
    let t1 = seq!['/', f, r];
    let t2 = seq![f, r];
    lemma_boards_extend(s, t1, 2, 9);
    lemma_boards_extend(s, t2, 2, 9);
    assert((s + t1)[0] == s[0] && (s + t1)[1] == s[1]);
    assert((s + t2)[0] == s[0] && (s + t2)[1] == s[1]);
    let n = s.len() as int;
    assert((s + t1)[n] == '/' && (s + t1)[n + 1] == f && (s + t1)[n + 2] == r);
    assert((s + t2)[n] == f && (s + t2)[n + 1] == r);
}

/// An accepted input that ends in a move accepts nothing after it.
pub proof fn lemma_nothing_after_move(s: Seq<char>, t: Seq<char>)
    requires
        parse_model(s) matches Ok(m) && m.2 is Some,
        t.len() > 0,
    ensures
        parse_model(s + t) is Err,
{
    let p = boards_from(s, 2, 9)->Ok_0.1;
    lemma_boards_end_bounds(s, 2, 9);
    lemma_boards_extend(s, t, 2, 9);
    assert((s + t)[0] == s[0] && (s + t)[1] == s[1]);
    let q = if s[p] == '/' { p + 1 } else { p };
    assert((s + t)[p] == s[p]);
    assert((s + t)[q] == s[q]);
    assert((s + t)[q + 1] == s[q + 1]);
}

proof fn lemma_board_end_full(s: Seq<char>, t: Seq<char>, i: int)
    requires
        0 <= i <= s.len(),
        board_end(s, i) == s.len(),
    ensures
        board_end(s + t, i) == board_end(s + t, s.len() as int),
    decreases s.len() - i,
{
    if i < s.len() {
        assert((s + t)[i] == s[i]);
        lemma_board_end_full(s, t, i + 1);
    }
}

/// Board characters appended to accepted boards that end the input make
/// the last board too long or malformed.
proof fn lemma_last_board_extended(s: Seq<char>, t: Seq<char>, i: int, k: nat)
    requires
        0 <= i <= s.len(),
        k >= 1,
        boards_from(s, i, k) is Ok,
        boards_from(s, i, k)->Ok_0.1 == s.len(),
        t.len() > 0,
        is_board_char(t[0]),
    ensures
        boards_from(s + t, i, k) is Err,
    decreases k,
{
    let j = board_end(s, i);
    let n = s.len() as int;
    let u = s + t;
    lemma_board_end_bounds(s, i);
    if k > 1 {
        lemma_board_end_extend(s, t, i);
        lemma_runs_extend(s, t, i, j);
        assert(board_at(u, i) == board_at(s, i));
        assert(u[j] == s[j]);
        lemma_last_board_extended(s, t, j + 1, (k - 1) as nat);
    } else {
        lemma_board_end_full(s, t, i);
        assert(u[n] == t[0]);
        assert(board_end(u, n) == board_end(u, n + 1));
        lemma_board_end_bounds(u, n + 1);
        let j2 = board_end(u, i);
        lemma_runs_extend(s, t, i, n);
        lemma_runs_split(u, i, n, j2);
        if runs_from(u, n, j2) is Ok {
            lemma_runs_nonempty(u, n, j2);
        }
    }
}

/// Whether `t` is a move token within range, with or without a leading `/`.
pub open spec fn is_move_token(t: Seq<char>) -> bool {
    ||| (t.len() == 2 && is_file(t[0]) && '0' <= t[1] <= '8')
    ||| (t.len() == 3 && t[0] == '/' && is_file(t[1]) && '0' <= t[2] <= '8')
}

/// An accepted parse consumes the whole input: text appended to an
/// accepted input is accepted only when the input names no move and the
/// text is a move token.
pub proof fn lemma_trailing_text_rejected(s: Seq<char>, t: Seq<char>)
    requires
        parse_model(s) is Ok,
        t.len() > 0,
        !(parse_model(s)->Ok_0.2 is None && is_move_token(t)),
    ensures
        parse_model(s + t) is Err,
{
    if parse_model(s)->Ok_0.2 is Some {
        lemma_nothing_after_move(s, t);
    } else {
        let n = s.len() as int;
        let u = s + t;
        lemma_boards_end_bounds(s, 2, 9);
        assert(u[0] == s[0] && u[1] == s[1]);
        if is_board_char(t[0]) {
            lemma_last_board_extended(s, t, 2, 9);
        } else {
            lemma_boards_extend(s, t, 2, 9);
            assert(u[n] == t[0]);
            if t.len() > 1 {
                assert(u[n + 1] == t[1]);
            }
            if t.len() > 2 {
                assert(u[n + 2] == t[2]);
            }
            if t.len() > 3 {
                assert(u[n + 3] == t[3]);
            }
        }
    }
}

} // verus!
