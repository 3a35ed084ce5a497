use utt::diagnostic::{Diagnostic, ErrorKind, Expected};
use utt::parser::parse;
use utt::state::{Move, MoveErr, Square};

const EMPTY_TAIL: &str = "/9_/9_/9_/9_/9_/9_/9_/9_";

fn with_first_board(active: &str, board: &str) -> String {
    format!("{}/{}{}", active, board, EMPTY_TAIL)
}

#[test]
fn all_empty_any_board() {
    let st = parse("9/9_/9_/9_/9_/9_/9_/9_/9_/9_").unwrap();
    assert_eq!(st.active, 9);
    assert!(st.squares.iter().all(|s| *s == Square::Empty));
    assert!(st.last_move.is_none());
}

#[test]
fn alternating_first_board() {
    let st = parse("0/XOXOXOXOX/9_/9_/9_/9_/9_/9_/9_/9_").unwrap();
    assert_eq!(st.active, 0);
    for i in 0..9 {
        let want = if i % 2 == 0 { Square::X } else { Square::O };
        assert_eq!(st.squares[i], want);
    }
    assert!(st.squares[9..].iter().all(|s| *s == Square::Empty));
}

#[test]
fn run_of_nine() {
    let st = parse(&with_first_board("3", "9X")).unwrap();
    assert!(st.squares[..9].iter().all(|s| *s == Square::X));
    assert!(st.squares[9..].iter().all(|s| *s == Square::Empty));
}

#[test]
fn mixed_runs_expand_in_order() {
    let st = parse(&with_first_board("1", "3X2O4_")).unwrap();
    let want = [
        Square::X,
        Square::X,
        Square::X,
        Square::O,
        Square::O,
        Square::Empty,
        Square::Empty,
        Square::Empty,
        Square::Empty,
    ];
    assert_eq!(st.squares[..9], want);
}

#[test]
fn runs_in_a_later_board() {
    let st = parse("4/9_/9_/9_/9_/X2O_5X/9_/9_/9_/9_").unwrap();
    let b = &st.squares[36..45];
    assert_eq!(b, [Square::X, Square::O, Square::O, Square::Empty, Square::X, Square::X, Square::X, Square::X, Square::X]);
}

#[test]
fn short_board_reports_count_and_span() {
    let errs = parse("0/8X/9_/9_/9_/9_/9_/9_/9_/9_").unwrap_err();
    assert!(!errs.is_empty());
    let d = errs[0];
    assert_eq!(d, Diagnostic { start: 2, end: 4, kind: ErrorKind::BoardSize { count: 8 } });
    assert!(d.message().contains('8'));
}

#[test]
fn long_board_is_rejected() {
    let errs = parse(&with_first_board("0", "9XO")).unwrap_err();
    assert_eq!(errs[0].kind, ErrorKind::BoardSize { count: 10 });
    assert_eq!((errs[0].start, errs[0].end), (2, 5));
}

#[test]
fn zero_run_length_is_rejected() {
    let errs = parse(&with_first_board("0", "0X9X")).unwrap_err();
    assert_eq!(
        errs[0],
        Diagnostic { start: 2, end: 3, kind: ErrorKind::Unexpected { found: Some('0'), expected: Expected::Run } }
    );
}

#[test]
fn missing_move_gives_none() {
    let st = parse("9/9_/9_/9_/9_/9_/9_/9_/9_/9_").unwrap();
    assert!(st.last_move.is_none());
}

#[test]
fn move_after_slash() {
    let st = parse("9/9_/9_/9_/9_/9_/9_/9_/9_/9_/a1").unwrap();
    let m = st.last_move.unwrap();
    assert_eq!((m.row(), m.col()), (1, 0));
}

#[test]
fn move_without_slash() {
    let st = parse("9/9_/9_/9_/9_/9_/9_/9_/9_/9_g8").unwrap();
    let m = st.last_move.unwrap();
    assert_eq!((m.row(), m.col()), (8, 6));
}

#[test]
fn rank_is_row_without_offset() {
    let st = parse("9/9_/9_/9_/9_/9_/9_/9_/9_/9_/i0").unwrap();
    let m = st.last_move.unwrap();
    assert_eq!((m.row(), m.col()), (0, 8));
}

#[test]
fn rank_nine_is_an_invalid_row() {
    let errs = parse("9/9_/9_/9_/9_/9_/9_/9_/9_/9_/a9").unwrap_err();
    assert_eq!(
        errs[0],
        Diagnostic { start: 29, end: 31, kind: ErrorKind::InvalidMove { err: MoveErr::InvalidRow } }
    );
}

#[test]
fn trailing_garbage_is_rejected() {
    let errs = parse("9/9_/9_/9_/9_/9_/9_/9_/9_/9_zz").unwrap_err();
    assert_eq!(
        errs[0],
        Diagnostic { start: 28, end: 29, kind: ErrorKind::Unexpected { found: Some('z'), expected: Expected::MoveOrEnd } }
    );
    let errs = parse("9/9_/9_/9_/9_/9_/9_/9_/9_/9_/a1x").unwrap_err();
    assert_eq!(errs[0].kind, ErrorKind::Unexpected { found: Some('x'), expected: Expected::End });
    assert!(parse("9/9_/9_/9_/9_/9_/9_/9_/9_/9_/").is_err());
    assert!(parse("9/9_/9_/9_/9_/9_/9_/9_/9_/9_/9_").is_err());
}

#[test]
fn parsing_is_deterministic() {
    for input in ["0/XOXOXOXOX/9_/9_/9_/9_/9_/9_/9_/9_/b3", "0/8X/9_/9_/9_/9_/9_/9_/9_/9_"] {
        let a = parse(input);
        let b = parse(input);
        match (a, b) {
            (Ok(x), Ok(y)) => {
                assert_eq!(x.active, y.active);
                assert_eq!(x.squares, y.squares);
                assert_eq!(x.last_move, y.last_move);
            }
            (Err(x), Err(y)) => assert_eq!(x, y),
            _ => panic!("results differ"),
        }
    }
}

#[test]
fn structural_errors() {
    let errs = parse("").unwrap_err();
    assert_eq!(errs[0], Diagnostic { start: 0, end: 0, kind: ErrorKind::Unexpected { found: None, expected: Expected::ActiveDigit } });
    let errs = parse("x/9_").unwrap_err();
    assert_eq!(errs[0].kind, ErrorKind::Unexpected { found: Some('x'), expected: Expected::ActiveDigit });
    let errs = parse("99_").unwrap_err();
    assert_eq!(errs[0].kind, ErrorKind::Unexpected { found: Some('9'), expected: Expected::Slash });
    let errs = parse("9/9_/9_").unwrap_err();
    assert_eq!(errs[0], Diagnostic { start: 7, end: 7, kind: ErrorKind::Unexpected { found: None, expected: Expected::Slash } });
    let errs = parse("9/9_9X").unwrap_err();
    assert_eq!(errs[0].kind, ErrorKind::BoardSize { count: 18 });
    let errs = parse("9/9_;").unwrap_err();
    assert_eq!(errs[0], Diagnostic { start: 4, end: 5, kind: ErrorKind::Unexpected { found: Some(';'), expected: Expected::Slash } });
    let errs = parse("9/5_4").unwrap_err();
    assert_eq!(errs[0], Diagnostic { start: 5, end: 5, kind: ErrorKind::Unexpected { found: None, expected: Expected::Square } });
    let errs = parse("9/9_/9_/9_/9_/9_/9_/9_/9_/9_/z1").unwrap_err();
    assert_eq!(errs[0].kind, ErrorKind::Unexpected { found: Some('z'), expected: Expected::File });
    let errs = parse("9/9_/9_/9_/9_/9_/9_/9_/9_/9_/c").unwrap_err();
    assert_eq!(errs[0], Diagnostic { start: 30, end: 30, kind: ErrorKind::Unexpected { found: None, expected: Expected::Rank } });
}

#[test]
fn offsets_count_characters() {
    let errs = parse("9/é").unwrap_err();
    assert_eq!(errs[0], Diagnostic { start: 2, end: 3, kind: ErrorKind::Unexpected { found: Some('é'), expected: Expected::Run } });
}

#[test]
fn move_new_checks_row_then_column() {
    assert_eq!(Move::new(9, 0), Err(MoveErr::InvalidRow));
    assert_eq!(Move::new(9, 9), Err(MoveErr::InvalidRow));
    assert_eq!(Move::new(0, 9), Err(MoveErr::InvalidColumn));
    let m = Move::new(8, 3).unwrap();
    assert_eq!((m.row(), m.col()), (8, 3));
}

#[test]
fn board_size_message_names_count() {
    let d = Diagnostic { start: 2, end: 4, kind: ErrorKind::BoardSize { count: 8 } };
    assert_eq!(d.message(), "Board must have exactly 9 squares, got: 8");
}

#[test]
fn unexpected_messages_name_what_was_expected() {
    let errs = parse("9/9_/9_/9_/9_/9_/9_/9_/9_/9_/a1x").unwrap_err();
    assert_eq!(errs[0].message(), "unexpected character, expected the end of input");
    let errs = parse("").unwrap_err();
    assert_eq!(errs[0].message(), "unexpected end of input, expected an active board digit 0-9");
    let errs = parse("9/9_/9_/9_/9_/9_/9_/9_/9_/9_/a9").unwrap_err();
    assert_eq!(errs[0].message(), "move row out of range 0-8");
}

#[test]
fn decimal_message_for_large_count() {
    let d = Diagnostic { start: 0, end: 1, kind: ErrorKind::BoardSize { count: 1207 } };
    assert_eq!(d.message(), "Board must have exactly 9 squares, got: 1207");
    assert_eq!(utt::diagnostic::decimal_string(0), "0");
    assert_eq!(utt::diagnostic::decimal_string(90), "90");
}

#[test]
fn nothing_is_accepted_after_a_move() {
    assert!(parse("9/9_/9_/9_/9_/9_/9_/9_/9_/9_/a1").is_ok());
    assert!(parse("9/9_/9_/9_/9_/9_/9_/9_/9_/9_/a1b2").is_err());
    assert!(parse("9/9_/9_/9_/9_/9_/9_/9_/9_/9_/a1/").is_err());
    assert!(parse("9/9_/9_/9_/9_/9_/9_/9_/9_/9_/a10").is_err());
}

#[test]
fn board_characters_after_the_last_board_are_rejected() {
    let errs = parse("9/9_/9_/9_/9_/9_/9_/9_/9_/9_X").unwrap_err();
    assert_eq!(errs[0].kind, ErrorKind::BoardSize { count: 10 });
    let errs = parse("9/9_/9_/9_/9_/9_/9_/9_/9_/9_5").unwrap_err();
    assert_eq!(errs[0].kind, ErrorKind::Unexpected { found: None, expected: Expected::Square });
}

#[test]
fn appended_move_keeps_the_position() {
    let base = "5/XOXOXOXOX/9_/3X3O3_/9_/9_/9_/9_/9_/9O";
    let a = parse(base).unwrap();
    for suffix in ["/e4", "e4"] {
        let b = parse(&format!("{}{}", base, suffix)).unwrap();
        assert_eq!(a.active, b.active);
        assert_eq!(a.squares, b.squares);
        let m = b.last_move.unwrap();
        assert_eq!((m.row(), m.col()), (4, 4));
    }
}
