use simple_tetris::board::{Board, STANDARD_BOARD_HEIGHT, STANDARD_BOARD_WIDTH};
use simple_tetris::catalog::{extra_shapes, standard_shapes};
use simple_tetris::grid::DropError;
use simple_tetris::script::{
    fill_height_of_line, parse_number, play_line, play_request, respond, Reply, ScriptError,
};

#[test]
fn numbers_of_one_to_three_digits() {
    assert_eq!(parse_number(b"0"), Some(0));
    assert_eq!(parse_number(b"7"), Some(7));
    assert_eq!(parse_number(b"10"), Some(10));
    assert_eq!(parse_number(b"199"), Some(199));
    assert_eq!(parse_number(b"255"), Some(255));
}

#[test]
fn numbers_with_sign_or_leading_zeros() {
    assert_eq!(parse_number(b"+5"), Some(5));
    assert_eq!(parse_number(b"+255"), Some(255));
    assert_eq!(parse_number(b"007"), Some(7));
    assert_eq!(parse_number(b"0000000000000000000255"), Some(255));
}

#[test]
fn texts_that_are_no_column() {
    assert_eq!(parse_number(b""), None);
    assert_eq!(parse_number(b"+"), None);
    assert_eq!(parse_number(b"++1"), None);
    assert_eq!(parse_number(b"-1"), None);
    assert_eq!(parse_number(b"256"), None);
    assert_eq!(parse_number(b"1000"), None);
    assert_eq!(parse_number(b"99999999999999999999999"), None);
    assert_eq!(parse_number(b"1a"), None);
    assert_eq!(parse_number(b"a1"), None);
    assert_eq!(parse_number(b" 1"), None);
    assert_eq!(parse_number(b"1 "), None);
    assert_eq!(parse_number(b"2560"), None);
    assert_eq!(parse_number(b"300x"), None);
}

#[test]
fn numbers_agree_with_the_standard_parser() {
    let samples = [
        "", "+", "-", "0", "9", "+0", "-0", "00", "12", "+12", "1+2", "255", "256", "0255", "2 5",
        "25a", "/", ":", "٣", "1e1", "0x10", "+255", "+256", "254", "100", "099",
    ];
    for sample in samples {
        assert_eq!(parse_number(sample.as_bytes()), sample.parse::<u8>().ok(), "{:?}", sample);
    }
    for value in 0u16..=300 {
        let text = format!("{}", value);
        assert_eq!(parse_number(text.as_bytes()), text.parse::<u8>().ok());
    }
}

#[test]
fn request_drops_the_named_piece() {
    let shapes = standard_shapes();
    let mut board = Board::new(STANDARD_BOARD_WIDTH, STANDARD_BOARD_HEIGHT);
    assert_eq!(play_request(&shapes, &mut board, b"Q3"), Ok(()));
    assert_eq!(board.blocks()[3], vec![1u8, 2]);
    assert_eq!(board.blocks()[4], vec![1u8, 2]);
    assert_eq!(board.fill_height(), 2);
}

#[test]
fn request_reads_only_symbol_and_one_digit() {
    let shapes = standard_shapes();
    let mut board = Board::new(STANDARD_BOARD_WIDTH, STANDARD_BOARD_HEIGHT);
    assert_eq!(play_request(&shapes, &mut board, b"Q10\n"), Ok(()));
    assert_eq!(board.blocks()[0], Vec::<u8>::new());
    assert_eq!(board.blocks()[1], vec![1u8, 2]);
    assert_eq!(board.blocks()[2], vec![1u8, 2]);
}

#[test]
fn request_errors() {
    let shapes = standard_shapes();
    let mut board = Board::new(STANDARD_BOARD_WIDTH, STANDARD_BOARD_HEIGHT);
    assert_eq!(play_request(&shapes, &mut board, b""), Err(ScriptError::Malformed));
    assert_eq!(play_request(&shapes, &mut board, b"Q"), Err(ScriptError::Malformed));
    assert_eq!(play_request(&shapes, &mut board, b"Qx"), Err(ScriptError::Malformed));
    assert_eq!(play_request(&shapes, &mut board, b"Q/"), Err(ScriptError::Malformed));
    assert_eq!(play_request(&shapes, &mut board, b"Q:"), Err(ScriptError::Malformed));
    assert_eq!(play_request(&shapes, &mut board, b"X0"), Err(ScriptError::UnknownShape));
    assert_eq!(play_request(&shapes, &mut board, b"a0"), Err(ScriptError::UnknownShape));
    assert_eq!(
        play_request(&shapes, &mut board, b"I7"),
        Err(ScriptError::Rejected(DropError::OutOfBounds))
    );
    assert_eq!(board.fill_height(), 0);
    let mut low = Board::new(4, 1);
    assert_eq!(
        play_request(&shapes, &mut low, b"Q0"),
        Err(ScriptError::Rejected(DropError::CapacityExceeded))
    );
    assert_eq!(play_request(&shapes, &mut low, b"I0"), Ok(()));
    assert_eq!(low.fill_height(), 0);
}

#[test]
fn line_of_one_square() {
    let shapes = standard_shapes();
    assert_eq!(fill_height_of_line(&shapes, b"Q0"), Ok(2));
}

#[test]
fn line_of_two_stacked_squares() {
    let shapes = standard_shapes();
    assert_eq!(fill_height_of_line(&shapes, b"Q0,Q1"), Ok(4));
}

#[test]
fn line_that_clears_two_rows() {
    let shapes = standard_shapes();
    assert_eq!(fill_height_of_line(&shapes, b"Q0,Q2,Q4,Q6,Q8,Q1"), Ok(2));
}

#[test]
fn line_of_a_staircase() {
    let shapes = standard_shapes();
    assert_eq!(fill_height_of_line(&shapes, b"S0,S2,S4,S6"), Ok(8));
}

#[test]
fn line_with_its_line_break() {
    let shapes = standard_shapes();
    assert_eq!(fill_height_of_line(&shapes, b"I0,I4,Q8\n"), Ok(1));
    assert_eq!(fill_height_of_line(&shapes, b"T1,Z3,I4\r\n"), Ok(4));
}

#[test]
fn lines_that_stop_early() {
    let shapes = standard_shapes();
    assert_eq!(fill_height_of_line(&shapes, b""), Err(ScriptError::Malformed));
    assert_eq!(fill_height_of_line(&shapes, b"\n"), Err(ScriptError::Malformed));
    assert_eq!(fill_height_of_line(&shapes, b"Q0,"), Err(ScriptError::Malformed));
    assert_eq!(fill_height_of_line(&shapes, b",Q0"), Err(ScriptError::Malformed));
    assert_eq!(fill_height_of_line(&shapes, b"Q0,,Q1"), Err(ScriptError::Malformed));
    assert_eq!(fill_height_of_line(&shapes, b"Q0,X1"), Err(ScriptError::UnknownShape));
    assert_eq!(
        fill_height_of_line(&shapes, b"Q0,Q9"),
        Err(ScriptError::Rejected(DropError::OutOfBounds))
    );
}

#[test]
fn line_keeps_the_drops_before_its_error() {
    let shapes = standard_shapes();
    let mut board = Board::new(STANDARD_BOARD_WIDTH, STANDARD_BOARD_HEIGHT);
    assert_eq!(play_line(&shapes, &mut board, b"Q0,Q1,X3,Q5"), Err(ScriptError::UnknownShape));
    assert_eq!(board.fill_height(), 4);
    assert_eq!(board.blocks()[5], Vec::<u8>::new());
    assert_eq!(play_line(&shapes, &mut board, b"Q5"), Ok(()));
    assert_eq!(board.blocks()[5], vec![1u8, 2]);
}

#[test]
fn line_fills_the_board_to_its_last_row() {
    let shapes = extra_shapes();
    let mut board = Board::new(2, 12);
    assert_eq!(play_line(&shapes, &mut board, b"f0,f0"), Ok(()));
    assert_eq!(board.fill_height(), 12);
    assert_eq!(
        play_line(&shapes, &mut board, b"a0"),
        Err(ScriptError::Rejected(DropError::CapacityExceeded))
    );
    assert_eq!(play_line(&shapes, &mut board, b"f1,f1"), Ok(()));
    assert_eq!(board.fill_height(), 0);
}

#[test]
fn dialogue_ends_on_an_empty_line() {
    let shapes = extra_shapes();
    let mut board = Board::new(STANDARD_BOARD_WIDTH, STANDARD_BOARD_HEIGHT);
    assert_eq!(respond(&shapes, &mut board, b"\n"), Reply::Quit);
    assert_eq!(respond(&shapes, &mut board, b"Q"), Reply::Quit);
}

#[test]
fn dialogue_rejects_short_lines() {
    let shapes = extra_shapes();
    let mut board = Board::new(STANDARD_BOARD_WIDTH, STANDARD_BOARD_HEIGHT);
    assert_eq!(respond(&shapes, &mut board, b""), Reply::InvalidInput);
    assert_eq!(respond(&shapes, &mut board, b"Q\n"), Reply::InvalidInput);
    assert_eq!(respond(&shapes, &mut board, b"Q0"), Reply::InvalidInput);
    assert_eq!(board.fill_height(), 0);
}

#[test]
fn dialogue_checks_the_symbol_before_the_column() {
    let shapes = extra_shapes();
    let mut board = Board::new(STANDARD_BOARD_WIDTH, STANDARD_BOARD_HEIGHT);
    assert_eq!(respond(&shapes, &mut board, b"X0\n"), Reply::UnknownShape);
    assert_eq!(respond(&shapes, &mut board, b"Xx\n"), Reply::UnknownShape);
    assert_eq!(respond(&shapes, &mut board, b"Qx\n"), Reply::InvalidLocation);
    assert_eq!(respond(&shapes, &mut board, b"Q 1\n"), Reply::InvalidLocation);
    assert_eq!(respond(&shapes, &mut board, b"Q256\n"), Reply::InvalidLocation);
    assert_eq!(respond(&shapes, &mut board, b"Q1\r\n"), Reply::InvalidLocation);
    assert_eq!(board.fill_height(), 0);
}

#[test]
fn dialogue_drops_and_reports_rejections() {
    let shapes = extra_shapes();
    let mut board = Board::new(STANDARD_BOARD_WIDTH, STANDARD_BOARD_HEIGHT);
    assert_eq!(respond(&shapes, &mut board, b"Q0\n"), Reply::Dropped);
    assert_eq!(board.fill_height(), 2);
    assert_eq!(respond(&shapes, &mut board, b"q+5\n"), Reply::Dropped);
    assert_eq!(board.blocks()[5], vec![1u8]);
    assert_eq!(board.blocks()[7], Vec::<u8>::new());
    assert_eq!(board.blocks()[9], vec![1u8]);
    assert_eq!(respond(&shapes, &mut board, b"Q9\n"), Reply::Rejected(DropError::OutOfBounds));
    assert_eq!(respond(&shapes, &mut board, b"Q10\n"), Reply::Rejected(DropError::OutOfBounds));
    assert_eq!(respond(&shapes, &mut board, b"a255\n"), Reply::Rejected(DropError::OutOfBounds));
    assert_eq!(respond(&shapes, &mut board, b"a09\n"), Reply::Dropped);
    assert_eq!(board.blocks()[9], vec![1u8, 2]);
    let mut low = Board::new(3, 1);
    assert_eq!(respond(&shapes, &mut low, b"Q0\n"), Reply::Rejected(DropError::CapacityExceeded));
    assert_eq!(respond(&shapes, &mut low, b"r0\n"), Reply::Dropped);
    assert_eq!(low.fill_height(), 0);
}
