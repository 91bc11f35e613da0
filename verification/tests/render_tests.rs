use simple_tetris::board::{Board, STANDARD_BOARD_HEIGHT, STANDARD_BOARD_WIDTH};
use simple_tetris::catalog::{extra_shapes, standard_shapes};

#[test]
fn empty_board_renders_its_base_line() {
    let board = Board::new(2, 3);
    assert_eq!(board.render(), "  ----\n");
}

#[test]
fn render_shows_cells_and_fill_counts() {
    let shapes = standard_shapes();
    let mut board = Board::new(STANDARD_BOARD_WIDTH, STANDARD_BOARD_HEIGHT);
    board.drop(&shapes[&b'T'], 1);
    board.drop(&shapes[&b'Z'], 3);
    board.drop(&shapes[&b'I'], 4);
    let expected = "3 |    xxxx  | 4\n\
                    2 |   xx     | 2\n\
                    1 | xxxxx    | 5\n\
                    0 |  x       | 1\n  ------------\n";
    assert_eq!(board.render(), expected);
}

#[test]
fn render_after_a_clear() {
    let shapes = standard_shapes();
    let mut board = Board::new(STANDARD_BOARD_WIDTH, STANDARD_BOARD_HEIGHT);
    for location in [0u8, 2, 4, 6, 8, 1] {
        board.drop(&shapes[&b'Q'], location);
    }
    assert_eq!(board.render(), "1 | xx       | 2\n0 | xx       | 2\n  ------------\n");
}

#[test]
fn render_pads_row_indices_to_the_fill_height() {
    let shapes = extra_shapes();
    let mut board = Board::new(2, 12);
    for _ in 0..10 {
        board.drop(&shapes[&b'a'], 0);
    }
    let expected = " 9 |x | 1\n 8 |x | 1\n 7 |x | 1\n 6 |x | 1\n 5 |x | 1\n\
                    \x204 |x | 1\n 3 |x | 1\n 2 |x | 1\n 1 |x | 1\n 0 |x | 1\n   ----\n";
    assert_eq!(board.render(), expected);
}

#[test]
fn render_writes_fill_counts_of_two_digits() {
    let shapes = extra_shapes();
    let mut board = Board::new(12, 4);
    for location in 0..11 {
        board.drop(&shapes[&b'a'], location);
    }
    assert_eq!(board.render(), "0 |xxxxxxxxxxx | 11\n  --------------\n");
}
