use snake_game::board::{fill_board, Board, BODY, CELLS, COLS, EMPTY, FOOD, HEAD, ROWS, WALL};

#[test]
fn board_is_twenty_five_by_twenty_five() {
    assert_eq!(COLS, 25);
    assert_eq!(ROWS, 25);
    assert_eq!(CELLS, ROWS * COLS);
}

#[test]
fn symbols_are_the_documented_characters() {
    assert_eq!(EMPTY, ' ');
    assert_eq!(WALL, '#');
    assert_eq!(BODY, '*');
    assert_eq!(HEAD, '@');
    assert_eq!(FOOD, 'o');
}

#[test]
fn new_board_is_empty_everywhere() {
    let board = Board::new();
    for y in 0..ROWS {
        for x in 0..COLS {
            assert_eq!(board.get(x, y), ' ');
        }
    }
}

#[test]
fn fill_board_draws_walls_on_the_border_only() {
    let mut board = Board::new();
    fill_board(&mut board);
    for y in 0..ROWS {
        for x in 0..COLS {
            let border = x == 0 || x == 24 || y == 0 || y == 24;
            let expected = if border { '#' } else { ' ' };
            assert_eq!(board.get(x, y), expected, "cell ({}, {})", x, y);
        }
    }
}

#[test]
fn fill_board_corners_are_walls() {
    let mut board = Board::new();
    fill_board(&mut board);
    assert_eq!(board.get(0, 0), '#');
    assert_eq!(board.get(24, 0), '#');
    assert_eq!(board.get(0, 24), '#');
    assert_eq!(board.get(24, 24), '#');
    assert_eq!(board.get(1, 1), ' ');
    assert_eq!(board.get(23, 23), ' ');
}

#[test]
fn stamp_overwrites_exactly_one_cell() {
    let mut board = Board::new();
    fill_board(&mut board);
    board.stamp(3, 7, 'o');
    for y in 0..ROWS {
        for x in 0..COLS {
            let border = x == 0 || x == 24 || y == 0 || y == 24;
            let expected = if (x, y) == (3, 7) {
                'o'
            } else if border {
                '#'
            } else {
                ' '
            };
            assert_eq!(board.get(x, y), expected, "cell ({}, {})", x, y);
        }
    }
}

#[test]
fn stamp_is_row_major() {
    let mut board = Board::new();
    board.stamp(24, 0, 'a');
    board.stamp(0, 1, 'b');
    assert_eq!(board.get(24, 0), 'a');
    assert_eq!(board.get(0, 1), 'b');
    assert_eq!(board.get(1, 0), ' ');
}

#[test]
fn stamp_overwrites_a_wall_and_a_previous_stamp() {
    let mut board = Board::new();
    fill_board(&mut board);
    board.stamp(0, 5, '@');
    assert_eq!(board.get(0, 5), '@');
    board.stamp(0, 5, '*');
    assert_eq!(board.get(0, 5), '*');
}

#[test]
fn fill_board_wipes_what_was_stamped() {
    let mut board = Board::new();
    fill_board(&mut board);
    board.stamp(0, 0, '@');
    board.stamp(12, 12, 'o');
    fill_board(&mut board);
    assert_eq!(board.get(0, 0), '#');
    assert_eq!(board.get(12, 12), ' ');
}
