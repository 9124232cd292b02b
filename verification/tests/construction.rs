use minesweeper::{Appearance, Board, Cell, Status};

#[test]
fn new_cell_is_covered_and_empty() {
    let cell = Cell::new(3, 7);
    assert_eq!(cell.col, 3);
    assert_eq!(cell.row, 7);
    assert_eq!(cell.nearby_mines, 0);
    assert!(!cell.is_flagged);
    assert!(!cell.is_mine);
    assert!(!cell.is_revealed);
}

#[test]
fn new_board_has_rows_times_cols_cells_in_row_major_order() {
    let board = Board::new(9, 10, 10);
    assert_eq!(board.rows(), 9);
    assert_eq!(board.cols(), 10);
    assert_eq!(board.mine_count(), 10);
    assert_eq!(board.cells().len(), 90);
    for row in 0..9usize {
        for col in 0..10usize {
            let cell = board.cells()[row * 10 + col];
            assert_eq!(cell, Cell::new(col, row));
        }
    }
}

#[test]
fn new_board_has_no_state_flag_set() {
    let board = Board::new(9, 10, 10);
    assert!(!board.has_clicked());
    assert!(!board.is_lost());
    assert!(!board.is_won());
    assert_eq!(board.flags_placed(), 0);
    assert_eq!(board.count_safe_revealed(), 0);
}

#[test]
fn single_cell_board_without_mines_is_allowed() {
    let board = Board::new(1, 1, 0);
    assert_eq!(board.cells().len(), 1);
    assert_eq!(board.cells()[0], Cell::new(0, 0));
}

#[test]
fn locate_gives_row_major_index() {
    let board = Board::new(9, 10, 10);
    assert_eq!(board.locate(0, 0), Some(0));
    assert_eq!(board.locate(9, 0), Some(9));
    assert_eq!(board.locate(0, 1), Some(10));
    assert_eq!(board.locate(3, 4), Some(43));
    assert_eq!(board.locate(9, 8), Some(89));
}

#[test]
fn locate_rejects_positions_off_the_grid() {
    let board = Board::new(9, 10, 10);
    assert_eq!(board.locate(-1, 0), None);
    assert_eq!(board.locate(0, -1), None);
    assert_eq!(board.locate(10, 0), None);
    assert_eq!(board.locate(0, 9), None);
    assert_eq!(board.locate(i32::MAX, i32::MIN), None);
}

#[test]
fn cell_reads_by_position() {
    let board = Board::new(2, 3, 1);
    assert_eq!(board.cell(2, 1), Some(Cell::new(2, 1)));
    assert_eq!(board.cell(3, 1), None);
    assert_eq!(board.cell(2, 2), None);
    assert_eq!(board.cell(-1, -1), None);
}

#[test]
fn is_at_compares_positions() {
    let cell = Cell::new(2, 5);
    assert!(cell.is_at(2, 5));
    assert!(!cell.is_at(5, 2));
    assert!(!cell.is_at(-2, 5));
    assert!(!cell.is_at(2, -5));
}

#[test]
fn flagged_cell_shows_a_flag() {
    let mut cell = Cell::new(0, 0);
    cell.is_flagged = true;
    assert_eq!(cell.appearance(), Appearance::Flag);
    cell.is_revealed = true;
    cell.is_mine = true;
    assert_eq!(cell.appearance(), Appearance::Flag);
}

#[test]
fn uncovered_mine_shows_a_mine() {
    let mut cell = Cell::new(0, 0);
    cell.is_mine = true;
    cell.is_revealed = true;
    assert_eq!(cell.appearance(), Appearance::Mine);
}

#[test]
fn covered_mine_shows_a_plain_tile() {
    let mut cell = Cell::new(0, 0);
    cell.is_mine = true;
    assert_eq!(cell.appearance(), Appearance::Tile { revealed: false, label: None });
}

#[test]
fn tile_carries_the_count_only_when_it_is_not_zero() {
    let mut cell = Cell::new(0, 0);
    cell.is_revealed = true;
    assert_eq!(cell.appearance(), Appearance::Tile { revealed: true, label: None });
    cell.nearby_mines = 3;
    assert_eq!(cell.appearance(), Appearance::Tile { revealed: true, label: Some(3) });
}

#[test]
fn status_counts_mines_less_flags() {
    let mut board = Board::new(9, 10, 10);
    assert_eq!(board.status(), Status::Playing { mines_left: 10 });
    board.toggle_flag(0, 0);
    board.toggle_flag(1, 0);
    board.toggle_flag(2, 0);
    assert_eq!(board.flags_placed(), 3);
    assert_eq!(board.status(), Status::Playing { mines_left: 7 });
}

#[test]
fn status_goes_negative_with_more_flags_than_mines() {
    let mut board = Board::new(2, 2, 1);
    board.toggle_flag(0, 0);
    board.toggle_flag(1, 0);
    board.toggle_flag(0, 1);
    assert_eq!(board.status(), Status::Playing { mines_left: -2 });
}

#[test]
fn status_reports_the_terminal_states() {
    let mut won = Board::new(2, 2, 1);
    won.win();
    assert_eq!(won.status(), Status::Won);
    let mut lost = Board::new(2, 2, 1);
    lost.game_over();
    assert_eq!(lost.status(), Status::Lost);
}
