use minesweeper::input::cell_coordinate;
use minesweeper::{Board, Pointer};

fn laid_out(rows: usize, cols: usize, mines: &[(usize, usize)]) -> Board {
    let mut board = Board::new(rows, cols, mines.len());
    for &(col, row) in mines {
        let index = row * cols + col;
        let before = board.cells()[..index].iter().filter(|c| !c.is_mine).count();
        assert_eq!(board.place_mine(before, -1, -1), index);
    }
    board
}

fn left_at(x: i32, y: i32) -> Pointer {
    Pointer { x, y, left_pressed: true, right_pressed: false }
}

fn right_at(x: i32, y: i32) -> Pointer {
    Pointer { x, y, left_pressed: false, right_pressed: true }
}

fn idle_at(x: i32, y: i32) -> Pointer {
    Pointer { x, y, left_pressed: false, right_pressed: false }
}

#[test]
fn pixel_is_divided_by_the_cell_size() {
    assert_eq!(cell_coordinate(0, 100), 0);
    assert_eq!(cell_coordinate(99, 100), 0);
    assert_eq!(cell_coordinate(100, 100), 1);
    assert_eq!(cell_coordinate(250, 100), 2);
    assert_eq!(cell_coordinate(999, 100), 9);
    assert_eq!(cell_coordinate(7, 1), 7);
    assert_eq!(cell_coordinate(i32::MAX, 1), i32::MAX);
}

#[test]
fn negative_pixel_is_rounded_towards_zero() {
    assert_eq!(cell_coordinate(-1, 100), 0);
    assert_eq!(cell_coordinate(-99, 100), 0);
    assert_eq!(cell_coordinate(-100, 100), -1);
    assert_eq!(cell_coordinate(-250, 100), -2);
    assert_eq!(cell_coordinate(i32::MIN, 1), i32::MIN);
}

#[test]
fn first_click_on_a_corner_never_finds_a_mine_there() {
    for _ in 0..200 {
        let mut board = Board::new(9, 10, 10);
        board.check_input(left_at(5, 5), 100);
        let corner = board.cell(0, 0).unwrap();
        assert!(!corner.is_mine);
        assert!(corner.is_revealed);
        assert!(board.has_clicked());
        assert!(!board.is_lost());
        assert_eq!(board.cells().iter().filter(|c| c.is_mine).count(), 10);
    }
}

#[test]
fn first_click_through_update_lays_the_mines() {
    let mut board = Board::new(9, 10, 10);
    board.update(left_at(950, 850), 100);
    assert!(board.has_clicked());
    assert!(!board.cell(9, 8).unwrap().is_mine);
    assert!(board.cell(9, 8).unwrap().is_revealed);
    assert_eq!(board.cells().iter().filter(|c| c.is_mine).count(), 10);
}

#[test]
fn later_clicks_lay_no_more_mines() {
    let mut board = laid_out(3, 3, &[(2, 2)]);
    board.check_input(left_at(0, 0), 10);
    assert_eq!(board.cells().iter().filter(|c| c.is_mine).count(), 1);
    assert!(board.cell(2, 2).unwrap().is_mine);
}

#[test]
fn pointer_off_the_grid_is_ignored() {
    let mut board = Board::new(9, 10, 10);
    let before = board.cells().clone();
    board.check_input(left_at(1000, 0), 100);
    board.check_input(left_at(0, 900), 100);
    board.check_input(left_at(-100, 0), 100);
    board.check_input(right_at(0, -100), 100);
    board.check_input(right_at(5000, 5000), 100);
    assert_eq!(*board.cells(), before);
    assert!(!board.has_clicked());
}

#[test]
fn idle_pointer_changes_nothing() {
    let mut board = Board::new(9, 10, 10);
    let before = board.cells().clone();
    board.check_input(idle_at(50, 50), 100);
    assert_eq!(*board.cells(), before);
    assert!(!board.has_clicked());
}

#[test]
fn right_click_puts_a_flag() {
    let mut board = Board::new(9, 10, 10);
    board.check_input(right_at(250, 120), 100);
    for (i, cell) in board.cells().iter().enumerate() {
        assert_eq!(cell.is_flagged, i == 12);
        assert!(!cell.is_revealed);
    }
    assert!(!board.has_clicked());
}

#[test]
fn right_click_twice_restores_the_board() {
    let mut board = laid_out(3, 3, &[(2, 2)]);
    board.reveal_cell(0, 0);
    let before = board.clone();
    board.check_input(right_at(25, 25), 10);
    assert!(board.cell(2, 2).unwrap().is_flagged);
    assert_ne!(board.cells(), before.cells());
    board.check_input(right_at(25, 25), 10);
    assert!(!board.cell(2, 2).unwrap().is_flagged);
    assert_eq!(board.cells(), before.cells());
    assert_eq!(board.has_clicked(), before.has_clicked());
    assert_eq!(board.is_won(), before.is_won());
    assert_eq!(board.is_lost(), before.is_lost());
}

#[test]
fn right_click_on_an_uncovered_cell_does_nothing() {
    let mut board = laid_out(1, 5, &[(2, 0)]);
    board.reveal_cell(0, 0);
    let before = board.cells().clone();
    board.check_input(right_at(0, 0), 10);
    board.check_input(right_at(15, 0), 10);
    assert_eq!(*board.cells(), before);
}

#[test]
fn toggle_flag_off_the_grid_does_nothing() {
    let mut board = Board::new(2, 2, 1);
    let before = board.cells().clone();
    board.toggle_flag(2, 0);
    board.toggle_flag(0, -1);
    assert_eq!(*board.cells(), before);
}

#[test]
fn left_click_on_a_flagged_cell_does_nothing() {
    let mut board = laid_out(1, 5, &[(2, 0)]);
    board.toggle_flag(0, 0);
    let before = board.clone();
    board.check_input(left_at(5, 5), 10);
    assert_eq!(board.cells(), before.cells());
    assert!(!board.is_lost());
    assert!(!board.is_won());
    assert!(board.cell(0, 0).unwrap().is_flagged);
    assert!(!board.cell(0, 0).unwrap().is_revealed);
}

#[test]
fn left_click_on_an_uncovered_cell_does_nothing() {
    let mut board = laid_out(1, 5, &[(2, 0)]);
    board.reveal_cell(1, 0);
    let before = board.cells().clone();
    board.check_input(left_at(15, 0), 10);
    assert_eq!(*board.cells(), before);
}

#[test]
fn left_click_reveals_a_safe_cell() {
    let mut board = laid_out(1, 5, &[(2, 0)]);
    board.check_input(left_at(45, 0), 10);
    let revealed: Vec<usize> =
        board.cells().iter().filter(|c| c.is_revealed).map(|c| c.col).collect();
    assert_eq!(revealed, vec![3, 4]);
    assert_eq!(board.cell(3, 0).unwrap().nearby_mines, 1);
    assert_eq!(board.cell(4, 0).unwrap().nearby_mines, 0);
    assert!(!board.is_lost());
}

#[test]
fn left_press_wins_over_right_press() {
    let mut board = laid_out(1, 5, &[(2, 0)]);
    board.check_input(Pointer { x: 0, y: 0, left_pressed: true, right_pressed: true }, 10);
    let cell = board.cell(0, 0).unwrap();
    assert!(cell.is_revealed);
    assert!(!cell.is_flagged);
}

#[test]
fn left_click_on_a_mine_loses_the_game() {
    let mut board = laid_out(3, 3, &[(0, 0), (2, 2)]);
    board.toggle_flag(2, 2);
    board.toggle_flag(1, 0);
    board.reveal_cell(0, 2);
    board.check_input(left_at(0, 0), 10);
    assert!(board.is_lost());
    assert!(!board.is_won());
    let hit = board.cell(0, 0).unwrap();
    assert!(hit.is_mine && hit.is_revealed && !hit.is_flagged);
    let flagged_mine = board.cell(2, 2).unwrap();
    assert!(flagged_mine.is_mine && flagged_mine.is_revealed && flagged_mine.is_flagged);
    let wrong_flag = board.cell(1, 0).unwrap();
    assert!(!wrong_flag.is_mine && wrong_flag.is_revealed && !wrong_flag.is_flagged);
    assert_eq!(wrong_flag.nearby_mines, 0);
    let opened = board.cell(0, 2).unwrap();
    assert!(opened.is_revealed && !opened.is_flagged);
    let untouched = board.cell(2, 0).unwrap();
    assert!(!untouched.is_revealed && !untouched.is_flagged && !untouched.is_mine);
}

#[test]
fn left_click_on_a_flagged_mine_loses_the_game() {
    let mut board = laid_out(3, 3, &[(1, 1)]);
    board.toggle_flag(1, 1);
    board.check_input(left_at(15, 15), 10);
    assert!(board.is_lost());
    let mine = board.cell(1, 1).unwrap();
    assert!(mine.is_revealed && mine.is_flagged);
}

#[test]
fn open_cell_follows_the_left_click_rules() {
    let mut board = laid_out(1, 5, &[(2, 0)]);
    board.open_cell(7, 0);
    assert_eq!(board.cells().iter().filter(|c| c.is_revealed).count(), 0);
    board.open_cell(0, 0);
    assert_eq!(board.cells().iter().filter(|c| c.is_revealed).count(), 2);
    assert!(!board.is_lost());
    board.open_cell(2, 0);
    assert!(board.is_lost());
}

#[test]
fn game_over_uncovers_mines_and_wrong_flags() {
    let mut board = laid_out(2, 3, &[(0, 0), (1, 0)]);
    board.toggle_flag(0, 0);
    board.toggle_flag(2, 1);
    board.game_over();
    assert!(board.is_lost());
    let seen: Vec<(bool, bool)> =
        board.cells().iter().map(|c| (c.is_revealed, c.is_flagged)).collect();
    assert_eq!(
        seen,
        vec![(true, true), (true, false), (false, false), (false, false), (false, false), (true, false)]
    );
    assert_eq!(board.cells().iter().filter(|c| c.is_mine).count(), 2);
}

#[test]
fn win_uncovers_everything_and_flags_the_mines() {
    let mut board = laid_out(2, 3, &[(0, 0), (1, 0)]);
    board.toggle_flag(2, 1);
    board.win();
    assert!(board.is_won());
    assert!(!board.is_lost());
    let seen: Vec<(bool, bool)> =
        board.cells().iter().map(|c| (c.is_revealed, c.is_flagged)).collect();
    assert_eq!(
        seen,
        vec![(true, true), (true, true), (true, false), (true, false), (true, false), (true, true)]
    );
}

#[test]
fn update_detects_the_win() {
    let mut board = laid_out(1, 5, &[(2, 0)]);
    board.update(left_at(0, 0), 10);
    assert!(!board.is_won());
    board.update(left_at(45, 0), 10);
    assert!(!board.is_won());
    assert_eq!(board.count_safe_revealed(), 4);
    board.update(idle_at(0, 0), 10);
    assert!(board.is_won());
    assert!(!board.is_lost());
    let mine = board.cell(2, 0).unwrap();
    assert!(mine.is_mine && mine.is_flagged && mine.is_revealed);
    assert!(board.cells().iter().all(|c| c.is_revealed));
}

#[test]
fn update_checks_the_win_before_the_input() {
    let mut board = laid_out(1, 3, &[(1, 0)]);
    board.reveal_cell(0, 0);
    board.reveal_cell(2, 0);
    board.update(left_at(15, 0), 10);
    assert!(board.is_won());
    assert!(!board.is_lost());
}

#[test]
fn update_on_a_lost_board_does_nothing() {
    let mut board = laid_out(3, 3, &[(1, 1)]);
    board.update(left_at(15, 15), 10);
    assert!(board.is_lost());
    let before = board.clone();
    board.update(left_at(0, 0), 10);
    board.update(right_at(25, 25), 10);
    assert_eq!(board.cells(), before.cells());
    assert!(board.is_lost());
    assert!(!board.is_won());
}

#[test]
fn update_on_a_won_board_changes_nothing_more() {
    let mut board = laid_out(1, 3, &[(1, 0)]);
    board.reveal_cell(0, 0);
    board.reveal_cell(2, 0);
    board.update(idle_at(0, 0), 10);
    assert!(board.is_won());
    let before = board.clone();
    board.update(left_at(15, 0), 10);
    board.update(right_at(0, 0), 10);
    assert_eq!(board.cells(), before.cells());
    assert!(board.is_won());
    assert!(!board.is_lost());
}

#[test]
fn update_does_not_win_before_the_mines_are_laid() {
    let mut board = Board::new(9, 10, 10);
    board.update(idle_at(0, 0), 100);
    assert!(!board.is_won());
    assert!(!board.has_clicked());
    assert_eq!(board.cells().iter().filter(|c| c.is_revealed).count(), 0);
}

#[test]
fn update_wins_a_board_without_mines_after_the_first_click() {
    let mut board = Board::new(2, 2, 0);
    board.update(left_at(0, 0), 10);
    assert!(!board.is_won());
    assert_eq!(board.count_safe_revealed(), 4);
    board.update(idle_at(0, 0), 10);
    assert!(board.is_won());
}

#[test]
fn count_safe_revealed_leaves_out_uncovered_mines() {
    let mut board = laid_out(1, 5, &[(2, 0)]);
    board.reveal_cell(0, 0);
    assert_eq!(board.count_safe_revealed(), 2);
    board.game_over();
    assert_eq!(board.count_safe_revealed(), 2);
    assert_eq!(board.cells().iter().filter(|c| c.is_revealed).count(), 3);
}
