use minesweeper::{Board, Cell, Pointer, Status};

fn mines_around(cells: &[Cell], rows: usize, cols: usize, cell: &Cell) -> u8 {
    let mut n = 0;
    for other in cells {
        let dc = other.col as i64 - cell.col as i64;
        let dr = other.row as i64 - cell.row as i64;
        if other.is_mine && (dc != 0 || dr != 0) && dc.abs() <= 1 && dr.abs() <= 1 {
            n += 1;
        }
    }
    assert!(cell.col < cols && cell.row < rows);
    n
}

fn check_play_invariant(board: &Board) {
    let cells = board.cells();
    assert_eq!(cells.len(), board.rows() * board.cols());
    let mines = cells.iter().filter(|c| c.is_mine).count();
    if board.has_clicked() {
        assert_eq!(mines, board.mine_count());
    } else {
        assert_eq!(mines, 0);
        assert!(cells.iter().all(|c| !c.is_revealed));
    }
    assert!(!(board.is_won() && board.is_lost()));
    for (i, cell) in cells.iter().enumerate() {
        assert_eq!(cell.row * board.cols() + cell.col, i);
        if cell.is_revealed && cell.is_flagged {
            assert!(cell.is_mine);
        }
        if cell.nearby_mines != 0 {
            assert!(cell.is_revealed);
            assert_eq!(cell.nearby_mines, mines_around(cells, board.rows(), board.cols(), cell));
        }
        if board.is_won() {
            assert!(cell.is_revealed);
            assert_eq!(cell.is_flagged, cell.is_mine);
        }
    }
}

fn next_number(state: &mut u64) -> u64 {
    *state = state.wrapping_mul(6364136223846793005).wrapping_add(1442695040888963407);
    *state >> 33
}

#[test]
fn games_played_frame_by_frame_keep_the_invariant_and_end_frozen() {
    let mut state = 20240607u64;
    for _ in 0..60 {
        let mut board = Board::new(9, 10, 10);
        check_play_invariant(&board);
        let mut frames = 0;
        while !board.is_won() && !board.is_lost() && frames < 5000 {
            let pointer = Pointer {
                x: (next_number(&mut state) % 1100) as i32 - 50,
                y: (next_number(&mut state) % 1000) as i32 - 50,
                left_pressed: next_number(&mut state) % 4 != 0,
                right_pressed: next_number(&mut state) % 5 == 0,
            };
            board.update(pointer, 100);
            check_play_invariant(&board);
            frames += 1;
        }
        assert!(board.is_won() || board.is_lost());
        let frozen = board.clone();
        for _ in 0..20 {
            let pointer = Pointer {
                x: (next_number(&mut state) % 1000) as i32,
                y: (next_number(&mut state) % 900) as i32,
                left_pressed: next_number(&mut state) % 2 == 0,
                right_pressed: next_number(&mut state) % 2 == 0,
            };
            board.update(pointer, 100);
            assert_eq!(board.cells(), frozen.cells());
            assert_eq!(board.is_won(), frozen.is_won());
            assert_eq!(board.is_lost(), frozen.is_lost());
            assert_eq!(board.has_clicked(), frozen.has_clicked());
        }
        let expected = if board.is_lost() { Status::Lost } else { Status::Won };
        assert_eq!(board.status(), expected);
    }
}

#[test]
fn small_games_without_flags_are_always_won_or_lost() {
    let mut state = 7u64;
    let mut won = 0;
    let mut lost = 0;
    for _ in 0..200 {
        let mut board = Board::new(3, 3, 1);
        let mut frames = 0;
        while !board.is_won() && !board.is_lost() {
            let pointer = Pointer {
                x: (next_number(&mut state) % 30) as i32,
                y: (next_number(&mut state) % 30) as i32,
                left_pressed: true,
                right_pressed: false,
            };
            board.update(pointer, 10);
            check_play_invariant(&board);
            frames += 1;
            assert!(frames < 10000);
        }
        if board.is_won() {
            won += 1;
        } else {
            lost += 1;
        }
    }
    assert_eq!(won + lost, 200);
    assert!(won > 0);
}

#[test]
fn clone_gives_a_board_in_the_same_state() {
    let mut board = Board::new(4, 5, 3);
    board.toggle_flag(4, 3);
    board.update(Pointer { x: 15, y: 25, left_pressed: true, right_pressed: false }, 10);
    assert!(board.cell(4, 3).unwrap().is_flagged);
    let copy = board.clone();
    assert_eq!(copy.cells(), board.cells());
    assert_eq!(copy.rows(), 4);
    assert_eq!(copy.cols(), 5);
    assert_eq!(copy.mine_count(), 3);
    assert_eq!(copy.has_clicked(), board.has_clicked());
    assert_eq!(copy.is_won(), board.is_won());
    assert_eq!(copy.is_lost(), board.is_lost());
    board.toggle_flag(4, 3);
    assert_ne!(copy.cells(), board.cells());
}
