use minesweeper::{Board, Cell};

fn board_with_mines(rows: usize, cols: usize, mines: &[(usize, usize)]) -> Board {
    let mut board = Board::new(rows, cols, mines.len());
    for &(col, row) in mines {
        let index = row * cols + col;
        let before = board.cells()[..index].iter().filter(|c| !c.is_mine).count();
        assert_eq!(board.place_mine(before, -1, -1), index);
    }
    board
}

fn revealed_of(board: &Board) -> Vec<(usize, usize, u8)> {
    board
        .cells()
        .iter()
        .filter(|c| c.is_revealed)
        .map(|c| (c.col, c.row, c.nearby_mines))
        .collect()
}

fn reference_fill(cells: &[Cell], rows: usize, cols: usize, col: usize, row: usize) -> Vec<bool> {
    let count = |c: usize, r: usize| -> usize {
        let mut n = 0;
        for dr in -1i64..=1 {
            for dc in -1i64..=1 {
                let (nc, nr) = (c as i64 + dc, r as i64 + dr);
                if (dc != 0 || dr != 0) && nc >= 0 && nr >= 0 && (nc as usize) < cols && (nr as usize) < rows {
                    if cells[nr as usize * cols + nc as usize].is_mine {
                        n += 1;
                    }
                }
            }
        }
        n
    };
    let mut seen = vec![false; cells.len()];
    let mut queue = std::collections::VecDeque::new();
    queue.push_back((col, row));
    while let Some((c, r)) = queue.pop_front() {
        let cell = cells[r * cols + c];
        if seen[r * cols + c] || cell.is_revealed || cell.is_flagged || cell.is_mine {
            continue;
        }
        seen[r * cols + c] = true;
        if count(c, r) == 0 {
            for dr in -1i64..=1 {
                for dc in -1i64..=1 {
                    let (nc, nr) = (c as i64 + dc, r as i64 + dr);
                    if nc >= 0 && nr >= 0 && (nc as usize) < cols && (nr as usize) < rows {
                        queue.push_back((nc as usize, nr as usize));
                    }
                }
            }
        }
    }
    seen
}

#[test]
fn reveal_stops_at_the_numbered_ring() {
    let mut board = board_with_mines(1, 5, &[(2, 0)]);
    board.reveal_cell(0, 0);
    assert_eq!(revealed_of(&board), vec![(0, 0, 0), (1, 0, 1)]);
}

#[test]
fn reveal_of_a_numbered_cell_uncovers_only_that_cell() {
    let mut board = board_with_mines(2, 2, &[(1, 1)]);
    board.reveal_cell(0, 0);
    assert_eq!(revealed_of(&board), vec![(0, 0, 1)]);
}

#[test]
fn reveal_floods_the_whole_zero_region() {
    let mut board = board_with_mines(4, 4, &[(3, 3)]);
    board.reveal_cell(0, 0);
    let mut expected = Vec::new();
    for row in 0..4usize {
        for col in 0..4usize {
            if (col, row) != (3, 3) {
                let near = col >= 2 && row >= 2;
                expected.push((col, row, if near { 1 } else { 0 }));
            }
        }
    }
    assert_eq!(revealed_of(&board), expected);
    assert!(!board.cell(3, 3).unwrap().is_revealed);
}

#[test]
fn reveal_does_not_cross_a_wall_of_mines() {
    let mut board = board_with_mines(5, 5, &[(2, 0), (2, 1), (2, 2), (2, 3), (2, 4)]);
    board.reveal_cell(0, 2);
    assert_eq!(
        revealed_of(&board),
        vec![
            (0, 0, 0),
            (1, 0, 2),
            (0, 1, 0),
            (1, 1, 3),
            (0, 2, 0),
            (1, 2, 3),
            (0, 3, 0),
            (1, 3, 3),
            (0, 4, 0),
            (1, 4, 2),
        ]
    );
}

#[test]
fn reveal_counts_all_eight_neighbours() {
    let mut board = Board::new(3, 3, 8);
    board.place_mines(1, 1);
    board.reveal_cell(1, 1);
    assert_eq!(revealed_of(&board), vec![(1, 1, 8)]);
}

#[test]
fn reveal_counts_diagonal_neighbours() {
    let mut board = board_with_mines(3, 3, &[(0, 0), (2, 2)]);
    board.reveal_cell(1, 1);
    assert_eq!(revealed_of(&board), vec![(1, 1, 2)]);
}

#[test]
fn reveal_clips_the_neighbourhood_to_the_grid() {
    let mut board = board_with_mines(2, 3, &[(1, 0), (1, 1)]);
    board.reveal_cell(0, 0);
    assert_eq!(revealed_of(&board), vec![(0, 0, 2)]);
    board.reveal_cell(2, 1);
    assert_eq!(revealed_of(&board), vec![(0, 0, 2), (2, 1, 2)]);
}

#[test]
fn reveal_is_stopped_by_a_flag() {
    let mut board = board_with_mines(1, 5, &[(4, 0)]);
    board.toggle_flag(1, 0);
    board.reveal_cell(0, 0);
    assert_eq!(revealed_of(&board), vec![(0, 0, 0)]);
    assert!(board.cell(1, 0).unwrap().is_flagged);
}

#[test]
fn reveal_passes_around_a_flag() {
    let mut board = board_with_mines(3, 3, &[]);
    board.toggle_flag(1, 1);
    board.reveal_cell(0, 0);
    assert_eq!(revealed_of(&board).len(), 8);
    let centre = board.cell(1, 1).unwrap();
    assert!(centre.is_flagged);
    assert!(!centre.is_revealed);
}

#[test]
fn reveal_off_the_grid_does_nothing() {
    let mut board = board_with_mines(3, 3, &[(1, 1)]);
    let before = board.cells().clone();
    board.reveal_cell(-1, 0);
    board.reveal_cell(0, -1);
    board.reveal_cell(3, 0);
    board.reveal_cell(0, 3);
    board.reveal_cell(i32::MIN, i32::MAX);
    assert_eq!(*board.cells(), before);
}

#[test]
fn reveal_of_a_mine_does_nothing() {
    let mut board = board_with_mines(3, 3, &[(1, 1)]);
    let before = board.cells().clone();
    board.reveal_cell(1, 1);
    assert_eq!(*board.cells(), before);
    assert!(!board.is_lost());
}

#[test]
fn reveal_of_a_flagged_cell_does_nothing() {
    let mut board = board_with_mines(3, 3, &[(1, 1)]);
    board.toggle_flag(0, 0);
    let before = board.cells().clone();
    board.reveal_cell(0, 0);
    assert_eq!(*board.cells(), before);
}

#[test]
fn reveal_of_an_uncovered_cell_does_nothing() {
    let mut board = board_with_mines(1, 5, &[(2, 0)]);
    board.reveal_cell(1, 0);
    let before = board.cells().clone();
    board.reveal_cell(1, 0);
    assert_eq!(*board.cells(), before);
}

#[test]
fn reveal_twice_is_reveal_once() {
    let mut once = board_with_mines(4, 4, &[(3, 3), (0, 3)]);
    once.reveal_cell(0, 0);
    let mut twice = once.clone();
    twice.reveal_cell(0, 0);
    assert_eq!(twice.cells(), once.cells());
    assert_eq!(twice.has_clicked(), once.has_clicked());
    assert_eq!(twice.is_won(), once.is_won());
    assert_eq!(twice.is_lost(), once.is_lost());
}

#[test]
fn reveal_leaves_the_game_state_alone() {
    let mut board = board_with_mines(4, 4, &[(3, 3)]);
    board.reveal_cell(0, 0);
    assert!(board.has_clicked());
    assert!(!board.is_won());
    assert!(!board.is_lost());
    assert_eq!(board.mine_count(), 1);
}

#[test]
fn reveal_before_the_mines_are_laid_uncovers_everything() {
    let mut board = Board::new(3, 4, 2);
    board.reveal_cell(2, 1);
    assert_eq!(revealed_of(&board).len(), 12);
    assert!(!board.has_clicked());
}

#[test]
fn reveal_never_uncovers_a_mine_on_random_boards() {
    for round in 0..100 {
        let mut board = Board::new(9, 10, 10);
        let (col, row) = (round % 10, round % 9);
        board.place_mines(col, row);
        board.reveal_cell(col, row);
        for cell in board.cells().iter() {
            assert!(!(cell.is_mine && cell.is_revealed));
        }
        assert!(board.cell(col, row).unwrap().is_revealed);
    }
}

#[test]
fn reveal_agrees_with_a_breadth_first_fill_on_random_boards() {
    for round in 0..100 {
        let mut board = Board::new(9, 10, 10);
        let (col, row) = ((round * 7) % 10, (round * 5) % 9);
        board.place_mines(col, row);
        board.toggle_flag((col + 1) % 10, row);
        let before = board.cells().clone();
        board.reveal_cell(col, row);
        let expected = reference_fill(&before, 9, 10, col as usize, row as usize);
        for (i, cell) in board.cells().iter().enumerate() {
            assert_eq!(cell.is_revealed, expected[i]);
            assert_eq!(cell.is_mine, before[i].is_mine);
            assert_eq!(cell.is_flagged, before[i].is_flagged);
        }
    }
}
