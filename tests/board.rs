use fifteen::{Board, Coordinates, Error};

fn solved_list() -> Vec<u8> {
    vec![1, 2, 3, 4, 5, 6, 7, 8, 9, 10, 11, 12, 13, 14, 15, 0]
}

fn grid_of(board: &Board) -> Vec<u8> {
    let n = board.size() as usize;
    let mut cells = Vec::new();
    for row in 0..n {
        for col in 0..n {
            cells.push(board.tile_at(row, col));
        }
    }
    cells
}

#[test]
fn test_from_list() {
    let board = Board::from_list(4, vec![1, 2, 3, 4, 5, 6, 7, 8, 9, 10, 11, 12, 13, 14, 15, 0]).unwrap();

    assert_eq!(board.tile_at(0, 0), 1);
    assert_eq!(board.tile_at(0, 1), 2);
    assert_eq!(board.tile_at(0, 2), 3);
    assert_eq!(board.tile_at(0, 3), 4);

    assert_eq!(board.tile_at(1, 0), 5);
    assert_eq!(board.tile_at(1, 1), 6);
    assert_eq!(board.tile_at(1, 2), 7);
    assert_eq!(board.tile_at(1, 3), 8);

    assert_eq!(board.tile_at(2, 0), 9);
    assert_eq!(board.tile_at(2, 1), 10);
    assert_eq!(board.tile_at(2, 2), 11);
    assert_eq!(board.tile_at(2, 3), 12);

    assert_eq!(board.tile_at(3, 0), 13);
    assert_eq!(board.tile_at(3, 1), 14);
    assert_eq!(board.tile_at(3, 2), 15);
    assert_eq!(board.tile_at(3, 3), 0);
}

#[test]
fn test_is_complete() {
    let complete_board = Board::from_list(4, vec![1, 2, 3, 4, 5, 6, 7, 8, 9, 10, 11, 12, 13, 14, 15, 0]).unwrap();
    let incomplete_board = Board::from_list(4, vec![2, 1, 3, 4, 5, 6, 7, 8, 9, 10, 11, 12, 13, 14, 15, 0]).unwrap();

    assert!(complete_board.is_complete());
    assert!(!incomplete_board.is_complete());
}

#[test]
fn test_get_coordinates() {
    let board = Board::new(4);
    assert_eq!(board.get_coordinates(15), Some(Coordinates { row: 0, col: 0 }));
    assert_eq!(board.get_coordinates(9), Some(Coordinates { row: 1, col: 2 }));
}

#[test]
fn test_swap() {
    let mut board = Board::new(4);

    let a = Coordinates { row: 3, col: 2 };
    let b = Coordinates { row: 3, col: 3 };
    board.swap(a, b);

    assert_eq!(board.tile_at(3, 2), 0);
    assert_eq!(board.tile_at(3, 3), 1);
}

#[test]
fn new_board_holds_each_value_once() {
    for size in 2u8..=16 {
        let board = Board::new(size);
        let area = size as usize * size as usize;
        let mut count = vec![0usize; area];
        for v in grid_of(&board) {
            count[v as usize] += 1;
        }
        assert!(count.iter().all(|c| *c == 1), "size {}", size);
    }
}

#[test]
fn new_board_layout_descends() {
    let board = Board::new(3);
    assert_eq!(grid_of(&board), vec![8, 7, 6, 5, 4, 3, 2, 1, 0]);
    assert_eq!(board.size(), 3);
}

#[test]
fn new_board_corners() {
    for size in 2u8..=16 {
        let board = Board::new(size);
        let last = size as usize - 1;
        let top = (size as usize * size as usize - 1) as u8;
        assert_eq!(board.get_coordinates(top), Some(Coordinates::new(0, 0)));
        assert_eq!(board.get_coordinates(0), Some(Coordinates::new(last, last)));
    }
}

#[test]
fn moving_the_blank_fails() {
    let mut board = Board::new(4);
    let before = board.clone();
    let e = board.move_tile(0).unwrap_err();
    assert_eq!(e.to_string(), "can't move empty tile");
    assert_eq!(board, before);

    let mut solved = Board::from_list(4, solved_list()).unwrap();
    let e = solved.move_tile(0).unwrap_err();
    assert_eq!(e.message(), "can't move empty tile");
}

#[test]
fn moving_a_missing_tile_fails() {
    let mut board = Board::new(3);
    let before = board.clone();
    for tile in [9u8, 10, 200, 255] {
        let e = board.move_tile(tile).unwrap_err();
        assert_eq!(e.to_string(), "tile doesn't exist on board");
        assert_eq!(board, before);
    }
}

#[test]
fn legal_moves_exchange_tile_and_blank() {
    // the blank starts at (3, 3); 1 is to its left, 4 above it
    let mut board = Board::new(4);
    let before = grid_of(&board);
    assert_eq!(board.move_tile(1), Ok(()));
    assert_eq!(board.get_coordinates(1), Some(Coordinates::new(3, 3)));
    assert_eq!(board.get_coordinates(0), Some(Coordinates::new(3, 2)));
    let after = grid_of(&board);
    for k in 0..16 {
        if k != 14 && k != 15 {
            assert_eq!(after[k], before[k]);
        }
    }

    assert_eq!(board.move_tile(5), Ok(()));
    assert_eq!(board.get_coordinates(5), Some(Coordinates::new(3, 2)));
    assert_eq!(board.get_coordinates(0), Some(Coordinates::new(2, 2)));
}

#[test]
fn illegal_moves_fail_and_keep_the_board() {
    let mut board = Board::new(4);
    let before = board.clone();
    // 15 is far away, 5 is diagonal to the blank, 3 is two cells to its left
    for tile in [15u8, 5, 3, 8] {
        let e = board.move_tile(tile).unwrap_err();
        assert_eq!(e.to_string(), "invalid move");
        assert_eq!(board, before);
    }
}

#[test]
fn a_move_and_its_reverse_restore_the_board() {
    let mut board = Board::new(4);
    let start = board.clone();
    assert_eq!(board.move_tile(4), Ok(()));
    assert_ne!(board, start);
    assert_eq!(board.move_tile(4), Ok(()));
    assert_eq!(board, start);
}

#[test]
fn solved_list_is_complete_and_adjacent_swaps_are_not() {
    let board = Board::from_list(4, solved_list()).unwrap();
    assert!(board.is_complete());
    for k in 0..15 {
        let mut list = solved_list();
        list.swap(k, k + 1);
        let board = Board::from_list(4, list).unwrap();
        assert!(!board.is_complete(), "swap at {}", k);
    }
}

#[test]
fn new_board_is_not_complete() {
    assert!(!Board::new(4).is_complete());
    assert!(Board::new(1).is_complete());
}

#[test]
fn short_list_is_refused() {
    let e = Board::from_list(4, vec![1, 2, 3]).unwrap_err();
    assert_eq!(e.to_string(), "not enough elements in list; expected 16, got 3");
    let e = Board::from_list(11, vec![]).unwrap_err();
    assert_eq!(e.message(), "not enough elements in list; expected 121, got 0");
}

#[test]
fn list_that_is_no_permutation_is_refused() {
    let e = Board::from_list(2, vec![1, 1, 2, 0]).unwrap_err();
    assert_eq!(e.to_string(), "list does not hold each tile value exactly once");
    let e = Board::from_list(2, vec![1, 4, 2, 0]).unwrap_err();
    assert_eq!(e.to_string(), "list does not hold each tile value exactly once");
    assert!(Board::from_list(17, vec![0; 300]).is_err());
}

#[test]
fn longer_list_uses_its_first_values() {
    let board = Board::from_list(2, vec![1, 2, 3, 0, 9, 9]).unwrap();
    assert_eq!(grid_of(&board), vec![1, 2, 3, 0]);
    assert!(board.is_complete());
}

#[test]
fn render_right_justifies_and_blanks_zero() {
    assert_eq!(Board::new(2).render(), " 3 2\n 1  \n");
    assert_eq!(
        Board::new(4).render(),
        " 15 14 13 12\n 11 10  9  8\n  7  6  5  4\n  3  2  1   \n"
    );
}

#[test]
fn error_converts_to_its_message() {
    let e = Error::new("some message".to_string());
    assert_eq!(e.message(), "some message");
    assert_eq!(String::from(e.clone()), "some message");
    assert_eq!(e.to_string(), "some message");
}
