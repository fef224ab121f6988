use tiles2048::{Board, Direction, Move};

#[test]
fn new_board_is_empty() {
    let board = Board::new();
    assert_eq!(board.values(), [0u16; 16]);
    for i in 0..16 {
        assert_eq!(board.value(i), 0);
    }
}

#[test]
fn from_values_is_row_major() {
    let values: [u16; 16] = [2, 4, 8, 16, 32, 64, 128, 256, 512, 1024, 2048, 4096, 0, 0, 2, 4];
    let board = Board::from_values(values);
    assert_eq!(board.values(), values);
    assert_eq!(board.value(0), 2);
    assert_eq!(board.value(5), 64);
    assert_eq!(board.value(11), 4096);
    assert_eq!(board.value(13), 0);
}

#[test]
fn set_value_writes_one_cell() {
    let mut board = Board::new();
    board.set_value(6, 8);
    let mut expected = [0u16; 16];
    expected[6] = 8;
    assert_eq!(board.values(), expected);
}

#[test]
fn apply_carries_out_moves_in_order() {
    let mut values = [0u16; 16];
    values[0] = 2;
    values[1] = 2;
    values[2] = 4;
    let mut board = Board::from_values(values);
    let mut first = Move::new((1, 0));
    first.upgrade();
    let mut second = Move::new((2, 0));
    second.upgrade();
    board.apply(&vec![first, second]);
    let mut expected = [0u16; 16];
    expected[0] = 8;
    assert_eq!(board.values(), expected);
}

#[test]
fn apply_plain_move_carries_the_value() {
    let mut values = [0u16; 16];
    values[5] = 16;
    let mut board = Board::from_values(values);
    board.apply(&vec![Move::new((5, 13))]);
    let mut expected = [0u16; 16];
    expected[13] = 16;
    assert_eq!(board.values(), expected);
}

#[test]
fn apply_merge_doubles_the_source() {
    let mut values = [0u16; 16];
    values[3] = 64;
    values[15] = 64;
    let mut board = Board::from_values(values);
    let mut m = Move::new((3, 15));
    m.upgrade();
    board.apply(&vec![m]);
    let mut expected = [0u16; 16];
    expected[15] = 128;
    assert_eq!(board.values(), expected);
}

#[test]
fn apply_nothing_changes_nothing() {
    let values: [u16; 16] = [2, 4, 2, 4, 0, 0, 0, 0, 8, 8, 8, 8, 0, 2, 0, 2];
    let mut board = Board::from_values(values);
    board.apply(&Vec::new());
    assert_eq!(board.values(), values);
}

#[test]
fn board_with_an_empty_cell_and_a_tile_is_not_stuck() {
    let board = Board::from_values([8, 16, 8, 16, 16, 8, 16, 8, 8, 16, 8, 16, 16, 0, 16, 8]);
    assert!(!board.is_stuck());
    let mut lone = [0u16; 16];
    lone[9] = 2;
    assert!(!Board::from_values(lone).is_stuck());
}

#[test]
fn full_board_with_equal_neighbours_is_not_stuck() {
    let board = Board::from_values([2, 4, 2, 4, 4, 2, 4, 2, 2, 4, 2, 4, 8, 16, 32, 32]);
    assert!(!board.is_stuck());
    assert!(Move::get(&board, Direction::Up).is_empty());
    assert!(Move::get(&board, Direction::Down).is_empty());
    assert_eq!(Move::get(&board, Direction::Left).len(), 1);
    assert_eq!(Move::get(&board, Direction::Right).len(), 3);
}

#[test]
fn empty_board_has_no_tile_to_move() {
    assert!(Board::new().is_stuck());
}

#[test]
fn slide_fits_on_ordinary_boards() {
    let board = Board::from_values([2, 2, 4, 8, 0, 16, 16, 0, 4, 0, 4, 4, 2, 4, 8, 16]);
    for dir in [Direction::Up, Direction::Down, Direction::Left, Direction::Right] {
        assert!(board.slide_fits(dir));
    }
}

#[test]
fn slide_fits_up_to_the_largest_tile() {
    let mut values = [0u16; 16];
    values[0] = 16384;
    values[1] = 16384;
    values[2] = 32768;
    let mut board = Board::from_values(values);
    // 16384 + 16384 fits, and the 32768 that comes of it is not merged into.
    assert!(board.slide_fits(Direction::Left));
    assert!(board.slide_fits(Direction::Right));
    let moves = Move::get(&board, Direction::Right);
    board.apply(&moves);
    assert_eq!(&board.values()[..4], &[0, 0, 32768, 32768]);
    // Two tiles of 32768 would make a tile that no cell can hold.
    assert!(!board.slide_fits(Direction::Left));
    assert!(!board.slide_fits(Direction::Right));
    assert!(board.slide_fits(Direction::Up));
    assert!(board.slide_fits(Direction::Down));
}

#[test]
fn can_apply_tells_whether_moves_fit() {
    let mut values = [0u16; 16];
    values[0] = 32768;
    values[1] = 32768;
    values[4] = 16384;
    values[5] = 16384;
    let board = Board::from_values(values);
    let mut too_large = Move::new((1, 0));
    too_large.upgrade();
    let mut largest = Move::new((5, 4));
    largest.upgrade();
    assert!(board.can_apply(&Vec::new()));
    assert!(board.can_apply(&vec![Move::new((1, 2)), largest]));
    assert!(!board.can_apply(&vec![too_large]));
    assert!(!board.can_apply(&vec![largest, too_large]));
    // After the first merge cell 4 holds 32768, which cannot be doubled.
    let mut again = Move::new((4, 5));
    again.upgrade();
    assert!(!board.can_apply(&vec![largest, again]));
    assert!(board.can_apply(&vec![largest, Move::new((4, 5))]));
    assert!(!board.can_apply(&vec![Move::new((16, 0))]));
    assert!(!board.can_apply(&vec![Move::new((0, 16))]));
    assert!(board.can_apply(&vec![Move::new((15, 15))]));
    assert_eq!(board.values(), values);
}

#[test]
fn planned_moves_can_be_applied_where_the_slide_fits() {
    let board = Board::from_values([2, 2, 4, 8, 0, 16, 16, 0, 4, 0, 4, 4, 2, 4, 8, 16]);
    for dir in [Direction::Up, Direction::Down, Direction::Left, Direction::Right] {
        assert!(board.slide_fits(dir));
        assert!(board.can_apply(&Move::get(&board, dir)));
    }
    let heavy = Board::from_values([32768, 32768, 0, 0, 0, 0, 0, 0, 0, 0, 0, 0, 0, 0, 0, 0]);
    assert!(!heavy.slide_fits(Direction::Left));
    assert!(!heavy.can_apply(&Move::get(&heavy, Direction::Left)));
    assert!(heavy.slide_fits(Direction::Down));
    assert!(heavy.can_apply(&Move::get(&heavy, Direction::Down)));
}

#[test]
fn moves_are_ordered_by_their_start_first() {
    let mut merge = Move::new((3, 0));
    merge.upgrade();
    assert!(Move::new((1, 0)) < Move::new((2, 0)));
    assert!(Move::new((2, 3)) > Move::new((1, 0)));
    assert!(Move::new((2, 0)) < merge);
    assert_eq!(Move::new((2, 1)), Move::new((2, 1)));
    let mut moves = vec![merge, Move::new((2, 1)), Move::new((1, 0))];
    moves.sort();
    assert_eq!(moves, vec![Move::new((1, 0)), Move::new((2, 1)), merge]);
}

#[test]
fn boards_of_tile_values_are_valid() {
    assert!(Board::new().is_valid());
    assert!(Board::from_values([2, 4, 8, 16, 32, 64, 128, 256, 512, 1024, 2048, 4096, 8192, 16384, 32768, 0]).is_valid());
    for bad in [1u16, 3, 5, 6, 7, 12, 100, 1000, 32767, 32769, 65535] {
        let mut values = [2u16; 16];
        values[7] = bad;
        assert!(!Board::from_values(values).is_valid());
    }
}

#[test]
fn slides_and_spawns_keep_a_board_valid() {
    let mut board = Board::from_values([2, 2, 4, 8, 0, 16, 16, 0, 4, 0, 4, 4, 2, 4, 8, 16]);
    assert!(board.is_valid());
    for (turn, dir) in [Direction::Left, Direction::Up, Direction::Right, Direction::Down]
        .into_iter()
        .enumerate()
    {
        let moves = Move::get(&board, dir);
        board.apply(&moves);
        assert!(board.is_valid());
        if board.spawn(turn as i32 * 7, turn as i32).is_ok() {
            assert!(board.is_valid());
        }
    }
}
