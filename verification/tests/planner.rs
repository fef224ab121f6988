use tiles2048::{Board, Direction, Move, Simulation, simulate};

fn board_with_top_row(row: [u16; 4]) -> Board {
    let mut values = [0u16; 16];
    values[..4].copy_from_slice(&row);
    Board::from_values(values)
}

fn described(moves: &[Move]) -> Vec<(usize, usize, bool)> {
    moves.iter().map(|m| (m.start(), m.end(), m.is_merge())).collect()
}

fn slid(values: [u16; 16], dir: Direction) -> [u16; 16] {
    let mut board = Board::from_values(values);
    let moves = Move::get(&board, dir);
    board.apply(&moves);
    board.values()
}

#[test]
fn two_equal_tiles_merge_at_the_left_edge() {
    let mut board = board_with_top_row([2, 2, 0, 0]);
    let moves = Move::get(&board, Direction::Left);
    assert_eq!(described(&moves), vec![(1, 0, true)]);
    board.apply(&moves);
    let mut expected = [0u16; 16];
    expected[0] = 4;
    assert_eq!(board.values(), expected);
}

#[test]
fn merge_then_slide_behind_it() {
    let mut board = board_with_top_row([2, 0, 2, 4]);
    let moves = Move::get(&board, Direction::Left);
    assert_eq!(described(&moves), vec![(2, 0, true), (3, 1, false)]);
    board.apply(&moves);
    assert_eq!(&board.values()[..4], &[4, 4, 0, 0]);
    assert_eq!(&board.values()[4..], &[0u16; 12]);
}

#[test]
fn lone_tile_crosses_the_row() {
    let board = board_with_top_row([2, 0, 0, 0]);
    let moves = Move::get(&board, Direction::Right);
    assert_eq!(described(&moves), vec![(0, 3, false)]);
}

#[test]
fn full_board_without_equal_neighbours_plans_nothing() {
    let board = Board::from_values([8, 16, 8, 16, 16, 8, 16, 8, 8, 16, 8, 16, 16, 8, 16, 8]);
    assert!(Move::get(&board, Direction::Up).is_empty());
    assert!(Move::get(&board, Direction::Down).is_empty());
    assert!(Move::get(&board, Direction::Left).is_empty());
    assert!(Move::get(&board, Direction::Right).is_empty());
    assert!(board.is_stuck());
}

#[test]
fn planning_leaves_the_board_alone() {
    let values = [2, 2, 0, 0, 0, 4, 0, 4, 0, 0, 0, 0, 8, 0, 0, 8];
    let board = Board::from_values(values);
    let first = Move::get(&board, Direction::Left);
    assert_eq!(board.values(), values);
    let second = Move::get(&board, Direction::Left);
    assert_eq!(first, second);
    assert_eq!(first.len(), 4);
}

#[test]
fn empty_plan_changes_nothing_and_stays_empty() {
    let values = [2, 4, 0, 0, 8, 0, 0, 0, 2, 4, 8, 0, 0, 0, 0, 0];
    let mut board = Board::from_values(values);
    let moves = Move::get(&board, Direction::Left);
    assert!(moves.is_empty());
    board.apply(&moves);
    assert_eq!(board.values(), values);
    assert!(Move::get(&board, Direction::Left).is_empty());
}

#[test]
fn slide_keeps_the_sum_of_the_tiles() {
    let values: [u16; 16] = [2, 2, 4, 8, 0, 16, 16, 0, 4, 0, 4, 4, 2, 4, 8, 16];
    let before: u32 = values.iter().map(|v| u32::from(*v)).sum();
    for dir in [Direction::Up, Direction::Down, Direction::Left, Direction::Right] {
        let after: u32 = slid(values, dir).iter().map(|v| u32::from(*v)).sum();
        assert_eq!(after, before);
    }
}

#[test]
fn moves_stay_in_their_row_or_column() {
    let values: [u16; 16] = [0, 2, 0, 2, 4, 0, 0, 0, 0, 0, 8, 8, 2, 0, 0, 4];
    let board = Board::from_values(values);
    for dir in [Direction::Left, Direction::Right] {
        let moves = Move::get(&board, dir);
        assert!(!moves.is_empty());
        for m in &moves {
            assert_eq!(m.start() / 4, m.end() / 4);
            assert_ne!(m.start(), m.end());
        }
    }
    for dir in [Direction::Up, Direction::Down] {
        let moves = Move::get(&board, dir);
        assert!(!moves.is_empty());
        for m in &moves {
            assert_eq!(m.start() % 4, m.end() % 4);
            assert!(m.end() < 16);
            assert_ne!(m.start(), m.end());
        }
    }
}

#[test]
fn left_slide_does_not_wrap_into_the_row_above() {
    let mut values = [0u16; 16];
    values[4] = 2;
    let board = Board::from_values(values);
    assert!(Move::get(&board, Direction::Left).is_empty());
    assert_eq!(described(&Move::get(&board, Direction::Right)), vec![(4, 7, false)]);
    assert_eq!(described(&Move::get(&board, Direction::Up)), vec![(4, 0, false)]);
    assert_eq!(described(&Move::get(&board, Direction::Down)), vec![(4, 12, false)]);
}

#[test]
fn a_cell_can_be_entered_twice_in_one_slide() {
    // The second tile finds the first one where it has just arrived.
    let board = board_with_top_row([0, 2, 2, 0]);
    let moves = Move::get(&board, Direction::Left);
    assert_eq!(described(&moves), vec![(1, 0, false), (2, 0, true)]);
}

#[test]
fn a_tile_that_came_out_of_a_merge_is_not_merged_into() {
    let mut board = board_with_top_row([2, 2, 4, 8]);
    let moves = Move::get(&board, Direction::Left);
    assert_eq!(described(&moves), vec![(1, 0, true), (2, 1, false), (3, 2, false)]);
    board.apply(&moves);
    assert_eq!(&board.values()[..4], &[4, 4, 8, 0]);
}

#[test]
fn four_equal_tiles_make_two_pairs() {
    let mut board = board_with_top_row([2, 2, 2, 2]);
    let moves = Move::get(&board, Direction::Left);
    assert_eq!(described(&moves), vec![(1, 0, true), (2, 1, false), (3, 1, true)]);
    board.apply(&moves);
    assert_eq!(&board.values()[..4], &[4, 4, 0, 0]);
}

#[test]
fn no_cell_is_left_twice_or_merged_into_twice() {
    let values: [u16; 16] = [2, 2, 4, 8, 0, 2, 2, 0, 4, 0, 4, 8, 2, 4, 2, 4];
    let board = Board::from_values(values);
    for dir in [Direction::Up, Direction::Down, Direction::Left, Direction::Right] {
        let moves = described(&Move::get(&board, dir));
        for b in 0..moves.len() {
            for a in 0..b {
                assert_ne!(moves[a].0, moves[b].0);
                if moves[a].1 == moves[b].1 {
                    assert!(!moves[a].2);
                    assert!(moves[b].2);
                }
            }
        }
    }
}

#[test]
fn a_tile_stops_behind_a_tile_that_came_out_of_a_merge() {
    // The 4 at the right end meets the 4 that the two 2s have just made. It
    // stops behind it, and does not go past it to the 4 at the left end.
    let mut board = board_with_top_row([4, 2, 2, 4]);
    let moves = Move::get(&board, Direction::Left);
    assert_eq!(described(&moves), vec![(2, 1, true), (3, 2, false)]);
    board.apply(&moves);
    assert_eq!(&board.values()[..4], &[4, 4, 4, 0]);
}

#[test]
fn a_tile_merges_with_the_first_equal_tile_it_meets() {
    let mut board = board_with_top_row([2, 2, 4, 4]);
    let moves = Move::get(&board, Direction::Left);
    assert_eq!(described(&moves), vec![(1, 0, true), (2, 1, false), (3, 1, true)]);
    board.apply(&moves);
    assert_eq!(&board.values()[..4], &[4, 8, 0, 0]);
}

#[test]
fn a_tile_stops_behind_a_different_tile() {
    let mut board = board_with_top_row([4, 0, 0, 2]);
    let moves = Move::get(&board, Direction::Left);
    assert_eq!(described(&moves), vec![(3, 1, false)]);
    board.apply(&moves);
    assert_eq!(&board.values()[..4], &[4, 2, 0, 0]);
}

#[test]
fn column_slides_up_and_down() {
    let mut values = [0u16; 16];
    values[0] = 2;
    values[8] = 2;
    let board = Board::from_values(values);
    assert_eq!(described(&Move::get(&board, Direction::Up)), vec![(8, 0, true)]);
    assert_eq!(
        described(&Move::get(&board, Direction::Down)),
        vec![(8, 12, false), (0, 12, true)]
    );
    let mut expected = [0u16; 16];
    expected[12] = 4;
    assert_eq!(slid(values, Direction::Down), expected);
    expected[12] = 0;
    expected[0] = 4;
    assert_eq!(slid(values, Direction::Up), expected);
}

#[test]
fn right_slide_takes_the_rightmost_tile_first() {
    let mut board = board_with_top_row([2, 2, 2, 0]);
    let moves = Move::get(&board, Direction::Right);
    assert_eq!(described(&moves), vec![(2, 3, false), (1, 3, true), (0, 2, false)]);
    board.apply(&moves);
    assert_eq!(&board.values()[..4], &[0, 0, 2, 4]);
}

#[test]
fn whole_board_slides_left() {
    let values: [u16; 16] = [2, 0, 2, 4, 4, 4, 4, 4, 0, 0, 0, 2, 8, 4, 2, 2];
    assert_eq!(
        slid(values, Direction::Left),
        [4, 4, 0, 0, 8, 8, 0, 0, 2, 0, 0, 0, 8, 4, 4, 0]
    );
}

#[test]
fn empty_board_plans_nothing() {
    let board = Board::new();
    for dir in [Direction::Up, Direction::Down, Direction::Left, Direction::Right] {
        assert!(Move::get(&board, dir).is_empty());
    }
}

#[test]
fn probes_follow_the_working_copy() {
    let board = board_with_top_row([2, 0, 2, 4]);
    let copy = Simulation::of(&board);
    assert_eq!(Move::move_left(&copy, 0), None);
    let found = Move::move_left(&copy, 2).unwrap();
    assert_eq!((found.start(), found.end(), found.is_merge()), (2, 0, true));
    // Before the merge is carried out the 4 has nowhere to go.
    assert_eq!(Move::move_left(&copy, 3), None);
    let copy = simulate(copy, found);
    assert_eq!(copy.value(0), 4);
    assert_eq!(copy.value(2), 0);
    assert!(copy.is_merged(0));
    assert!(!copy.is_merged(2));
    // The 4 at the left end came out of a merge: the other 4 stops behind it.
    let next = Move::move_left(&copy, 3).unwrap();
    assert_eq!((next.start(), next.end(), next.is_merge()), (3, 1, false));
    // The 4 at the right end did not: it can be merged into.
    let back = Move::move_right(&copy, 0).unwrap();
    assert_eq!((back.start(), back.end(), back.is_merge()), (0, 3, true));
    assert_eq!(Move::move_down(&copy, 0), Some(Move::new((0, 12))));
    assert_eq!(Move::move_up(&copy, 0), None);
}

#[test]
fn validate_keeps_upgrades_or_drops_a_move() {
    let board = board_with_top_row([2, 0, 2, 4]);
    let copy = Simulation::of(&board);
    let mut plain = Move::new((0, 1));
    assert_eq!(plain.validate(&copy), Some(Move::new((0, 1))));
    assert!(!plain.is_merge());
    let mut merging = Move::new((2, 0));
    let validated = merging.validate(&copy).unwrap();
    assert!(validated.is_merge());
    assert!(merging.is_merge());
    assert_eq!((validated.start(), validated.end()), (2, 0));
    let mut stopped = Move::new((2, 3));
    assert_eq!(stopped.validate(&copy), None);
    assert!(!stopped.is_merge());
}

#[test]
fn upgrade_marks_a_merge() {
    let mut m = Move::new((5, 4));
    assert!(!m.is_merge());
    let upgraded = m.upgrade();
    assert!(m.is_merge());
    assert_eq!(upgraded, m);
    assert_eq!((upgraded.start(), upgraded.end()), (5, 4));
}

#[test]
fn simulation_can_hold_a_merge_of_the_largest_tiles() {
    let board = board_with_top_row([32768, 32768, 0, 0]);
    let moves = Move::get(&board, Direction::Left);
    assert_eq!(described(&moves), vec![(1, 0, true)]);
    let copy = simulate(Simulation::of(&board), moves[0]);
    assert_eq!(copy.value(0), 65536);
    assert!(!board.slide_fits(Direction::Left));
    assert!(!board.slide_fits(Direction::Right));
    assert!(board.slide_fits(Direction::Up));
    assert!(board.slide_fits(Direction::Down));
}
