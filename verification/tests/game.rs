use tiles2048::{Board, Buttons, Direction, EmptyBoardError, Game, Turn};

fn pressed(up: bool, down: bool, left: bool, right: bool, b: bool) -> Buttons {
    Buttons { up, down, left, right, b }
}

#[test]
fn new_game_has_an_empty_board() {
    let game = Game::new();
    assert_eq!(game.board, Board::new());
    assert!(game.spawn);
}

#[test]
fn init_with_board_takes_the_values() {
    let values: [u16; 16] = [8, 16, 8, 16, 16, 8, 16, 8, 8, 16, 8, 16, 16, 0, 16, 8];
    let game = Game::init_with_board(values);
    assert_eq!(game.board.values(), values);
    assert!(!game.spawn);
}

#[test]
fn init_places_two_tiles() {
    let game = Game::init((5, 1), (5, 0));
    let mut expected = [0u16; 16];
    expected[5] = 2;
    // Cell 5 is taken, so the sixth of the empty cells is cell 6.
    expected[6] = 4;
    assert_eq!(game.board.values(), expected);
    assert!(game.spawn);
}

#[test]
fn init_with_equal_draws_places_two_different_tiles() {
    let game = Game::init((0, 0), (0, 0));
    let mut expected = [0u16; 16];
    expected[0] = 4;
    expected[1] = 4;
    assert_eq!(game.board.values(), expected);
}

#[test]
fn spawn_tile_reports_the_cell() {
    let mut values = [2u16; 16];
    values[2] = 0;
    values[14] = 0;
    let mut game = Game::init_with_board(values);
    assert_eq!(game.spawn_tile(1, 3), Ok(14));
    assert_eq!(game.board.value(14), 2);
    assert_eq!(game.spawn_tile(1, 0), Ok(2));
    assert_eq!(game.board.value(2), 4);
    assert_eq!(game.spawn_tile(0, 0), Err(EmptyBoardError));
    assert!(!game.spawn);
}

#[test]
fn shift_tiles_carries_out_the_plan() {
    let mut game = Game::init_with_board([2, 0, 2, 4, 0, 0, 0, 0, 0, 0, 0, 0, 0, 0, 0, 0]);
    let moves = game.shift_tiles(Direction::Left);
    assert_eq!(moves.len(), 2);
    assert_eq!((moves[0].start(), moves[0].end(), moves[0].is_merge()), (2, 0, true));
    assert_eq!((moves[1].start(), moves[1].end(), moves[1].is_merge()), (3, 1, false));
    assert_eq!(game.board.values(), [4, 4, 0, 0, 0, 0, 0, 0, 0, 0, 0, 0, 0, 0, 0, 0]);
}

#[test]
fn shift_tiles_without_a_move_changes_nothing() {
    let values: [u16; 16] = [4, 2, 0, 0, 0, 0, 0, 0, 0, 0, 0, 0, 0, 0, 0, 0];
    let mut game = Game::init_with_board(values);
    assert!(game.shift_tiles(Direction::Left).is_empty());
    assert!(game.shift_tiles(Direction::Up).is_empty());
    assert_eq!(game.board.values(), values);
}

#[test]
fn shift_slides_and_places_a_tile() {
    let mut game = Game::init_with_board([2, 2, 0, 0, 0, 0, 0, 0, 0, 0, 0, 0, 0, 0, 0, 0]);
    let (moves, placed) = game.shift(Direction::Left, 17, 4);
    assert_eq!(moves.len(), 1);
    // Fifteen cells are empty after the slide: 1 to 15. Draw 17 picks the third.
    assert_eq!(placed, Some(3));
    assert_eq!(game.board.values(), [4, 0, 0, 4, 0, 0, 0, 0, 0, 0, 0, 0, 0, 0, 0, 0]);
}

#[test]
fn shift_without_a_move_places_no_tile() {
    let values: [u16; 16] = [4, 2, 0, 0, 0, 0, 0, 0, 0, 0, 0, 0, 0, 0, 0, 0];
    let mut game = Game::init_with_board(values);
    let (moves, placed) = game.shift(Direction::Left, 17, 4);
    assert!(moves.is_empty());
    assert_eq!(placed, None);
    assert_eq!(game.board.values(), values);
}

#[test]
fn shift_on_a_full_board_places_the_tile_where_a_merge_made_room() {
    let mut game =
        Game::init_with_board([8, 16, 8, 16, 16, 8, 16, 8, 8, 16, 8, 16, 16, 8, 16, 16]);
    let (moves, placed) = game.shift(Direction::Right, 123, 1);
    assert_eq!(moves.len(), 3);
    assert_eq!((moves[0].start(), moves[0].end(), moves[0].is_merge()), (14, 15, true));
    assert_eq!((moves[1].start(), moves[1].end(), moves[1].is_merge()), (13, 14, false));
    assert_eq!((moves[2].start(), moves[2].end(), moves[2].is_merge()), (12, 13, false));
    assert_eq!(placed, Some(12));
    assert_eq!(
        game.board.values(),
        [8, 16, 8, 16, 16, 8, 16, 8, 8, 16, 8, 16, 2, 16, 8, 32]
    );
}

#[test]
fn buttons_ask_for_a_direction_in_a_fixed_order() {
    assert_eq!(pressed(false, false, false, false, false).direction(), None);
    assert_eq!(pressed(false, false, false, false, true).direction(), None);
    assert_eq!(pressed(true, false, false, false, false).direction(), Some(Direction::Up));
    assert_eq!(pressed(false, true, false, false, false).direction(), Some(Direction::Down));
    assert_eq!(pressed(false, false, true, false, false).direction(), Some(Direction::Left));
    assert_eq!(pressed(false, false, false, true, false).direction(), Some(Direction::Right));
    assert_eq!(pressed(true, true, true, true, true).direction(), Some(Direction::Up));
    assert_eq!(pressed(false, true, true, true, false).direction(), Some(Direction::Down));
    assert_eq!(pressed(false, false, true, true, false).direction(), Some(Direction::Left));
}

#[test]
fn turn_lets_the_player_ask_for_a_tile_only_where_it_is_allowed() {
    let ordinary = Game::new();
    let manual = Game::init_with_board([0u16; 16]);
    let buttons = pressed(false, false, true, false, true);
    assert_eq!(ordinary.turn(buttons), Turn { slide: Some(Direction::Left), spawn: false });
    assert_eq!(manual.turn(buttons), Turn { slide: Some(Direction::Left), spawn: true });
    let idle = pressed(false, false, false, false, false);
    assert_eq!(manual.turn(idle), Turn { slide: None, spawn: false });
}

#[test]
fn check_stuck_tells_the_end_of_the_game() {
    let stuck = Game::init_with_board([8, 16, 8, 16, 16, 8, 16, 8, 8, 16, 8, 16, 16, 8, 16, 8]);
    assert!(stuck.check_stuck());
    let open = Game::init_with_board([8, 16, 8, 16, 16, 8, 16, 8, 8, 16, 8, 16, 16, 0, 16, 8]);
    assert!(!open.check_stuck());
}

#[test]
fn a_game_played_to_the_end() {
    let mut game = Game::init((0, 1), (0, 1));
    let mut draw: i32 = 12345;
    let mut turns = 0;
    while !game.check_stuck() && turns < 10_000 {
        for dir in [Direction::Left, Direction::Down, Direction::Right, Direction::Up] {
            if !game.board.slide_fits(dir) {
                continue;
            }
            let before: u32 = game.board.values().iter().map(|v| u32::from(*v)).sum();
            draw = draw.wrapping_mul(1_103_515_245).wrapping_add(12345);
            let (moves, placed) = game.shift(dir, draw, draw >> 3);
            let after: u32 = game.board.values().iter().map(|v| u32::from(*v)).sum();
            match placed {
                Some(cell) => {
                    assert!(!moves.is_empty());
                    let value = u32::from(game.board.value(cell));
                    assert!(value == 2 || value == 4);
                    assert_eq!(after, before + value);
                }
                None => {
                    assert!(moves.is_empty());
                    assert_eq!(after, before);
                }
            }
            for v in game.board.values() {
                assert!(v == 0 || (v >= 2 && v.is_power_of_two()));
            }
        }
        turns += 1;
    }
    assert!(game.check_stuck());
    assert!(game.board.values().iter().all(|v| *v != 0));
}
