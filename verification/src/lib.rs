//! Move resolution for a 4x4 sliding-tile merge puzzle.
//!
//! A slide is planned against a simulation of the board, applied to the
//! board, and followed by the placement of one new tile. Every function here
//! carries a contract over a mathematical model of the board: a sequence of
//! sixteen natural numbers in row-major order.

pub mod board;
pub mod direction;
pub mod game;
pub mod graphics;
pub mod grid;
pub mod laws;
pub mod lines;
pub mod moves;
pub mod planner;
pub mod spawn;

pub use board::{Board, Simulation, WorkingCopy};
pub use direction::Direction;
pub use game::{Buttons, Game, Turn};
pub use graphics::{
    ANIMATION_TIME, Hint, Point, START_ANIMATION, TILE_SIZE, TOP_LEFT_X, TOP_LEFT_Y, animation_step,
    button_position, display_hints, is_above, letter_position, letter_sets_off, next_blend_level,
    position_of, screen_position, value_to_sprite_index,
};
pub use moves::{Descriptor, Move};
pub use planner::simulate;
pub use spawn::{EmptyBoardError, scale_rng};
