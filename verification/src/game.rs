//! A game in progress: the board, and the rules of one turn.

use vstd::prelude::*;
use crate::board::{Board, widen16};
use crate::direction::Direction;
use crate::grid::{CELLS, empty_grid, fits16, on_grid, total};
use crate::laws::{
    adjacent,
    law_slide_conserves_total,
    law_slide_is_applicable_iff_it_fits,
    law_slide_leaves_room,
};
use crate::moves::{Move, views};
use crate::planner::{is_stuck, plan, slide};
use crate::spawn::{EmptyBoardError, has_empty, spawn_cell, spawned};

verus! {

/// The buttons that were pressed since the last poll.
#[derive(Debug, Clone, Copy, PartialEq, Eq, Structural)]
pub struct Buttons {
    /// The button for a slide up.
    pub up: bool,
    /// The button for a slide down.
    pub down: bool,
    /// The button for a slide to the left.
    pub left: bool,
    /// The button for a slide to the right.
    pub right: bool,
    /// The button that asks for a new tile.
    pub b: bool,
}

/// What one pass of the game loop is to do, in this order: the slide, if
/// any, the tile that the player asked for, if any.
#[derive(Debug, Clone, Copy, PartialEq, Eq, Structural)]
pub struct Turn {
    /// The direction in which the tiles are to slide, if any.
    pub slide: Option<Direction>,
    /// Whether a tile is to be placed because the player asked for one.
    pub spawn: bool,
}

/// The direction that pressed buttons ask for: where several are pressed,
/// up goes before down, down before left, and left before right.
pub open spec fn requested(buttons: Buttons) -> Option<Direction> {
    if buttons.up {
        Some(Direction::Up)
    } else if buttons.down {
        Some(Direction::Down)
    } else if buttons.left {
        Some(Direction::Left)
    } else if buttons.right {
        Some(Direction::Right)
    } else {
        None
    }
}

impl Buttons {
    /// The direction that the pressed buttons ask for, if any.
    pub fn direction(&self) -> (dir: Option<Direction>)
        ensures
            dir == requested(*self),
    {
        if self.up {
            Some(Direction::Up)
        } else if self.down {
            Some(Direction::Down)
        } else if self.left {
            Some(Direction::Left)
        } else if self.right {
            Some(Direction::Right)
        } else {
            None
        }
    }
}

/// A game in progress.
#[derive(Debug, Clone, Copy, PartialEq, Eq)]
pub struct Game {
    /// The board.
    pub board: Board,
    /// Whether new tiles come only after a slide. Where this is off, the
    /// player may also ask for one.
    pub spawn: bool,
}

impl Game {
    /// A game on the empty board.
    pub fn new() -> (game: Game)
        ensures
            game.board@ == empty_grid(),
            game.board.wf(),
            game.spawn,
    {
        Game { board: Board::new(), spawn: true }
    }

    /// A game on the board that holds `values`, in which the player may ask
    /// for new tiles.
    pub fn init_with_board(values: [u16; 16]) -> (game: Game)
        ensures
            game.board@ == widen16(values@),
            !game.spawn,
    {
        Game { board: Board::from_values(values), spawn: false }
    }

    /// A new game: the empty board with two tiles on it. Each tile takes a
    /// pair of draws, the first for its cell and the second for its value.
    pub fn init(first: (i32, i32), second: (i32, i32)) -> (game: Game)
        ensures
            game.board@ == spawned(
                spawned(empty_grid(), first.0, first.1),
                second.0,
                second.1,
            ),
            game.board.wf(),
            game.spawn,
    {
        let mut game = Game::new();
        proof {
            assert(on_grid(0) && game.board@[0] == 0);
        }
        let one = game.spawn_tile(first.0, first.1);
        proof {
            let at = one->Ok_0 as int;
            let other = if at == 0 {
                1int
            } else {
                0int
            };
            assert(on_grid(other) && game.board@[other] == 0);
        }
        let _ = game.spawn_tile(second.0, second.1);
        game
    }

    /// Places a new tile on an empty cell of the board and returns the
    /// index of that cell. The draw `raw_index` picks the cell among the
    /// empty cells in ascending order; the draw `raw_value` picks the value,
    /// 4 for one outcome in four and 2 otherwise. A board without an empty
    /// cell is left as it is, and the error is returned.
    pub fn spawn_tile(&mut self, raw_index: i32, raw_value: i32) -> (placed: Result<
        usize,
        EmptyBoardError,
    >)
        ensures
            final(self).spawn == old(self).spawn,
            placed is Ok <==> has_empty(old(self).board@),
            placed matches Ok(index) ==> {
                &&& index == spawn_cell(old(self).board@, raw_index)
                &&& index < CELLS
                &&& old(self).board@[index as int] == 0
                &&& final(self).board@ == spawned(old(self).board@, raw_index, raw_value)
            },
            placed is Err ==> *final(self) == *old(self),
            old(self).board.wf() ==> final(self).board.wf(),
    {
        self.board.spawn(raw_index, raw_value)
    }

    /// Slides the tiles of the board in direction `dir` and returns the
    /// moves that were carried out, in order. Where none is returned, the
    /// board is as it was and no new tile is due. The slide keeps the sum of
    /// the tile values. The board after the slide has to fit into the cells
    /// of the board, which [`Board::slide_fits`] tells.
    pub fn shift_tiles(&mut self, dir: Direction) -> (moves: Vec<Move>)
        requires
            fits16(slide(old(self).board@, dir)),
        ensures
            views(moves@) == plan(old(self).board@, dir),
            final(self).board@ == slide(old(self).board@, dir),
            moves@.len() == 0 ==> final(self).board@ == old(self).board@,
            total(final(self).board@) == total(old(self).board@),
            moves@.len() > 0 ==> has_empty(final(self).board@),
            old(self).board.wf() ==> final(self).board.wf(),
            final(self).spawn == old(self).spawn,
    {
        proof {
            law_slide_is_applicable_iff_it_fits(self.board@, dir);
            law_slide_conserves_total(self.board@, dir);
            if plan(self.board@, dir).len() > 0 {
                law_slide_leaves_room(self.board@, dir);
            }
        }
        let moves = Move::get(&self.board, dir);
        if moves.len() != 0 {
            self.board.apply(&moves);
        }
        moves
    }

    /// One slide and what follows it: slides the tiles in direction `dir`
    /// and, if a tile moved, places a new tile with the two draws. Returns
    /// the moves that were carried out and the cell of the new tile. Where
    /// no tile moved, the board is as it was and the draws are not used.
    pub fn shift(&mut self, dir: Direction, raw_index: i32, raw_value: i32) -> (done: (
        Vec<Move>,
        Option<usize>,
    ))
        requires
            fits16(slide(old(self).board@, dir)),
        ensures
            views(done.0@) == plan(old(self).board@, dir),
            final(self).spawn == old(self).spawn,
            old(self).board.wf() ==> final(self).board.wf(),
            plan(old(self).board@, dir).len() == 0 ==> done.1 is None && final(self).board@ == old(
                self,
            ).board@,
            plan(old(self).board@, dir).len() > 0 ==> {
                &&& done.1 == Some(spawn_cell(slide(old(self).board@, dir), raw_index) as usize)
                &&& final(self).board@ == spawned(slide(old(self).board@, dir), raw_index, raw_value)
            },
    {
        let moves = self.shift_tiles(dir);
        if moves.len() != 0 {
            let placed = self.spawn_tile(raw_index, raw_value);
            match placed {
                Ok(index) => (moves, Some(index)),
                Err(_) => (moves, None),
            }
        } else {
            (moves, None)
        }
    }

    /// What the pressed buttons ask of this pass of the game loop: a slide
    /// in the direction that they ask for, and a new tile where the player
    /// may ask for one and pressed the button for it.
    pub fn turn(&self, buttons: Buttons) -> (turn: Turn)
        ensures
            turn.slide == requested(buttons),
            turn.spawn == (!self.spawn && buttons.b),
    {
        Turn { slide: buttons.direction(), spawn: !self.spawn && buttons.b }
    }

    /// Whether the game is over: no slide in any direction would move a
    /// tile. A board without an empty cell on which no two neighbours hold
    /// the same value is stuck; a board that holds a tile and has an empty
    /// cell is not.
    pub fn check_stuck(&self) -> (stuck: bool)
        ensures
            stuck == is_stuck(self.board@),
            !has_empty(self.board@) && (forall|a: int, b: int| #[trigger]
                adjacent(a, b) ==> self.board@[a] != self.board@[b]) ==> stuck,
            has_empty(self.board@) && (exists|i: int| on_grid(i) && self.board@[i] != 0)
                ==> !stuck,
    {
        self.board.is_stuck()
    }
}

} // verus!
