//! Planning a slide: which tile goes where, decided on a working copy of
//! the board so that each tile sees the moves planned before its own.

use vstd::prelude::*;
use crate::board::{Board, Simulation, WorkingCopy, fresh};
use crate::direction::Direction;
use crate::grid::{CELLS, ahead, fits16, on_grid, room, visit};
use crate::laws::{
    adjacent,
    in_line,
    law_board_with_tile_and_room_is_not_stuck,
    law_full_board_without_equal_neighbours_is_stuck,
    law_moves_stay_in_line,
    law_one_merge_per_cell,
    lemma_plan_from,
    lemma_probe_legal,
    lemma_settle_first,
};
use crate::moves::{Descriptor, Move, apply_move, apply_moves, views};
use crate::spawn::has_empty;

verus! {

/// The descriptor of an optional move.
pub open spec fn descriptor_of(mv: Option<Move>) -> Option<Descriptor> {
    match mv {
        Some(m) => Some(m@),
        None => None,
    }
}

/// What becomes of a proposed move `m` on the working copy `w`: it stands
/// as it is when its destination is empty; it becomes a merge when its
/// destination holds the value of its source and no merge has ended there
/// in this slide; otherwise it is dropped.
pub open spec fn validated(w: WorkingCopy, m: Descriptor) -> Option<Descriptor> {
    if w.cells[m.end] == 0 {
        Some(m)
    } else if w.cells[m.end] == w.cells[m.start] && !w.merged[m.end] {
        Some(Descriptor { merge: true, ..m })
    } else {
        None
    }
}

/// The cell `d` steps ahead of cell `i` is on the board, in line with `i`,
/// and empty.
pub open spec fn vacant(g: Seq<nat>, dir: Direction, i: int, d: int) -> bool {
    d <= room(dir, i) && g[ahead(dir, i, d)] == 0
}

/// Number of empty cells that lie directly ahead of cell `i`, one after the
/// other, before the edge or the first tile.
pub open spec fn clear_run(g: Seq<nat>, dir: Direction, i: int) -> int {
    if !vacant(g, dir, i, 1) {
        0
    } else if !vacant(g, dir, i, 2) {
        1
    } else if !vacant(g, dir, i, 3) {
        2
    } else {
        3
    }
}

/// The move of the tile at cell `i` on the working copy `w`: the tile
/// crosses the empty cells ahead of it and merges with the first tile it
/// meets, if that tile has its value and has not itself come out of a merge
/// of this slide; otherwise it stops on the last empty cell. A tile with
/// neither an empty cell nor such a tile directly ahead does not move.
pub open spec fn probe(w: WorkingCopy, dir: Direction, i: int) -> Option<Descriptor> {
    let n = clear_run(w.cells, dir, i);
    let met = ahead(dir, i, n + 1);
    if n + 1 <= room(dir, i) && w.cells[met] == w.cells[i] && !w.merged[met] {
        Some(Descriptor { start: i, end: met, merge: true })
    } else if n >= 1 {
        Some(Descriptor { start: i, end: ahead(dir, i, n), merge: false })
    } else {
        None
    }
}

/// The working copy after the move `m`: the move is carried out on the
/// cells, and the destination of a merge is marked.
pub open spec fn carry_out(w: WorkingCopy, m: Descriptor) -> WorkingCopy {
    WorkingCopy {
        cells: apply_move(w.cells, m),
        merged: if m.merge {
            w.merged.update(m.end, true)
        } else {
            w.merged
        },
    }
}

/// The move, if any, planned at position `k` of the traversal on the
/// working copy `w`: that of the tile at the cell visited there.
pub open spec fn planned_at(w: WorkingCopy, dir: Direction, k: int) -> Option<Descriptor> {
    if w.cells[visit(dir, k)] != 0 {
        probe(w, dir, visit(dir, k))
    } else {
        None
    }
}

/// The moves planned from position `k` of the traversal onwards, on the
/// working copy `w`. Each planned move is carried out on the copy before the
/// next cell is looked at.
pub open spec fn plan_from(w: WorkingCopy, dir: Direction, k: int) -> Seq<Descriptor>
    decreases CELLS - k,
{
    if k < 0 || k >= CELLS {
        Seq::empty()
    } else {
        match planned_at(w, dir, k) {
            Some(m) => seq![m] + plan_from(carry_out(w, m), dir, k + 1),
            None => plan_from(w, dir, k + 1),
        }
    }
}

/// The moves of one slide of board `g` in direction `dir`, in the order in
/// which they are to be carried out.
pub open spec fn plan(g: Seq<nat>, dir: Direction) -> Seq<Descriptor> {
    plan_from(fresh(g), dir, 0)
}

/// The board after one slide of `g` in direction `dir`: the planned moves,
/// carried out in order.
pub open spec fn slide(g: Seq<nat>, dir: Direction) -> Seq<nat> {
    apply_moves(g, plan(g, dir))
}

/// No slide would change the board `g`: in each of the four directions the
/// plan is empty.
pub open spec fn is_stuck(g: Seq<nat>) -> bool {
    &&& plan(g, Direction::Up).len() == 0
    &&& plan(g, Direction::Down).len() == 0
    &&& plan(g, Direction::Left).len() == 0
    &&& plan(g, Direction::Right).len() == 0
}

impl Move {
    /// Checks the move against `board`: returns it unchanged when its
    /// destination is empty, as a merge when its destination holds the value
    /// of its source and no merge has ended there in this slide, and `None`
    /// when a tile is in the way.
    pub fn validate(&mut self, board: &Simulation) -> (mv: Option<Move>)
        requires
            on_grid(old(self)@.start),
            on_grid(old(self)@.end),
        ensures
            descriptor_of(mv) == validated(board@, old(self)@),
            mv matches Some(m) ==> *final(self) == m,
            mv is None ==> *final(self) == *old(self),
    {
        let target: u32 = board.value(self.end());
        if target == 0 {
            Some(*self)
        } else if target == board.value(self.start()) && !board.is_merged(self.end()) {
            self.upgrade();
            Some(*self)
        } else {
            None
        }
    }

    /// The move of the tile at `index` when the board slides up.
    pub fn move_up(board: &Simulation, index: usize) -> (mv: Option<Move>)
        requires
            index < CELLS,
        ensures
            descriptor_of(mv) == probe(board@, Direction::Up, index as int),
    {
        let mut mv: Option<Move> = None;
        let mut distance: usize = 1;
        while distance <= 3
            invariant_except_break
                1 <= distance <= 4,
                forall|d: int|
                    1 <= d < distance ==> vacant(
                        board@.cells,
                        Direction::Up,
                        index as int,
                        d,
                    ),
                descriptor_of(mv) == if distance == 1 {
                    None
                } else {
                    Some(
                        Descriptor {
                            start: index as int,
                            end: ahead(Direction::Up, index as int, distance - 1),
                            merge: false,
                        },
                    )
                },
            invariant
                index < CELLS,
            ensures
                descriptor_of(mv) == probe(board@, Direction::Up, index as int),
            decreases 4 - distance,
        {
            if index >= distance * 4 {
                let mut candidate = Move::new((index, index - distance * 4));
                match candidate.validate(board) {
                    Some(validated) => {
                        mv = Some(validated);
                        if validated.is_merge() {
                            break ;
                        }
                    },
                    None => {
                        break ;
                    },
                }
            } else {
                break ;
            }
            distance += 1;
        }
        mv
    }

    /// The move of the tile at `index` when the board slides down.
    pub fn move_down(board: &Simulation, index: usize) -> (mv: Option<Move>)
        requires
            index < CELLS,
        ensures
            descriptor_of(mv) == probe(board@, Direction::Down, index as int),
    {
        let mut mv: Option<Move> = None;
        let mut distance: usize = 1;
        while distance <= 3
            invariant_except_break
                1 <= distance <= 4,
                forall|d: int|
                    1 <= d < distance ==> vacant(
                        board@.cells,
                        Direction::Down,
                        index as int,
                        d,
                    ),
                descriptor_of(mv) == if distance == 1 {
                    None
                } else {
                    Some(
                        Descriptor {
                            start: index as int,
                            end: ahead(Direction::Down, index as int, distance - 1),
                            merge: false,
                        },
                    )
                },
            invariant
                index < CELLS,
            ensures
                descriptor_of(mv) == probe(board@, Direction::Down, index as int),
            decreases 4 - distance,
        {
            if index < 16 - distance * 4 {
                let mut candidate = Move::new((index, index + distance * 4));
                match candidate.validate(board) {
                    Some(validated) => {
                        mv = Some(validated);
                        if validated.is_merge() {
                            break ;
                        }
                    },
                    None => {
                        break ;
                    },
                }
            } else {
                break ;
            }
            distance += 1;
        }
        mv
    }

    /// The move of the tile at `index` when the board slides left.
    pub fn move_left(board: &Simulation, index: usize) -> (mv: Option<Move>)
        requires
            index < CELLS,
        ensures
            descriptor_of(mv) == probe(board@, Direction::Left, index as int),
    {
        let mut mv: Option<Move> = None;
        let mut distance: usize = 1;
        while distance <= 3
            invariant_except_break
                1 <= distance <= 4,
                forall|d: int|
                    1 <= d < distance ==> vacant(
                        board@.cells,
                        Direction::Left,
                        index as int,
                        d,
                    ),
                descriptor_of(mv) == if distance == 1 {
                    None
                } else {
                    Some(
                        Descriptor {
                            start: index as int,
                            end: ahead(Direction::Left, index as int, distance - 1),
                            merge: false,
                        },
                    )
                },
            invariant
                index < CELLS,
            ensures
                descriptor_of(mv) == probe(board@, Direction::Left, index as int),
            decreases 4 - distance,
        {
            if index >= distance && index - distance >= (index / 4) * 4 {
                let mut candidate = Move::new((index, index - distance));
                match candidate.validate(board) {
                    Some(validated) => {
                        mv = Some(validated);
                        if validated.is_merge() {
                            break ;
                        }
                    },
                    None => {
                        break ;
                    },
                }
            } else {
                break ;
            }
            distance += 1;
        }
        mv
    }

    /// The move of the tile at `index` when the board slides right.
    pub fn move_right(board: &Simulation, index: usize) -> (mv: Option<Move>)
        requires
            index < CELLS,
        ensures
            descriptor_of(mv) == probe(board@, Direction::Right, index as int),
    {
        let mut mv: Option<Move> = None;
        let mut distance: usize = 1;
        while distance <= 3
            invariant_except_break
                1 <= distance <= 4,
                forall|d: int|
                    1 <= d < distance ==> vacant(
                        board@.cells,
                        Direction::Right,
                        index as int,
                        d,
                    ),
                descriptor_of(mv) == if distance == 1 {
                    None
                } else {
                    Some(
                        Descriptor {
                            start: index as int,
                            end: ahead(Direction::Right, index as int, distance - 1),
                            merge: false,
                        },
                    )
                },
            invariant
                index < CELLS,
            ensures
                descriptor_of(mv) == probe(board@, Direction::Right, index as int),
            decreases 4 - distance,
        {
            if index + distance < ((index / 4) + 1) * 4 {
                let mut candidate = Move::new((index, index + distance));
                match candidate.validate(board) {
                    Some(validated) => {
                        mv = Some(validated);
                        if validated.is_merge() {
                            break ;
                        }
                    },
                    None => {
                        break ;
                    },
                }
            } else {
                break ;
            }
            distance += 1;
        }
        mv
    }

    /// The moves of one slide of `board` in direction `dir`, in the order in
    /// which they are to be carried out. The board itself is left as it is:
    /// the moves are tried out on a working copy, on which each planned move
    /// is carried out before the next tile is looked at. No move is returned
    /// when the slide would change nothing.
    ///
    /// Every move stays on the board and in the row or column of its start.
    /// No cell is left twice, and two moves end in the same cell only if the
    /// first is a plain move and the second a merge, so that no cell is the
    /// destination of two merges.
    pub fn get(board: &Board, dir: Direction) -> (moves: Vec<Move>)
        ensures
            views(moves@) == plan(board@, dir),
            moves@.len() <= CELLS,
            forall|j: int| 0 <= j < moves@.len() ==> in_line(dir, #[trigger] moves@[j]@),
            forall|a: int, b: int|
                0 <= a < b < moves@.len() ==> {
                    &&& (#[trigger] moves@[a])@.start != (#[trigger] moves@[b])@.start
                    &&& moves@[a]@.end == moves@[b]@.end ==> !moves@[a]@.merge && moves@[b]@.merge
                },
    {
        let (moves, _) = plan_and_settle(board, dir);
        proof {
            lemma_plan_from(fresh(board@), dir, 0);
            assert forall|j: int| 0 <= j < moves@.len() implies in_line(
                dir,
                #[trigger] moves@[j]@,
            ) by {
                law_moves_stay_in_line(board@, dir, j);
                assert(views(moves@)[j] == moves@[j]@);
            }
            assert forall|a: int, b: int| 0 <= a < b < moves@.len() implies {
                &&& (#[trigger] moves@[a])@.start != (#[trigger] moves@[b])@.start
                &&& moves@[a]@.end == moves@[b]@.end ==> !moves@[a]@.merge && moves@[b]@.merge
            } by {
                law_one_merge_per_cell(board@, dir, a, b);
                assert(views(moves@)[a] == moves@[a]@);
                assert(views(moves@)[b] == moves@[b]@);
            }
        }
        moves
    }
}

/// Plans one slide of `board` in direction `dir` on a working copy, and
/// returns the moves together with the working copy after them.
fn plan_and_settle(board: &Board, dir: Direction) -> (planned: (Vec<Move>, Simulation))
    ensures
        views(planned.0@) == plan(board@, dir),
        planned.1@.cells == slide(board@, dir),
{
    let mut moves: Vec<Move> = Vec::new();
    let mut board_future = Simulation::of(board);
    let mut step: usize = 0;
    while step < 16
        invariant
            step <= 16,
            plan(board@, dir) == views(moves@) + plan_from(board_future@, dir, step as int),
            slide(board@, dir) == apply_moves(
                board_future@.cells,
                plan_from(board_future@, dir, step as int),
            ),
            forall|k: int|
                step <= k < 16 ==> board_future@.cells[visit(dir, k)] == board@[visit(dir, k)],
        decreases 16 - step,
    {
        let index: usize = match dir {
            Direction::Up | Direction::Left => step,
            Direction::Down | Direction::Right => 15 - step,
        };
        if board.value(index) != 0 {
            let found = match dir {
                Direction::Up => Move::move_up(&board_future, index),
                Direction::Down => Move::move_down(&board_future, index),
                Direction::Left => Move::move_left(&board_future, index),
                Direction::Right => Move::move_right(&board_future, index),
            };
            if let Some(mv) = found {
                proof {
                    assert(views(moves@.push(mv)) =~= views(moves@) + seq![mv@]);
                    lemma_probe_legal(board_future@, dir, index as int);
                    lemma_settle_first(board_future@, dir, step as int);
                }
                moves.push(mv);
                board_future = simulate(board_future, mv);
            }
        }
        step += 1;
    }
    (moves, board_future)
}

impl Board {
    /// Whether the board after a slide in direction `dir` fits into the
    /// 16-bit cells of a board, so that the slide can be carried out.
    pub fn slide_fits(&self, dir: Direction) -> (fits: bool)
        ensures
            fits == fits16(slide(self@, dir)),
    {
        let (_, settled) = plan_and_settle(self, dir);
        let mut i: usize = 0;
        while i < 16
            invariant
                i <= 16,
                settled@.cells == slide(self@, dir),
                forall|j: int| 0 <= j < i ==> settled@.cells[j] <= u16::MAX,
            decreases 16 - i,
        {
            if settled.value(i) > 65535 {
                return false;
            }
            i += 1;
        }
        true
    }

    /// Whether the board is stuck: no slide in any direction would move a
    /// tile. A board without an empty cell on which no two neighbours hold
    /// the same value is stuck; a board that holds a tile and has an empty
    /// cell is not.
    pub fn is_stuck(&self) -> (stuck: bool)
        ensures
            stuck == is_stuck(self@),
            !has_empty(self@) && (forall|a: int, b: int| #[trigger]
                adjacent(a, b) ==> self@[a] != self@[b]) ==> stuck,
            has_empty(self@) && (exists|i: int| on_grid(i) && self@[i] != 0) ==> !stuck,
    {
        proof {
            if !has_empty(self@) && (forall|a: int, b: int| #[trigger]
                adjacent(a, b) ==> self@[a] != self@[b]) {
                law_full_board_without_equal_neighbours_is_stuck(self@);
            }
            if has_empty(self@) && (exists|i: int| on_grid(i) && self@[i] != 0) {
                law_board_with_tile_and_room_is_not_stuck(self@);
            }
        }
        Move::get(self, Direction::Up).len() == 0 && Move::get(self, Direction::Down).len() == 0
            && Move::get(self, Direction::Left).len() == 0 && Move::get(
            self,
            Direction::Right,
        ).len() == 0
    }
}

/// Carries out `mv` on the working copy `board`: the destination takes the
/// value of the source, doubled for a merge, and the source is emptied. The
/// destination of a merge is marked, so that no second merge ends there.
pub fn simulate(board: Simulation, mv: Move) -> (after: Simulation)
    requires
        on_grid(mv@.start),
        on_grid(mv@.end),
        mv@.merge ==> 2 * board@.cells[mv@.start] <= u32::MAX,
    ensures
        after@ == carry_out(board@, mv@),
{
    let mut board = board;
    let moved: u32 = board.value(mv.start());
    if mv.is_merge() {
        board.set_value(mv.end(), moved * 2);
        board.mark_merged(mv.end());
    } else {
        board.set_value(mv.end(), moved);
    }
    board.set_value(mv.start(), 0);
    board
}

} // verus!
