//! Geometry of the board: sixteen cells in row-major order, four to a row.

use vstd::prelude::*;
use vstd::arithmetic::power2::pow2;
use crate::direction::Direction;

verus! {

/// Number of cells along one side of the board.
pub const SIDE: usize = 4;

/// Number of cells of the board.
pub const CELLS: usize = 16;

/// A board as the contracts see it: one natural number per cell.
pub open spec fn is_grid(g: Seq<nat>) -> bool {
    g.len() == CELLS
}

/// The empty board.
pub open spec fn empty_grid() -> Seq<nat> {
    Seq::new(CELLS as nat, |i: int| 0nat)
}

/// `i` is the index of a cell.
pub open spec fn on_grid(i: int) -> bool {
    0 <= i < CELLS
}

/// Row of cell `i`, counted from the top.
pub open spec fn row_of(i: int) -> int {
    i / 4
}

/// Column of cell `i`, counted from the left.
pub open spec fn col_of(i: int) -> int {
    i % 4
}

/// Number of cells that lie between cell `i` and the edge towards which
/// `dir` points.
pub open spec fn room(dir: Direction, i: int) -> int {
    match dir {
        Direction::Up => row_of(i),
        Direction::Down => 3 - row_of(i),
        Direction::Left => col_of(i),
        Direction::Right => 3 - col_of(i),
    }
}

/// The cell reached from cell `i` after `d` steps in direction `dir`.
pub open spec fn ahead(dir: Direction, i: int, d: int) -> int {
    match dir {
        Direction::Up => i - 4 * d,
        Direction::Down => i + 4 * d,
        Direction::Left => i - d,
        Direction::Right => i + d,
    }
}

/// The cell visited at position `k` of the traversal for `dir`: row-major
/// ascending for `Up` and `Left`, row-major descending for `Down` and
/// `Right`, so that the tiles nearest the target edge come first.
pub open spec fn visit(dir: Direction, k: int) -> int {
    match dir {
        Direction::Up | Direction::Left => k,
        Direction::Down | Direction::Right => 15 - k,
    }
}

/// Sum of the first `n` cells of `g`.
pub open spec fn sum_upto(g: Seq<nat>, n: int) -> nat
    decreases n,
{
    if n <= 0 {
        0
    } else {
        sum_upto(g, n - 1) + g[n - 1]
    }
}

/// Sum of all tile values on the board.
pub open spec fn total(g: Seq<nat>) -> nat {
    sum_upto(g, g.len() as int)
}

/// `v` is what a cell may hold: 0 for an empty cell, or the value of a
/// tile, a power of two from 2 upwards.
pub open spec fn is_tile_value(v: nat) -> bool {
    v == 0 || exists|k: nat| k >= 1 && v == pow2(k)
}

/// Every cell of the board `g` is empty or holds the value of a tile.
pub open spec fn tiles_valid(g: Seq<nat>) -> bool {
    is_grid(g) && forall|i: int| on_grid(i) ==> is_tile_value(#[trigger] g[i])
}

/// Every cell of `g` holds a value that fits into a 16-bit cell.
pub open spec fn fits16(g: Seq<nat>) -> bool {
    forall|i: int| on_grid(i) ==> #[trigger] g[i] <= u16::MAX
}

/// Staying within `room` keeps a probe on the board and, for `Left` and
/// `Right`, within the row; for `Up` and `Down`, within the column.
pub proof fn lemma_ahead_in_line(dir: Direction, i: int, d: int)
    requires
        on_grid(i),
        0 <= d <= room(dir, i),
    ensures
        on_grid(ahead(dir, i, d)),
        match dir {
            Direction::Left | Direction::Right => row_of(ahead(dir, i, d)) == row_of(i),
            Direction::Up | Direction::Down => col_of(ahead(dir, i, d)) == col_of(i),
        },
        d > 0 ==> ahead(dir, i, d) != i,
{
}

} // verus!
