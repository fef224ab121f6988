//! What holds of every slide: the laws of the planner and of the board
//! mutator, proved over the model of the board.

use vstd::prelude::*;
use crate::board::{WorkingCopy, fresh};
use crate::direction::Direction;
use crate::grid::{
    CELLS,
    ahead,
    col_of,
    fits16,
    is_grid,
    lemma_ahead_in_line,
    on_grid,
    room,
    row_of,
    sum_upto,
    tiles_valid,
    total,
    visit,
};
use crate::moves::{
    Descriptor,
    applicable,
    apply_move,
    apply_moves,
    legal,
    lemma_apply_moves_first,
    lemma_move_keeps_tiles,
    well_formed,
};
use crate::planner::{carry_out, is_stuck, plan, plan_from, planned_at, probe, slide};
use crate::spawn::has_empty;

verus! {

/// The move `m` stays in the line of its start and goes towards the edge
/// that `dir` points to: within the row for `Left` and `Right`, within the
/// column for `Up` and `Down`.
pub open spec fn in_line(dir: Direction, m: Descriptor) -> bool {
    &&& well_formed(m)
    &&& match dir {
        Direction::Up => col_of(m.end) == col_of(m.start) && m.end < m.start,
        Direction::Down => col_of(m.end) == col_of(m.start) && m.end > m.start,
        Direction::Left => row_of(m.end) == row_of(m.start) && m.end < m.start,
        Direction::Right => row_of(m.end) == row_of(m.start) && m.end > m.start,
    }
}

/// `w` is a working copy of a board: it has a value and a mark for each
/// cell.
pub open spec fn is_working_copy(w: WorkingCopy) -> bool {
    is_grid(w.cells) && w.merged.len() == CELLS
}

/// The move of a tile, where it has one, is legal on the working copy on
/// which it was probed, starts at the tile and stays in its line, and if it
/// is a merge no merge has ended at its destination before.
pub proof fn lemma_probe_legal(w: WorkingCopy, dir: Direction, i: int)
    requires
        is_working_copy(w),
        on_grid(i),
        w.cells[i] != 0,
    ensures
        probe(w, dir, i) matches Some(m) ==> {
            &&& legal(w.cells, m)
            &&& in_line(dir, m)
            &&& m.start == i
            &&& m.merge ==> !w.merged[m.end]
            &&& is_working_copy(carry_out(w, m))
        },
{
    if room(dir, i) >= 1 {
        lemma_ahead_in_line(dir, i, 1);
    }
    if room(dir, i) >= 2 {
        lemma_ahead_in_line(dir, i, 2);
    }
    if room(dir, i) >= 3 {
        lemma_ahead_in_line(dir, i, 3);
    }
}

/// Where a move is planned at position `k`, carrying out the moves planned
/// from there is carrying out that move and the moves planned after it.
pub proof fn lemma_settle_first(w: WorkingCopy, dir: Direction, k: int)
    requires
        0 <= k < CELLS,
        planned_at(w, dir, k) is Some,
    ensures
        ({
            let m = planned_at(w, dir, k)->Some_0;
            let after = carry_out(w, m);
            &&& plan_from(w, dir, k) == seq![m] + plan_from(after, dir, k + 1)
            &&& apply_moves(w.cells, plan_from(w, dir, k)) == apply_moves(
                after.cells,
                plan_from(after, dir, k + 1),
            )
            &&& applicable(w.cells, plan_from(w, dir, k)) == {
                &&& on_grid(m.start)
                &&& on_grid(m.end)
                &&& m.merge ==> 2 * w.cells[m.start] <= u16::MAX
                &&& applicable(after.cells, plan_from(after, dir, k + 1))
            }
        }),
{
    let m = planned_at(w, dir, k)->Some_0;
    lemma_apply_moves_first(w.cells, m, plan_from(carry_out(w, m), dir, k + 1));
}

/// Writing `v` to cell `i` changes the sum of the first `n` cells by the
/// difference between `v` and the value that was there, if cell `i` is among
/// them.
pub proof fn lemma_sum_update(g: Seq<nat>, i: int, v: nat, n: int)
    requires
        0 <= i < g.len(),
        0 <= n <= g.len(),
    ensures
        sum_upto(g.update(i, v), n) == if i < n {
            sum_upto(g, n) - g[i] + v
        } else {
            sum_upto(g, n) as int
        },
    decreases n,
{
    if n > 0 {
        lemma_sum_update(g, i, v, n - 1);
    }
}

/// A legal move keeps the sum of the tile values.
pub proof fn lemma_move_conserves(g: Seq<nat>, m: Descriptor)
    requires
        is_grid(g),
        legal(g, m),
    ensures
        total(apply_move(g, m)) == total(g),
{
    let moved: nat = if m.merge {
        2 * g[m.start]
    } else {
        g[m.start]
    };
    let mid = g.update(m.end, moved);
    lemma_sum_update(g, m.end, moved, CELLS as int);
    lemma_sum_update(mid, m.start, 0, CELLS as int);
}

/// What holds of the moves planned from position `k` onwards on a working
/// copy `w`: each is in line, and after them the board is a board, the sum
/// of the tile values is the sum before, and tile values are tile values.
pub proof fn lemma_plan_from(w: WorkingCopy, dir: Direction, k: int)
    requires
        is_working_copy(w),
        0 <= k <= CELLS,
    ensures
        forall|j: int|
            0 <= j < plan_from(w, dir, k).len() ==> in_line(dir, #[trigger] plan_from(w, dir, k)[j]),
        is_grid(apply_moves(w.cells, plan_from(w, dir, k))),
        total(apply_moves(w.cells, plan_from(w, dir, k))) == total(w.cells),
        tiles_valid(w.cells) ==> tiles_valid(apply_moves(w.cells, plan_from(w, dir, k))),
        plan_from(w, dir, k).len() <= CELLS - k,
    decreases CELLS - k,
{
    if k < CELLS {
        let c = visit(dir, k);
        match planned_at(w, dir, k) {
            Some(m) => {
                lemma_probe_legal(w, dir, c);
                lemma_move_conserves(w.cells, m);
                if tiles_valid(w.cells) {
                    lemma_move_keeps_tiles(w.cells, m);
                }
                let rest = plan_from(carry_out(w, m), dir, k + 1);
                lemma_plan_from(carry_out(w, m), dir, k + 1);
                lemma_settle_first(w, dir, k);
                assert forall|j: int| 0 <= j < plan_from(w, dir, k).len() implies in_line(
                    dir,
                    #[trigger] plan_from(w, dir, k)[j],
                ) by {
                    if j > 0 {
                        assert(plan_from(w, dir, k)[j] == rest[j - 1]);
                    }
                }
            },
            None => {
                lemma_plan_from(w, dir, k + 1);
            },
        }
    }
}

/// Conservation: a slide keeps the sum of the tile values. A merge doubles
/// one tile and empties the cell of the other; a plain move carries a value
/// from one cell to another.
pub proof fn law_slide_conserves_total(g: Seq<nat>, dir: Direction)
    requires
        is_grid(g),
    ensures
        is_grid(slide(g, dir)),
        total(slide(g, dir)) == total(g),
{
    lemma_plan_from(fresh(g), dir, 0);
}

/// Boundary respect: every move of a slide stays on the board and in the
/// line of its start, the row for `Left` and `Right` and the column for `Up`
/// and `Down`, and goes towards the edge that the direction points to.
pub proof fn law_moves_stay_in_line(g: Seq<nat>, dir: Direction, j: int)
    requires
        is_grid(g),
        0 <= j < plan(g, dir).len(),
    ensures
        in_line(dir, plan(g, dir)[j]),
        on_grid(plan(g, dir)[j].start),
        on_grid(plan(g, dir)[j].end),
        plan(g, dir)[j].start != plan(g, dir)[j].end,
        match dir {
            Direction::Left | Direction::Right => plan(g, dir)[j].start / 4 == plan(g, dir)[j].end
                / 4,
            Direction::Up | Direction::Down => plan(g, dir)[j].start % 4 == plan(g, dir)[j].end
                % 4,
        },
{
    lemma_plan_from(fresh(g), dir, 0);
}

/// A slide without moves changes nothing, and planning it again on the
/// board that it leaves finds no move again.
pub proof fn law_empty_plan_is_idempotent(g: Seq<nat>, dir: Direction)
    requires
        plan(g, dir).len() == 0,
    ensures
        slide(g, dir) == g,
        plan(slide(g, dir), dir).len() == 0,
{
}

/// No tile of `g` can move in direction `dir`: the cell directly ahead of
/// each tile, where there is one, holds a tile of another value.
pub open spec fn blocked(g: Seq<nat>, dir: Direction) -> bool {
    forall|i: int|
        on_grid(i) && g[i] != 0 && room(dir, i) >= 1 ==> g[#[trigger] ahead(dir, i, 1)] != 0
            && g[ahead(dir, i, 1)] != g[i]
}

/// The cells `a` and `b` are neighbours in a row or in a column.
pub open spec fn adjacent(a: int, b: int) -> bool {
    &&& on_grid(a)
    &&& on_grid(b)
    &&& (row_of(a) == row_of(b) && (a - b == 1 || b - a == 1)) || a - b == 4 || b - a == 4
}

/// On a board on which no tile can move, the plan is empty from every
/// position of the traversal.
proof fn lemma_blocked_plans_nothing(w: WorkingCopy, dir: Direction, k: int)
    requires
        is_working_copy(w),
        blocked(w.cells, dir),
        0 <= k <= CELLS,
    ensures
        plan_from(w, dir, k).len() == 0,
    decreases CELLS - k,
{
    if k < CELLS {
        let c = visit(dir, k);
        if w.cells[c] != 0 && room(dir, c) >= 1 {
            assert(w.cells[ahead(dir, c, 1)] != 0);
        }
        lemma_blocked_plans_nothing(w, dir, k + 1);
    }
}

/// Where the plan from position `k` is empty, no later position of the
/// traversal has a move on `g`.
proof fn lemma_empty_plan_has_no_move(w: WorkingCopy, dir: Direction, k: int, j: int)
    requires
        0 <= k <= j < CELLS,
        plan_from(w, dir, k).len() == 0,
    ensures
        planned_at(w, dir, j) is None,
    decreases CELLS - k,
{
    if k < j {
        lemma_empty_plan_has_no_move(w, dir, k + 1, j);
    }
}

/// The plan of a slide is empty exactly when no tile can move: no tile has
/// an empty cell or a tile of its own value directly ahead.
pub proof fn law_plan_empty_iff_blocked(g: Seq<nat>, dir: Direction)
    requires
        is_grid(g),
    ensures
        plan(g, dir).len() == 0 <==> blocked(g, dir),
{
    if blocked(g, dir) {
        lemma_blocked_plans_nothing(fresh(g), dir, 0);
    }
    if plan(g, dir).len() == 0 {
        assert forall|i: int| on_grid(i) && g[i] != 0 && room(dir, i) >= 1 implies g[#[trigger] ahead(
            dir,
            i,
            1,
        )] != 0 && g[ahead(dir, i, 1)] != g[i] by {
            let j = match dir {
                Direction::Up | Direction::Left => i,
                Direction::Down | Direction::Right => 15 - i,
            };
            assert(visit(dir, j) == i);
            lemma_empty_plan_has_no_move(fresh(g), dir, 0, j);
            if room(dir, i) >= 1 {
                lemma_ahead_in_line(dir, i, 1);
            }
        }
    }
}

/// Stuck detection, first half: a board without an empty cell on which no
/// two neighbours hold the same value is stuck.
pub proof fn law_full_board_without_equal_neighbours_is_stuck(g: Seq<nat>)
    requires
        is_grid(g),
        !has_empty(g),
        forall|a: int, b: int| #[trigger] adjacent(a, b) ==> g[a] != g[b],
    ensures
        is_stuck(g),
{
    assert forall|dir: Direction| blocked(g, dir) by {
        assert forall|i: int| on_grid(i) && g[i] != 0 && room(dir, i) >= 1 implies g[#[trigger] ahead(
            dir,
            i,
            1,
        )] != 0 && g[ahead(dir, i, 1)] != g[i] by {
            lemma_ahead_in_line(dir, i, 1);
            assert(adjacent(i, ahead(dir, i, 1)));
        }
    }
    law_plan_empty_iff_blocked(g, Direction::Up);
    law_plan_empty_iff_blocked(g, Direction::Down);
    law_plan_empty_iff_blocked(g, Direction::Left);
    law_plan_empty_iff_blocked(g, Direction::Right);
}

/// On a board on which no tile can move in direction `dir`, every cell
/// ahead of a tile holds a tile.
proof fn lemma_blocked_line_is_full(g: Seq<nat>, dir: Direction, i: int, d: int)
    requires
        is_grid(g),
        blocked(g, dir),
        on_grid(i),
        g[i] != 0,
        0 <= d <= room(dir, i),
    ensures
        g[ahead(dir, i, d)] != 0,
    decreases d,
{
    if d > 0 {
        lemma_blocked_line_is_full(g, dir, i, d - 1);
        let before = ahead(dir, i, d - 1);
        lemma_ahead_in_line(dir, i, d - 1);
        assert(room(dir, before) >= 1);
        assert(ahead(dir, before, 1) == ahead(dir, i, d));
    }
}

/// Stuck detection, second half: a board that holds a tile and has an empty
/// cell is not stuck. (The empty board has no tile to move, and is stuck.)
pub proof fn law_board_with_tile_and_room_is_not_stuck(g: Seq<nat>)
    requires
        is_grid(g),
        has_empty(g),
        exists|i: int| on_grid(i) && g[i] != 0,
    ensures
        !is_stuck(g),
{
    if is_stuck(g) {
        law_plan_empty_iff_blocked(g, Direction::Up);
        law_plan_empty_iff_blocked(g, Direction::Down);
        law_plan_empty_iff_blocked(g, Direction::Left);
        law_plan_empty_iff_blocked(g, Direction::Right);
        let hole = choose|i: int| on_grid(i) && g[i] == 0;
        let tile = choose|i: int| on_grid(i) && g[i] != 0;
        // From the tile along its row to the column of the hole.
        let corner = 4 * row_of(tile) + col_of(hole);
        if col_of(hole) <= col_of(tile) {
            lemma_blocked_line_is_full(g, Direction::Left, tile, col_of(tile) - col_of(hole));
        } else {
            lemma_blocked_line_is_full(g, Direction::Right, tile, col_of(hole) - col_of(tile));
        }
        assert(g[corner] != 0);
        // From there along the column to the hole.
        if row_of(hole) <= row_of(tile) {
            lemma_blocked_line_is_full(g, Direction::Up, corner, row_of(tile) - row_of(hole));
        } else {
            lemma_blocked_line_is_full(g, Direction::Down, corner, row_of(hole) - row_of(tile));
        }
        assert(g[hole] != 0);
    }
}

/// The moves planned from position `k` onwards start at cells that the
/// traversal visits at position `k` or later.
proof fn lemma_starts_come_later(w: WorkingCopy, dir: Direction, k: int, j: int)
    requires
        is_working_copy(w),
        0 <= k <= CELLS,
        0 <= j < plan_from(w, dir, k).len(),
    ensures
        k <= visit(dir, plan_from(w, dir, k)[j].start) < CELLS,
    decreases CELLS - k,
{
    if k < CELLS {
        match planned_at(w, dir, k) {
            Some(m) => {
                lemma_probe_legal(w, dir, visit(dir, k));
                if j > 0 {
                    let rest = plan_from(carry_out(w, m), dir, k + 1);
                    assert(plan_from(w, dir, k)[j] == rest[j - 1]);
                    lemma_starts_come_later(carry_out(w, m), dir, k + 1, j - 1);
                }
            },
            None => {
                lemma_starts_come_later(w, dir, k + 1, j);
            },
        }
    }
}

/// A cell `x` that the traversal has passed and that holds a tile keeps a
/// tile. So a later move into it is a merge, and there is none if a merge
/// has ended there before.
proof fn lemma_later_arrivals_merge(w: WorkingCopy, dir: Direction, k: int, x: int, j: int)
    requires
        is_working_copy(w),
        0 <= k <= CELLS,
        on_grid(x),
        w.cells[x] != 0,
        visit(dir, x) < k,
        0 <= j < plan_from(w, dir, k).len(),
        plan_from(w, dir, k)[j].end == x,
    ensures
        plan_from(w, dir, k)[j].merge,
        !w.merged[x],
    decreases CELLS - k,
{
    if k < CELLS {
        match planned_at(w, dir, k) {
            Some(m) => {
                lemma_probe_legal(w, dir, visit(dir, k));
                if j > 0 {
                    let rest = plan_from(carry_out(w, m), dir, k + 1);
                    assert(plan_from(w, dir, k)[j] == rest[j - 1]);
                    lemma_later_arrivals_merge(carry_out(w, m), dir, k + 1, x, j - 1);
                }
            },
            None => {
                lemma_later_arrivals_merge(w, dir, k + 1, x, j);
            },
        }
    }
}

/// Of two moves planned from position `k` onwards, the later one starts at
/// another cell, and if it ends where the earlier one ended, the earlier one
/// was a plain move and the later one is a merge.
proof fn lemma_pair_of_moves(w: WorkingCopy, dir: Direction, k: int, a: int, b: int)
    requires
        is_working_copy(w),
        0 <= k <= CELLS,
        0 <= a < b < plan_from(w, dir, k).len(),
    ensures
        plan_from(w, dir, k)[a].start != plan_from(w, dir, k)[b].start,
        plan_from(w, dir, k)[a].end == plan_from(w, dir, k)[b].end ==> !plan_from(
            w,
            dir,
            k,
        )[a].merge && plan_from(w, dir, k)[b].merge,
    decreases CELLS - k,
{
    if k < CELLS {
        match planned_at(w, dir, k) {
            Some(m) => {
                lemma_probe_legal(w, dir, visit(dir, k));
                let after = carry_out(w, m);
                let rest = plan_from(after, dir, k + 1);
                assert(plan_from(w, dir, k)[b] == rest[b - 1]);
                if a == 0 {
                    lemma_starts_come_later(after, dir, k + 1, b - 1);
                    if rest[b - 1].end == m.end {
                        lemma_later_arrivals_merge(after, dir, k + 1, m.end, b - 1);
                    }
                } else {
                    assert(plan_from(w, dir, k)[a] == rest[a - 1]);
                    lemma_pair_of_moves(after, dir, k + 1, a - 1, b - 1);
                }
            },
            None => {
                lemma_pair_of_moves(w, dir, k + 1, a, b);
            },
        }
    }
}

/// One merge per cell and slide: of two moves of a slide, the later one
/// starts at another cell, and the two end in the same cell only if the
/// earlier one is a plain move and the later one a merge. So no cell is left
/// twice, no cell is the destination of two merges, and no move ends where a
/// merge has ended. (Two moves of a slide can end in the same cell: a tile
/// that has moved can be merged into.)
pub proof fn law_one_merge_per_cell(g: Seq<nat>, dir: Direction, a: int, b: int)
    requires
        is_grid(g),
        0 <= a < b < plan(g, dir).len(),
    ensures
        plan(g, dir)[a].start != plan(g, dir)[b].start,
        plan(g, dir)[a].end == plan(g, dir)[b].end ==> !plan(g, dir)[a].merge && plan(
            g,
            dir,
        )[b].merge,
        plan(g, dir)[a].merge && plan(g, dir)[b].merge ==> plan(g, dir)[a].end != plan(
            g,
            dir,
        )[b].end,
{
    lemma_pair_of_moves(fresh(g), dir, 0, a, b);
}

/// A slide leaves a board of tile values a board of tile values: a merge
/// of two equal powers of two gives the next power of two.
pub proof fn law_slide_keeps_tile_values(g: Seq<nat>, dir: Direction)
    requires
        tiles_valid(g),
    ensures
        tiles_valid(slide(g, dir)),
{
    lemma_plan_from(fresh(g), dir, 0);
}

/// The value of a cell that the traversal has passed does not go down in
/// the rest of the slide: such a cell is not left again, and what arrives
/// there is added to it.
proof fn lemma_passed_cells_grow(w: WorkingCopy, dir: Direction, k: int, x: int)
    requires
        is_working_copy(w),
        0 <= k <= CELLS,
        on_grid(x),
        visit(dir, x) < k,
    ensures
        apply_moves(w.cells, plan_from(w, dir, k))[x] >= w.cells[x],
    decreases CELLS - k,
{
    if k < CELLS {
        match planned_at(w, dir, k) {
            Some(m) => {
                lemma_probe_legal(w, dir, visit(dir, k));
                lemma_settle_first(w, dir, k);
                lemma_passed_cells_grow(carry_out(w, m), dir, k + 1, x);
            },
            None => {
                lemma_passed_cells_grow(w, dir, k + 1, x);
            },
        }
    }
}

/// From position `k` onwards the planned moves can be carried out in 16-bit
/// cells exactly when the board that they lead to fits into such cells.
proof fn lemma_fits_from(w: WorkingCopy, dir: Direction, k: int)
    requires
        is_working_copy(w),
        fits16(w.cells),
        0 <= k <= CELLS,
    ensures
        applicable(w.cells, plan_from(w, dir, k)) <==> fits16(
            apply_moves(w.cells, plan_from(w, dir, k)),
        ),
    decreases CELLS - k,
{
    if k < CELLS {
        match planned_at(w, dir, k) {
            Some(m) => {
                lemma_probe_legal(w, dir, visit(dir, k));
                let after = carry_out(w, m);
                let rest = plan_from(after, dir, k + 1);
                lemma_settle_first(w, dir, k);
                if m.merge && 2 * w.cells[m.start] > u16::MAX {
                    lemma_passed_cells_grow(after, dir, k + 1, m.end);
                    assert(apply_moves(after.cells, rest)[m.end] > u16::MAX);
                } else {
                    assert(fits16(after.cells));
                    lemma_fits_from(after, dir, k + 1);
                }
            },
            None => {
                lemma_fits_from(w, dir, k + 1);
            },
        }
    }
}

/// The moves of a slide can be carried out on a board of 16-bit cells
/// exactly when the board after the slide fits into such cells.
pub proof fn law_slide_is_applicable_iff_it_fits(g: Seq<nat>, dir: Direction)
    requires
        is_grid(g),
        fits16(g),
    ensures
        applicable(g, plan(g, dir)) <==> fits16(slide(g, dir)),
{
    lemma_fits_from(fresh(g), dir, 0);
}

/// The sum of the first `n` cells is at least the value of each of them.
proof fn lemma_sum_bounds_cell(g: Seq<nat>, n: int, i: int)
    requires
        0 <= i < n <= g.len(),
    ensures
        g[i] <= sum_upto(g, n),
    decreases n,
{
    if i < n - 1 {
        lemma_sum_bounds_cell(g, n - 1, i);
    }
}

/// A board whose tile values add up to no more than a 16-bit cell can hold
/// is a board on which every slide fits: sliding keeps the sum.
pub proof fn law_slide_fits_where_total_fits(g: Seq<nat>, dir: Direction)
    requires
        is_grid(g),
        total(g) <= u16::MAX,
    ensures
        fits16(slide(g, dir)),
{
    law_slide_conserves_total(g, dir);
    assert forall|i: int| on_grid(i) implies #[trigger] slide(g, dir)[i] <= u16::MAX by {
        lemma_sum_bounds_cell(slide(g, dir), CELLS as int, i);
    }
}

/// After a list of moves between cells of the board, the cell that the
/// last of them left is empty.
proof fn lemma_last_start_is_empty(g: Seq<nat>, ms: Seq<Descriptor>)
    requires
        is_grid(g),
        ms.len() > 0,
        forall|j: int| 0 <= j < ms.len() ==> well_formed(#[trigger] ms[j]),
    ensures
        is_grid(apply_moves(g, ms)),
        apply_moves(g, ms)[ms.last().start] == 0,
    decreases ms.len(),
{
    assert(well_formed(ms[0]));
    if ms.len() > 1 {
        let rest = ms.skip(1);
        assert forall|j: int| 0 <= j < rest.len() implies well_formed(#[trigger] rest[j]) by {
            assert(rest[j] == ms[j + 1]);
        }
        lemma_last_start_is_empty(apply_move(g, ms[0]), rest);
        assert(rest.last() == ms.last());
    } else {
        assert(ms.skip(1).len() == 0);
        assert(apply_moves(apply_move(g, ms[0]), ms.skip(1)) == apply_move(g, ms[0]));
    }
}

/// A slide that moves a tile leaves an empty cell: the cell that the last
/// move left. So the tile that is due after such a slide has a place.
pub proof fn law_slide_leaves_room(g: Seq<nat>, dir: Direction)
    requires
        is_grid(g),
        plan(g, dir).len() > 0,
    ensures
        has_empty(slide(g, dir)),
{
    let ms = plan(g, dir);
    assert forall|j: int| 0 <= j < ms.len() implies well_formed(#[trigger] ms[j]) by {
        law_moves_stay_in_line(g, dir, j);
    }
    lemma_last_start_is_empty(g, ms);
    assert(on_grid(ms.last().start));
}

/// The traversal goes row by row: for `Up` and `Left` from the top row to
/// the bottom row and within a row from left to right; for `Down` and
/// `Right` the other way round. So a tile is looked at only after every tile
/// that lies between it and the edge towards which the slide goes.
pub proof fn law_traversal_goes_row_by_row(dir: Direction, j: int, k: int)
    requires
        0 <= j < k < CELLS,
    ensures
        on_grid(visit(dir, j)),
        on_grid(visit(dir, k)),
        match dir {
            Direction::Up | Direction::Left => row_of(visit(dir, j)) < row_of(visit(dir, k)) || (
            row_of(visit(dir, j)) == row_of(visit(dir, k)) && col_of(visit(dir, j)) < col_of(
                visit(dir, k),
            )),
            Direction::Down | Direction::Right => row_of(visit(dir, j)) > row_of(visit(dir, k))
                || (row_of(visit(dir, j)) == row_of(visit(dir, k)) && col_of(visit(dir, j))
                > col_of(visit(dir, k))),
        },
{
}

/// A cell that lies ahead of another in the direction of the slide comes
/// before it in the traversal. (The position at which the traversal visits a
/// cell `c` is `visit(dir, c)`: the traversal is its own inverse.)
pub proof fn law_cells_ahead_come_first(dir: Direction, c: int, d: int)
    requires
        on_grid(c),
        1 <= d <= room(dir, c),
    ensures
        visit(dir, visit(dir, c)) == c,
        0 <= visit(dir, ahead(dir, c, d)) < visit(dir, c),
{
    lemma_ahead_in_line(dir, c, d);
}

} // verus!
