//! The slide, line by line: what a slide does to a row or a column, told
//! without the planner.

use vstd::prelude::*;
use crate::board::{WorkingCopy, fresh};
use crate::direction::Direction;
use crate::grid::{CELLS, ahead, col_of, is_grid, on_grid, room, row_of, visit};
use crate::laws::{is_working_copy, lemma_settle_first};
use crate::moves::{Descriptor, apply_moves};
use crate::planner::{carry_out, clear_run, plan_from, planned_at, probe, slide, vacant};

verus! {

/// The cell at place `p` of line `l` for slides in direction `dir`: the
/// lines are the rows for `Left` and `Right` and the columns for `Up` and
/// `Down`, and place 0 of a line is the one nearest the edge towards which
/// the slide goes.
#[verifier::opaque]
pub open spec fn line_cell(dir: Direction, l: int, p: int) -> int {
    match dir {
        Direction::Up => l + 4 * p,
        Direction::Down => l + 4 * (3 - p),
        Direction::Left => 4 * l + p,
        Direction::Right => 4 * l + (3 - p),
    }
}

/// The line of cell `c` for slides in direction `dir`.
pub open spec fn lane(dir: Direction, c: int) -> int {
    match dir {
        Direction::Up | Direction::Down => col_of(c),
        Direction::Left | Direction::Right => row_of(c),
    }
}

/// The values of line `l` of the board `g`, from the edge towards which the
/// slide goes.
pub open spec fn line_of(g: Seq<nat>, dir: Direction, l: int) -> Seq<nat> {
    Seq::new(4, |p: int| g[line_cell(dir, l, p)])
}

/// The tiles among the first `n` values of `s`, in order, without the empty
/// cells between them.
pub open spec fn squeezed(s: Seq<nat>, n: int) -> Seq<nat>
    decreases n,
{
    if n <= 0 {
        Seq::empty()
    } else if s[n - 1] == 0 {
        squeezed(s, n - 1)
    } else {
        squeezed(s, n - 1).push(s[n - 1])
    }
}

/// The tiles `t` after merging: from the front, two equal tiles that follow
/// each other become one tile of twice the value, and a tile that came out
/// of a merge takes no part in another.
pub open spec fn paired(t: Seq<nat>) -> Seq<nat>
    decreases t.len(),
{
    if t.len() == 0 {
        Seq::empty()
    } else if t.len() >= 2 && t[0] == t[1] {
        seq![2 * t[0]] + paired(t.skip(2))
    } else {
        seq![t[0]] + paired(t.skip(1))
    }
}

/// The tiles `t` as a line of four cells: the tiles first, empty cells after
/// them.
pub open spec fn padded(t: Seq<nat>) -> Seq<nat> {
    Seq::new(
        4,
        |p: int|
            if p < t.len() {
                t[p]
            } else {
                0
            },
    )
}

/// A line after a slide towards its place 0: the tiles close up towards the
/// edge, and equal neighbours merge in pairs, the pair nearest the edge
/// first.
pub open spec fn merged_line(s: Seq<nat>) -> Seq<nat> {
    padded(paired(squeezed(s, 4)))
}

/// What the planner has made of the first cells of a line: the tiles that
/// stand at the edge, and whether the last of them can still be merged into.
struct Scan {
    out: Seq<nat>,
    open: bool,
}

/// What the planner makes of the first `n` cells of the line `s`.
spec fn scan(s: Seq<nat>, n: int) -> Scan
    decreases n,
{
    if n <= 0 {
        Scan { out: Seq::empty(), open: false }
    } else {
        let before = scan(s, n - 1);
        let v = s[n - 1];
        if v == 0 {
            before
        } else if before.open && before.out.last() == v {
            Scan { out: before.out.drop_last().push(2 * v), open: false }
        } else {
            Scan { out: before.out.push(v), open: true }
        }
    }
}

/// What the scan makes of a whole line is the line after the merge.
#[verifier::rlimit(60)]
proof fn lemma_scan_is_merge(s: Seq<nat>)
    requires
        s.len() == 4,
    ensures
        padded(scan(s, 4).out) == merged_line(s),
{
    reveal_with_fuel(scan, 5);
    reveal_with_fuel(squeezed, 5);
    reveal_with_fuel(paired, 5);
    assert(padded(scan(s, 4).out) =~= merged_line(s));
}

/// The marks of line `l` of the working copy `w`, from the edge towards
/// which the slide goes.
spec fn marks_of(w: WorkingCopy, dir: Direction, l: int) -> Seq<bool> {
    Seq::new(4, |p: int| w.merged[line_cell(dir, l, p)])
}

/// The move of the tile at place `p` of a line with the values `a` and the
/// marks `b`: the place that it goes to and whether it merges there.
spec fn line_probe(a: Seq<nat>, b: Seq<bool>, p: int) -> Option<(int, bool)> {
    let n = if !(1 <= p && a[p - 1] == 0) {
        0int
    } else if !(2 <= p && a[p - 2] == 0) {
        1int
    } else if !(3 <= p && a[p - 3] == 0) {
        2int
    } else {
        3int
    };
    let met = p - n - 1;
    if met >= 0 && a[met] == a[p] && !b[met] {
        Some((met, true))
    } else if n >= 1 {
        Some((p - n, false))
    } else {
        None
    }
}

/// The values and marks of a line after the planner has looked at its
/// place `p`.
spec fn line_step(a: Seq<nat>, b: Seq<bool>, p: int) -> (Seq<nat>, Seq<bool>) {
    if a[p] == 0 {
        (a, b)
    } else {
        match line_probe(a, b, p) {
            Some((q, merge)) => (
                a.update(
                    q,
                    if merge {
                        2 * a[p]
                    } else {
                        a[p]
                    },
                ).update(p, 0),
                if merge {
                    b.update(q, true)
                } else {
                    b
                },
            ),
            None => (a, b),
        }
    }
}

/// What place `p` of a line holds when the planner has looked at the first
/// `n` places of the line `s`: among the tiles at the edge, the tile that
/// the scan has put there; behind them, nothing as far as the planner has
/// come; and beyond that what the line held. Only the last of the tiles at
/// the edge can be unmarked and so be merged into; no place behind them is
/// marked.
spec fn place_settled(a: Seq<nat>, b: Seq<bool>, s: Seq<nat>, n: int, p: int) -> bool {
    let sc = scan(s, n);
    &&& a[p] == (if p < sc.out.len() {
        sc.out[p]
    } else if p < n {
        0
    } else {
        s[p]
    })
    &&& p < sc.out.len() ==> sc.out[p] != 0
    &&& p >= sc.out.len() ==> !b[p]
    &&& p == sc.out.len() - 1 ==> b[p] == !sc.open
}

/// The line with the values `a` and the marks `b` is what the scan has made
/// of the first `n` places of the line `s`.
spec fn settled(a: Seq<nat>, b: Seq<bool>, s: Seq<nat>, n: int) -> bool {
    &&& a.len() == 4
    &&& b.len() == 4
    &&& s.len() == 4
    &&& 0 <= n <= 4
    &&& scan(s, n).out.len() <= n
    &&& place_settled(a, b, s, n, 0)
    &&& place_settled(a, b, s, n, 1)
    &&& place_settled(a, b, s, n, 2)
    &&& place_settled(a, b, s, n, 3)
}

/// Looking at the next place of a settled line leaves it settled.
#[verifier::rlimit(60)]
proof fn lemma_line_step_settles(a: Seq<nat>, b: Seq<bool>, s: Seq<nat>, n: int)
    requires
        settled(a, b, s, n),
        n < 4,
    ensures
        settled(line_step(a, b, n).0, line_step(a, b, n).1, s, n + 1),
{
    reveal_with_fuel(scan, 5);
}

/// Number of cells of line `l` that the traversal for `dir` has visited
/// before its position `k`. The traversal visits the cells of a line from
/// place 0 upwards.
spec fn seen(dir: Direction, l: int, k: int) -> int {
    (if visit(dir, line_cell(dir, l, 0)) < k {
        1int
    } else {
        0int
    }) + (if visit(dir, line_cell(dir, l, 1)) < k {
        1int
    } else {
        0int
    }) + (if visit(dir, line_cell(dir, l, 2)) < k {
        1int
    } else {
        0int
    }) + (if visit(dir, line_cell(dir, l, 3)) < k {
        1int
    } else {
        0int
    })
}

/// The working copy after position `k` of the traversal.
spec fn after_position(w: WorkingCopy, dir: Direction, k: int) -> WorkingCopy {
    match planned_at(w, dir, k) {
        Some(m) => carry_out(w, m),
        None => w,
    }
}

/// The cell visited at position `k` is the next place of its line that the
/// traversal has not seen, and the first that it has seen after this
/// position; of the other lines it sees as much after as before.
#[verifier::rlimit(60)]
proof fn lemma_seen_at(dir: Direction, k: int, side: int)
    requires
        0 <= k < CELLS,
        0 <= side < 4,
    ensures
        ({
            let c = visit(dir, k);
            let l = lane(dir, c);
            let p = room(dir, c);
            &&& 0 <= l < 4
            &&& 0 <= p < 4
            &&& line_cell(dir, l, p) == c
            &&& seen(dir, l, k) == p
            &&& seen(dir, l, k + 1) == p + 1
            &&& side != l ==> seen(dir, side, k + 1) == seen(dir, side, k)
            &&& seen(dir, side, 0) == 0
            &&& seen(dir, side, CELLS as int) == 4
        }),
{
    reveal(line_cell);
}

/// Where the cells of a line lie: each is a cell of the board, of that line
/// and at that place, and the steps ahead of it lead down the places of its
/// line.
#[verifier::rlimit(60)]
proof fn lemma_line_cell_place(dir: Direction, l: int, p: int, d: int)
    requires
        0 <= l < 4,
        0 <= p < 4,
        0 <= d <= p,
    ensures
        on_grid(line_cell(dir, l, p)),
        lane(dir, line_cell(dir, l, p)) == l,
        room(dir, line_cell(dir, l, p)) == p,
        ahead(dir, line_cell(dir, l, p), d) == line_cell(dir, l, p - d),
{
    reveal(line_cell);
    match dir {
        Direction::Up => {
            assert((l + 4 * p) % 4 == l && (l + 4 * p) / 4 == p);
        },
        Direction::Down => {
            assert((l + 4 * (3 - p)) % 4 == l && (l + 4 * (3 - p)) / 4 == 3 - p);
        },
        Direction::Left => {
            assert((4 * l + p) % 4 == p && (4 * l + p) / 4 == l);
        },
        Direction::Right => {
            assert((4 * l + (3 - p)) % 4 == 3 - p && (4 * l + (3 - p)) / 4 == l);
        },
    }
}

/// Different places of the lines are different cells.
proof fn lemma_line_cell_distinct(dir: Direction, l: int, p: int, side: int, spot: int)
    requires
        0 <= l < 4,
        0 <= p < 4,
        0 <= side < 4,
        0 <= spot < 4,
    ensures
        line_cell(dir, l, p) == line_cell(dir, side, spot) <==> l == side && p == spot,
{
    lemma_line_cell_place(dir, l, p, 0);
    lemma_line_cell_place(dir, side, spot, 0);
}

/// Where the cells of a line lie: each line cell is a cell of the board, of
/// that line and at that place; different places of different lines are
/// different cells; and the steps ahead of a cell lead down the places of
/// its line.
proof fn lemma_line_cells(dir: Direction, l: int, p: int, side: int, spot: int, d: int)
    requires
        0 <= l < 4,
        0 <= p < 4,
        0 <= side < 4,
        0 <= spot < 4,
        0 <= d <= p,
    ensures
        on_grid(line_cell(dir, l, p)),
        lane(dir, line_cell(dir, l, p)) == l,
        room(dir, line_cell(dir, l, p)) == p,
        ahead(dir, line_cell(dir, l, p), d) == line_cell(dir, l, p - d),
        line_cell(dir, l, p) == line_cell(dir, side, spot) <==> l == side && p == spot,
{
    lemma_line_cell_place(dir, l, p, d);
    lemma_line_cell_distinct(dir, l, p, side, spot);
}

/// The move of a tile on the board is its move on its line.
#[verifier::rlimit(60)]
proof fn lemma_probe_on_line(w: WorkingCopy, dir: Direction, l: int, p: int)
    requires
        is_working_copy(w),
        0 <= l < 4,
        0 <= p < 4,
    ensures
        match line_probe(line_of(w.cells, dir, l), marks_of(w, dir, l), p) {
            Some((q, merge)) => 0 <= q < p && probe(w, dir, line_cell(dir, l, p)) == Some(
                Descriptor {
                    start: line_cell(dir, l, p),
                    end: line_cell(dir, l, q),
                    merge,
                },
            ),
            None => probe(w, dir, line_cell(dir, l, p)) is None,
        },
{
    let c = line_cell(dir, l, p);
    let a = line_of(w.cells, dir, l);
    let b = marks_of(w, dir, l);
    lemma_line_cells(dir, l, p, l, p, 0);
    if p >= 1 {
        lemma_line_cells(dir, l, p, l, p, 1);
        lemma_line_cells(dir, l, p - 1, l, p, 0);
    }
    if p >= 2 {
        lemma_line_cells(dir, l, p, l, p, 2);
        lemma_line_cells(dir, l, p - 2, l, p, 0);
    }
    if p >= 3 {
        lemma_line_cells(dir, l, p, l, p, 3);
        lemma_line_cells(dir, l, p - 3, l, p, 0);
    }
    assert(vacant(w.cells, dir, c, 1) == (1 <= p && a[p - 1] == 0));
    assert(vacant(w.cells, dir, c, 2) == (2 <= p && a[p - 2] == 0));
    assert(vacant(w.cells, dir, c, 3) == (3 <= p && a[p - 3] == 0));
    let n = clear_run(w.cells, dir, c);
    assert(0 <= n <= p);
    if n + 1 <= p {
        assert(ahead(dir, c, n + 1) == line_cell(dir, l, p - n - 1));
        assert(w.cells[ahead(dir, c, n + 1)] == a[p - n - 1]);
        assert(w.merged[ahead(dir, c, n + 1)] == b[p - n - 1]);
    }
    assert(ahead(dir, c, n) == line_cell(dir, l, p - n));
    assert(w.cells[c] == a[p]);
}

/// What a move along line `l` leaves at place `spot` of line `side`.
proof fn lemma_move_at_place(
    w: WorkingCopy,
    dir: Direction,
    l: int,
    p: int,
    q: int,
    merge: bool,
    side: int,
    spot: int,
)
    requires
        is_working_copy(w),
        0 <= l < 4,
        0 <= q < p < 4,
        0 <= side < 4,
        0 <= spot < 4,
    ensures
        ({
            let m = Descriptor {
                start: line_cell(dir, l, p),
                end: line_cell(dir, l, q),
                merge,
            };
            let there = line_cell(dir, side, spot);
            let after = carry_out(w, m);
            &&& is_working_copy(after)
            &&& after.cells[there] == (if side == l && spot == p {
                0
            } else if side == l && spot == q {
                if merge {
                    2 * w.cells[line_cell(dir, l, p)]
                } else {
                    w.cells[line_cell(dir, l, p)]
                }
            } else {
                w.cells[there]
            })
            &&& after.merged[there] == (if side == l && spot == q && merge {
                true
            } else {
                w.merged[there]
            })
        }),
{
    lemma_line_cells(dir, l, p, side, spot, 0);
    lemma_line_cells(dir, l, q, side, spot, 0);
    lemma_line_cells(dir, side, spot, l, p, 0);
}

/// A move along a line changes that line at the two places of the move,
/// and no other line.
#[verifier::rlimit(60)]
proof fn lemma_move_on_line(
    w: WorkingCopy,
    dir: Direction,
    l: int,
    p: int,
    q: int,
    merge: bool,
    side: int,
)
    requires
        is_working_copy(w),
        0 <= l < 4,
        0 <= q < p < 4,
        0 <= side < 4,
    ensures
        ({
            let m = Descriptor {
                start: line_cell(dir, l, p),
                end: line_cell(dir, l, q),
                merge,
            };
            let a = line_of(w.cells, dir, l);
            let b = marks_of(w, dir, l);
            let after = carry_out(w, m);
            &&& is_working_copy(after)
            &&& side == l ==> line_of(after.cells, dir, side) == a.update(
                q,
                if merge {
                    2 * a[p]
                } else {
                    a[p]
                },
            ).update(p, 0) && marks_of(after, dir, side) == (if merge {
                b.update(q, true)
            } else {
                b
            })
            &&& side != l ==> line_of(after.cells, dir, side) == line_of(w.cells, dir, side) && marks_of(
                after,
                dir,
                side,
            ) == marks_of(w, dir, side)
        }),
{
    let m = Descriptor {
        start: line_cell(dir, l, p),
        end: line_cell(dir, l, q),
        merge,
    };
    let a = line_of(w.cells, dir, l);
    let b = marks_of(w, dir, l);
    let after = carry_out(w, m);
    lemma_move_at_place(w, dir, l, p, q, merge, side, 0);
    lemma_move_at_place(w, dir, l, p, q, merge, side, 1);
    lemma_move_at_place(w, dir, l, p, q, merge, side, 2);
    lemma_move_at_place(w, dir, l, p, q, merge, side, 3);
    if side == l {
        assert(line_of(after.cells, dir, side) =~= a.update(
            q,
            if merge {
                2 * a[p]
            } else {
                a[p]
            },
        ).update(p, 0));
        assert(marks_of(after, dir, side) =~= (if merge {
            b.update(q, true)
        } else {
            b
        }));
    } else {
        assert(line_of(after.cells, dir, side) =~= line_of(w.cells, dir, side));
        assert(marks_of(after, dir, side) =~= marks_of(w, dir, side));
    }
}

/// What a position of the traversal does to the board, it does to the line
/// of the cell that it visits: the other lines stay as they are.
#[verifier::rlimit(60)]
proof fn lemma_position_on_line(w: WorkingCopy, dir: Direction, k: int, side: int)
    requires
        is_working_copy(w),
        0 <= k < CELLS,
        0 <= side < 4,
    ensures
        ({
            let c = visit(dir, k);
            let l = lane(dir, c);
            let p = room(dir, c);
            let after = after_position(w, dir, k);
            let stepped = line_step(line_of(w.cells, dir, l), marks_of(w, dir, l), p);
            &&& is_working_copy(after)
            &&& side == l ==> line_of(after.cells, dir, side) == stepped.0 && marks_of(after, dir, side)
                == stepped.1
            &&& side != l ==> line_of(after.cells, dir, side) == line_of(w.cells, dir, side) && marks_of(
                after,
                dir,
                side,
            ) == marks_of(w, dir, side)
        }),
{
    let c = visit(dir, k);
    let l = lane(dir, c);
    let p = room(dir, c);
    let a = line_of(w.cells, dir, l);
    let b = marks_of(w, dir, l);
    lemma_seen_at(dir, k, side);
    lemma_probe_on_line(w, dir, l, p);
    assert(w.cells[c] == a[p]);
    if w.cells[c] != 0 {
        match line_probe(a, b, p) {
            Some((q, merge)) => {
                lemma_move_on_line(w, dir, l, p, q, merge, side);
            },
            None => {},
        }
    }
}

/// Line `l` of the working copy `w` is what the scan has made of the cells
/// of that line of the board `g0` that the traversal has visited before
/// position `k`.
spec fn line_settled(w: WorkingCopy, g0: Seq<nat>, dir: Direction, l: int, k: int) -> bool {
    settled(line_of(w.cells, dir, l), marks_of(w, dir, l), line_of(g0, dir, l), seen(dir, l, k))
}

/// One position of the traversal leaves each line settled.
proof fn lemma_position_settles(w: WorkingCopy, g0: Seq<nat>, dir: Direction, k: int, l: int)
    requires
        is_working_copy(w),
        0 <= k < CELLS,
        0 <= l < 4,
        line_settled(w, g0, dir, l, k),
    ensures
        is_working_copy(after_position(w, dir, k)),
        line_settled(after_position(w, dir, k), g0, dir, l, k + 1),
{
    lemma_seen_at(dir, k, l);
    lemma_position_on_line(w, dir, k, l);
    if l == lane(dir, visit(dir, k)) {
        lemma_line_step_settles(
            line_of(w.cells, dir, l),
            marks_of(w, dir, l),
            line_of(g0, dir, l),
            seen(dir, l, k),
        );
    }
}

/// From settled lines the rest of the traversal leads to the lines that the
/// scan makes of the lines of the board.
proof fn lemma_lines_from(w: WorkingCopy, g0: Seq<nat>, dir: Direction, k: int, l: int)
    requires
        is_working_copy(w),
        0 <= k <= CELLS,
        0 <= l < 4,
        line_settled(w, g0, dir, 0, k),
        line_settled(w, g0, dir, 1, k),
        line_settled(w, g0, dir, 2, k),
        line_settled(w, g0, dir, 3, k),
    ensures
        line_of(apply_moves(w.cells, plan_from(w, dir, k)), dir, l) == padded(
            scan(line_of(g0, dir, l), 4).out,
        ),
    decreases CELLS - k,
{
    if k < CELLS {
        let after = after_position(w, dir, k);
        lemma_position_settles(w, g0, dir, k, 0);
        lemma_position_settles(w, g0, dir, k, 1);
        lemma_position_settles(w, g0, dir, k, 2);
        lemma_position_settles(w, g0, dir, k, 3);
        if planned_at(w, dir, k) is Some {
            lemma_settle_first(w, dir, k);
        }
        lemma_lines_from(after, g0, dir, k + 1, l);
    } else {
        lemma_seen_at(dir, 0, l);
        assert(line_of(w.cells, dir, l) =~= padded(scan(line_of(g0, dir, l), 4).out));
    }
}

/// A slide does to each line of the board what the game asks for: the tiles
/// of the line close up towards the edge to which the slide goes, and equal
/// neighbours merge in pairs, the pair nearest that edge first; a tile that
/// came out of a merge is not merged again in the same slide. The lines are
/// the rows for `Left` and `Right` and the columns for `Up` and `Down`, and
/// no line has any part in what happens to another.
pub proof fn law_slide_merges_each_line(g: Seq<nat>, dir: Direction, l: int)
    requires
        is_grid(g),
        0 <= l < 4,
    ensures
        line_of(slide(g, dir), dir, l) == merged_line(line_of(g, dir, l)),
{
    let w = fresh(g);
    lemma_seen_at(dir, 0, 0);
    lemma_seen_at(dir, 0, 1);
    lemma_seen_at(dir, 0, 2);
    lemma_seen_at(dir, 0, 3);
    lemma_lines_from(w, g, dir, 0, l);
    lemma_scan_is_merge(line_of(g, dir, l));
}

} // verus!
