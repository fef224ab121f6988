//! Placing a new tile on an empty cell, chosen by two random draws.

use vstd::prelude::*;
use vstd::arithmetic::power2::{lemma2_to64, pow2};
use vstd::math::abs;
use crate::board::Board;
use crate::grid::{CELLS, is_grid, is_tile_value, on_grid};

verus! {

/// The error of a spawn on a board that has no empty cell.
#[derive(Debug, Clone, Copy, PartialEq, Eq, Structural)]
pub struct EmptyBoardError;

/// A raw draw brought into the range from `min` to `max`, both inclusive:
/// its magnitude modulo the size of the range, counted from `min`.
pub open spec fn scale(raw: i32, min: u32, max: u32) -> int {
    (abs(raw as int) as int) % (max - min + 1) + min
}

/// Some cell of `g` is empty.
pub open spec fn has_empty(g: Seq<nat>) -> bool {
    exists|i: int| on_grid(i) && g[i] == 0
}

/// The empty cells among the first `n` cells of `g`, in ascending order.
pub open spec fn blanks_upto(g: Seq<nat>, n: int) -> Seq<int>
    decreases n,
{
    if n <= 0 {
        Seq::empty()
    } else if g[n - 1] == 0 {
        blanks_upto(g, n - 1).push(n - 1)
    } else {
        blanks_upto(g, n - 1)
    }
}

/// The empty cells of `g`, in ascending order.
pub open spec fn blanks(g: Seq<nat>) -> Seq<int> {
    blanks_upto(g, CELLS as int)
}

/// The cell that the draw `raw_index` picks among the empty cells of `g`.
pub open spec fn spawn_cell(g: Seq<nat>, raw_index: i32) -> int {
    blanks(g)[scale(raw_index, 0, (blanks(g).len() - 1) as u32)]
}

/// The value that the draw `raw_value` picks: of four equally likely
/// outcomes one gives 4 and three give 2.
pub open spec fn spawn_value(raw_value: i32) -> nat {
    if scale(raw_value, 0, 3) == 0 {
        4
    } else {
        2
    }
}

/// The board `g` with a new tile on it, placed by the two draws.
pub open spec fn spawned(g: Seq<nat>, raw_index: i32, raw_value: i32) -> Seq<nat> {
    g.update(spawn_cell(g, raw_index), spawn_value(raw_value))
}

/// `blanks_upto(g, n)` lists exactly the empty cells below `n`, in
/// ascending order.
pub proof fn lemma_blanks_upto(g: Seq<nat>, n: int)
    requires
        0 <= n <= g.len(),
    ensures
        blanks_upto(g, n).len() <= n,
        forall|j: int|
            0 <= j < blanks_upto(g, n).len() ==> 0 <= #[trigger] blanks_upto(g, n)[j] < n
                && g[blanks_upto(g, n)[j]] == 0,
        forall|j: int, k: int|
            0 <= j < k < blanks_upto(g, n).len() ==> blanks_upto(g, n)[j] < blanks_upto(g, n)[k],
        forall|i: int| 0 <= i < n && g[i] == 0 ==> blanks_upto(g, n).contains(i),
    decreases n,
{
    if n > 0 {
        lemma_blanks_upto(g, n - 1);
        let before = blanks_upto(g, n - 1);
        let now = blanks_upto(g, n);
        assert forall|i: int| 0 <= i < n && g[i] == 0 implies now.contains(i) by {
            if i == n - 1 {
                assert(now[now.len() - 1] == i);
            } else {
                let j = choose|j: int| 0 <= j < before.len() && before[j] == i;
                assert(now[j] == i);
            }
        }
    }
}

/// The list of empty cells is non-empty exactly when some cell is empty.
pub proof fn lemma_blanks_has_empty(g: Seq<nat>)
    requires
        is_grid(g),
    ensures
        blanks(g).len() > 0 <==> has_empty(g),
{
    lemma_blanks_upto(g, CELLS as int);
    if blanks(g).len() > 0 {
        assert(on_grid(blanks(g)[0]) && g[blanks(g)[0]] == 0);
    }
    if has_empty(g) {
        let i = choose|i: int| on_grid(i) && g[i] == 0;
        assert(blanks(g).contains(i));
    }
}

/// Brings the raw draw `num` into the range from `min` to `max`, both
/// inclusive.
pub fn scale_rng(num: i32, min: u32, max: u32) -> (scaled: u32)
    requires
        min <= max,
    ensures
        scaled == scale(num, min, max),
        min <= scaled <= max,
{
    let magnitude: u64 = if num < 0 {
        (-(num as i64)) as u64
    } else {
        num as u64
    };
    let span: u64 = (max - min) as u64 + 1;
    let offset: u64 = magnitude % span;
    offset as u32 + min
}

impl Board {
    /// Places a new tile on an empty cell and returns the index of that
    /// cell. The draw `raw_index` picks the cell among the empty cells in
    /// ascending order; the draw `raw_value` picks the value, 4 for one
    /// outcome in four and 2 otherwise. A board without an empty cell is
    /// left as it is, and the error is returned.
    pub fn spawn(&mut self, raw_index: i32, raw_value: i32) -> (placed: Result<
        usize,
        EmptyBoardError,
    >)
        ensures
            placed is Ok <==> has_empty(old(self)@),
            placed matches Ok(index) ==> {
                &&& index == spawn_cell(old(self)@, raw_index)
                &&& index < CELLS
                &&& old(self)@[index as int] == 0
                &&& final(self)@ == spawned(old(self)@, raw_index, raw_value)
            },
            placed is Err ==> *final(self) == *old(self),
            old(self).wf() ==> final(self).wf(),
    {
        let mut blank_cells: Vec<usize> = Vec::new();
        let mut i: usize = 0;
        while i < 16
            invariant
                i <= 16,
                blank_cells@.len() == blanks_upto(self@, i as int).len(),
                forall|j: int|
                    0 <= j < blank_cells@.len() ==> blank_cells@[j] as int == blanks_upto(
                        self@,
                        i as int,
                    )[j],
            decreases 16 - i,
        {
            if self.value(i) == 0 {
                blank_cells.push(i);
            }
            i += 1;
        }
        proof {
            lemma_blanks_upto(self@, CELLS as int);
            lemma_blanks_has_empty(self@);
        }
        if blank_cells.len() == 0 {
            return Err(EmptyBoardError);
        }
        let rand_index: usize = scale_rng(raw_index, 0u32, (blank_cells.len() - 1) as u32) as usize;
        let rand_value: u32 = scale_rng(raw_value, 0u32, 3u32);
        let index: usize = blank_cells[rand_index];
        proof {
            lemma2_to64();
            assert(is_tile_value(2)) by {
                assert(2 == pow2(1));
            }
            assert(is_tile_value(4)) by {
                assert(4 == pow2(2));
            }
        }
        self.set_value(
            index,
            if rand_value == 0 {
                4
            } else {
                2
            },
        );
        Ok(index)
    }
}

} // verus!
