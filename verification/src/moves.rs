//! Move descriptors: one tile relocation each.

use vstd::prelude::*;
use vstd::arithmetic::power2::{lemma_pow2_unfold, pow2};
use crate::grid::{is_tile_value, on_grid, tiles_valid};

verus! {

/// What a [`Move`] says, as the contracts see it.
pub struct Descriptor {
    /// Cell that the tile leaves.
    pub start: int,
    /// Cell that the tile arrives at.
    pub end: int,
    /// Whether the tile merges with the tile already at `end`.
    pub merge: bool,
}

/// One tile relocation of a slide.
#[derive(Debug, Clone, Copy, PartialEq, Eq, PartialOrd, Ord, Structural)]
pub struct Move {
    start: usize,
    end: usize,
    upgrade: bool,
}

impl View for Move {
    type V = Descriptor;

    closed spec fn view(&self) -> Descriptor {
        Descriptor { start: self.start as int, end: self.end as int, merge: self.upgrade }
    }
}

/// The descriptors of a list of moves, in order.
pub open spec fn views(moves: Seq<Move>) -> Seq<Descriptor> {
    Seq::new(moves.len(), |i: int| moves[i]@)
}

/// Both ends of `m` are cells of the board, and they differ.
pub open spec fn well_formed(m: Descriptor) -> bool {
    on_grid(m.start) && on_grid(m.end) && m.start != m.end
}

/// `m` may be carried out on `g`: it is well formed, takes a tile, and its
/// destination is empty for a plain move or holds the same value for a merge.
pub open spec fn legal(g: Seq<nat>, m: Descriptor) -> bool {
    &&& well_formed(m)
    &&& g[m.start] != 0
    &&& if m.merge {
        g[m.end] == g[m.start]
    } else {
        g[m.end] == 0
    }
}

/// The board after `m`: the destination takes the source's value, doubled
/// for a merge, and the source is emptied.
pub open spec fn apply_move(g: Seq<nat>, m: Descriptor) -> Seq<nat> {
    g.update(
        m.end,
        if m.merge {
            2 * g[m.start]
        } else {
            g[m.start]
        },
    ).update(m.start, 0)
}

/// The board after the moves of `ms`, carried out in order.
pub open spec fn apply_moves(g: Seq<nat>, ms: Seq<Descriptor>) -> Seq<nat>
    decreases ms.len(),
{
    if ms.len() == 0 {
        g
    } else {
        apply_moves(apply_move(g, ms[0]), ms.skip(1))
    }
}

/// The moves of `ms` can be carried out in order on a board `g` of 16-bit
/// cells: each refers to cells of the board, and each merge yields a value
/// that a cell can hold.
pub open spec fn applicable(g: Seq<nat>, ms: Seq<Descriptor>) -> bool
    decreases ms.len(),
{
    ms.len() == 0 || {
        &&& on_grid(ms[0].start)
        &&& on_grid(ms[0].end)
        &&& ms[0].merge ==> 2 * g[ms[0].start] <= u16::MAX
        &&& applicable(apply_move(g, ms[0]), ms.skip(1))
    }
}

/// A plan that starts with `m`: carrying it out is carrying out `m` and
/// after it the rest.
pub proof fn lemma_apply_moves_first(g: Seq<nat>, m: Descriptor, rest: Seq<Descriptor>)
    ensures
        apply_moves(g, seq![m] + rest) == apply_moves(apply_move(g, m), rest),
        applicable(g, seq![m] + rest) == {
            &&& on_grid(m.start)
            &&& on_grid(m.end)
            &&& m.merge ==> 2 * g[m.start] <= u16::MAX
            &&& applicable(apply_move(g, m), rest)
        },
{
    let ms = seq![m] + rest;
    assert(ms[0] == m);
    assert(ms.skip(1) =~= rest);
}

/// The double of a tile value is a tile value.
pub proof fn lemma_double_is_tile_value(v: nat)
    requires
        is_tile_value(v),
    ensures
        is_tile_value(2 * v),
{
    if v != 0 {
        let k = choose|k: nat| k >= 1 && v == pow2(k);
        lemma_pow2_unfold(k + 1);
        assert(2 * v == pow2(k + 1));
    }
}

/// A move between cells of the board leaves a board of tile values a
/// board of tile values.
pub proof fn lemma_move_keeps_tiles(g: Seq<nat>, m: Descriptor)
    requires
        tiles_valid(g),
        on_grid(m.start),
        on_grid(m.end),
    ensures
        tiles_valid(apply_move(g, m)),
{
    lemma_double_is_tile_value(g[m.start]);
}

impl Move {
    /// A plain move from `positions.0` to `positions.1`.
    pub fn new(positions: (usize, usize)) -> (m: Move)
        ensures
            m@ == (Descriptor { start: positions.0 as int, end: positions.1 as int, merge: false }),
    {
        Move { start: positions.0, end: positions.1, upgrade: false }
    }

    /// Marks the move as a merge and returns a copy of it.
    pub fn upgrade(&mut self) -> (m: Move)
        ensures
            final(self)@ == (Descriptor { merge: true, ..old(self)@ }),
            m == *final(self),
    {
        self.upgrade = true;
        *self
    }

    /// Cell that the tile leaves.
    pub fn start(&self) -> (i: usize)
        ensures
            i == self@.start,
    {
        self.start
    }

    /// Cell that the tile arrives at.
    pub fn end(&self) -> (i: usize)
        ensures
            i == self@.end,
    {
        self.end
    }

    /// Whether the tile merges with the tile at its destination.
    pub fn is_merge(&self) -> (b: bool)
        ensures
            b == self@.merge,
    {
        self.upgrade
    }
}

} // verus!
