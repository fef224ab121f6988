//! The board and its working copy.

use vstd::prelude::*;
use vstd::arithmetic::power2::{lemma2_to64, lemma_pow2_strictly_increases, pow2};
use crate::grid::{CELLS, empty_grid, is_tile_value, tiles_valid};
use crate::moves::{Move, applicable, apply_moves, lemma_move_keeps_tiles, views};

verus! {

/// The values of sixteen 16-bit cells as natural numbers.
pub open spec fn widen16(cells: Seq<u16>) -> Seq<nat> {
    Seq::new(CELLS as nat, |i: int| cells[i] as nat)
}

/// The values of sixteen 32-bit cells as natural numbers.
pub open spec fn widen32(cells: Seq<u32>) -> Seq<nat> {
    Seq::new(CELLS as nat, |i: int| cells[i] as nat)
}

/// The 4x4 board: one tile value per cell, in row-major order. A cell that
/// holds 0 is empty.
#[derive(Debug, Clone, Copy, PartialEq, Eq)]
pub struct Board {
    cells: [u16; 16],
}

impl Board {
    /// The stored values, cell by cell.
    pub closed spec fn raw(&self) -> Seq<u16> {
        self.cells@
    }
}

impl View for Board {
    type V = Seq<nat>;

    open spec fn view(&self) -> Seq<nat> {
        widen16(self.raw())
    }
}

impl Board {
    /// The board is well formed: every cell is empty or holds the value of
    /// a tile, a power of two from 2 upwards.
    pub open spec fn wf(&self) -> bool {
        tiles_valid(self@)
    }
}

/// A working copy of the board as the contracts see it: the value of each
/// cell, and for each cell whether a merge of the slide that is being
/// planned has ended there.
pub struct WorkingCopy {
    pub cells: Seq<nat>,
    pub merged: Seq<bool>,
}

/// The working copy on which the planning of a slide of `g` starts: the
/// values of `g`, and no cell marked.
pub open spec fn fresh(g: Seq<nat>) -> WorkingCopy {
    WorkingCopy { cells: g, merged: Seq::new(CELLS as nat, |i: int| false) }
}

/// The working copy of a board on which a slide is planned. Its cells are
/// wide enough to hold the value of a merge of any two tiles of a board,
/// and each cell carries a mark that tells whether a merge has ended there.
#[derive(Debug, Clone, Copy, PartialEq, Eq)]
pub struct Simulation {
    cells: [u32; 16],
    merged: [bool; 16],
}

impl Simulation {
    /// The stored values, cell by cell.
    pub closed spec fn raw(&self) -> Seq<u32> {
        self.cells@
    }

    /// The stored marks, cell by cell.
    pub closed spec fn marks(&self) -> Seq<bool> {
        self.merged@
    }
}

impl View for Simulation {
    type V = WorkingCopy;

    open spec fn view(&self) -> WorkingCopy {
        WorkingCopy {
            cells: widen32(self.raw()),
            merged: Seq::new(CELLS as nat, |i: int| self.marks()[i]),
        }
    }
}

impl Board {
    /// The empty board.
    pub fn new() -> (board: Board)
        ensures
            board@ == empty_grid(),
            board.wf(),
    {
        let board = Board { cells: [0u16; 16] };
        assert(board@ =~= empty_grid());
        board
    }

    /// The board that holds `values`, in row-major order.
    pub fn from_values(values: [u16; 16]) -> (board: Board)
        ensures
            board@ == widen16(values@),
    {
        Board { cells: values }
    }

    /// The values of the board, in row-major order.
    pub fn values(&self) -> (values: [u16; 16])
        ensures
            widen16(values@) == self@,
    {
        self.cells
    }

    /// The value of cell `index`.
    pub fn value(&self, index: usize) -> (v: u16)
        requires
            index < CELLS,
        ensures
            v == self@[index as int],
    {
        self.cells[index]
    }

    /// Writes `v` to cell `index`.
    pub fn set_value(&mut self, index: usize, v: u16)
        requires
            index < CELLS,
        ensures
            final(self)@ == old(self)@.update(index as int, v as nat),
    {
        self.cells[index] = v;
        assert(self@ =~= old(self)@.update(index as int, v as nat));
    }
}

impl Board {
    /// Carries out `moves` on the board, in order. For each move the
    /// destination takes the value of the source, doubled for a merge, and
    /// the source is emptied.
    pub fn apply(&mut self, moves: &Vec<Move>)
        requires
            applicable(old(self)@, views(moves@)),
        ensures
            final(self)@ == apply_moves(old(self)@, views(moves@)),
            old(self).wf() ==> final(self).wf(),
    {
        let mut k: usize = 0;
        proof {
            assert(views(moves@).skip(0) =~= views(moves@));
        }
        while k < moves.len()
            invariant
                k <= moves.len(),
                applicable(self@, views(moves@).skip(k as int)),
                apply_moves(old(self)@, views(moves@)) == apply_moves(
                    self@,
                    views(moves@).skip(k as int),
                ),
                old(self).wf() ==> self.wf(),
            decreases moves.len() - k,
        {
            let m: Move = moves[k];
            proof {
                if self.wf() {
                    lemma_move_keeps_tiles(self@, m@);
                }
                assert(views(moves@).skip(k as int)[0] == m@);
                assert(views(moves@).skip(k as int).skip(1) =~= views(moves@).skip(k as int + 1));
            }
            let moved: u16 = self.value(m.start());
            if m.is_merge() {
                self.set_value(m.end(), moved * 2);
            } else {
                self.set_value(m.end(), moved);
            }
            self.set_value(m.start(), 0);
            k += 1;
        }
    }
}

/// A 16-bit value is the value of a tile exactly when it is one of the
/// fifteen powers of two from 2 to 32768, which is when it is at least 2 and
/// has a single bit set.
proof fn lemma_tile_value_bits(v: u16)
    ensures
        is_tile_value(v as nat) <==> v == 0 || (v >= 2 && v & ((v - 1) as u16) == 0),
{
    lemma2_to64();
    if v >= 2 {
        let below = (v - 1) as u16;
        assert(v & below == 0 <==> v == 2 || v == 4 || v == 8 || v == 16 || v == 32 || v == 64 || v
            == 128 || v == 256 || v == 512 || v == 1024 || v == 2048 || v == 4096 || v == 8192 || v
            == 16384 || v == 32768) by (bit_vector)
            requires
                v >= 2,
                below == v - 1,
        ;
        if is_tile_value(v as nat) {
            let k = choose|k: nat| k >= 1 && v == pow2(k);
            if k > 16 {
                lemma_pow2_strictly_increases(16, k);
            }
            assert(k <= 15);
            assert(k == 1 || k == 2 || k == 3 || k == 4 || k == 5 || k == 6 || k == 7 || k == 8 || k
                == 9 || k == 10 || k == 11 || k == 12 || k == 13 || k == 14 || k == 15);
        }
        if v & below == 0 {
            let k: nat = if v == 2 {
                1
            } else if v == 4 {
                2
            } else if v == 8 {
                3
            } else if v == 16 {
                4
            } else if v == 32 {
                5
            } else if v == 64 {
                6
            } else if v == 128 {
                7
            } else if v == 256 {
                8
            } else if v == 512 {
                9
            } else if v == 1024 {
                10
            } else if v == 2048 {
                11
            } else if v == 4096 {
                12
            } else if v == 8192 {
                13
            } else if v == 16384 {
                14
            } else {
                15
            };
            assert(k >= 1 && v == pow2(k));
        }
    } else if v == 1 {
        if is_tile_value(v as nat) {
            let k = choose|k: nat| k >= 1 && v == pow2(k);
            if k > 1 {
                lemma_pow2_strictly_increases(1, k);
            }
        }
    }
}

impl Board {
    /// Whether the board is well formed: every cell is empty or holds the
    /// value of a tile, a power of two from 2 upwards.
    pub fn is_valid(&self) -> (valid: bool)
        ensures
            valid == self.wf(),
    {
        let mut i: usize = 0;
        while i < 16
            invariant
                i <= 16,
                forall|j: int| 0 <= j < i ==> is_tile_value(#[trigger] self@[j]),
            decreases 16 - i,
        {
            let v: u16 = self.value(i);
            proof {
                lemma_tile_value_bits(v);
            }
            if v == 1 || (v >= 2 && v & (v - 1) != 0) {
                return false;
            }
            i += 1;
        }
        true
    }

    /// Whether `moves` can be carried out on the board, in order: each move
    /// is between cells of the board, and each merge gives a value that a
    /// cell can hold.
    pub fn can_apply(&self, moves: &Vec<Move>) -> (ok: bool)
        ensures
            ok == applicable(self@, views(moves@)),
    {
        let mut trial: Board = *self;
        let mut k: usize = 0;
        proof {
            assert(views(moves@).skip(0) =~= views(moves@));
        }
        while k < moves.len()
            invariant
                k <= moves.len(),
                applicable(self@, views(moves@)) == applicable(
                    trial@,
                    views(moves@).skip(k as int),
                ),
            decreases moves.len() - k,
        {
            let m: Move = moves[k];
            proof {
                assert(views(moves@).skip(k as int)[0] == m@);
                assert(views(moves@).skip(k as int).skip(1) =~= views(moves@).skip(k as int + 1));
            }
            if m.start() >= 16 || m.end() >= 16 {
                return false;
            }
            let moved: u16 = trial.value(m.start());
            if m.is_merge() {
                if moved > 32767 {
                    return false;
                }
                trial.set_value(m.end(), moved * 2);
            } else {
                trial.set_value(m.end(), moved);
            }
            trial.set_value(m.start(), 0);
            k += 1;
        }
        true
    }
}

impl Simulation {
    /// A working copy of `board` on which no merge has ended yet.
    pub fn of(board: &Board) -> (sim: Simulation)
        ensures
            sim@ == fresh(board@),
    {
        let mut cells: [u32; 16] = [0u32; 16];
        let mut i: usize = 0;
        while i < 16
            invariant
                i <= 16,
                forall|j: int| 0 <= j < i ==> cells@[j] == board@[j],
            decreases 16 - i,
        {
            cells[i] = board.value(i) as u32;
            i += 1;
        }
        let sim = Simulation { cells, merged: [false; 16] };
        assert(sim@.cells =~= board@);
        assert(sim@.merged =~= fresh(board@).merged);
        sim
    }

    /// The value of cell `index`.
    pub fn value(&self, index: usize) -> (v: u32)
        requires
            index < CELLS,
        ensures
            v == self@.cells[index as int],
    {
        self.cells[index]
    }

    /// Whether a merge has ended at cell `index`.
    pub fn is_merged(&self, index: usize) -> (marked: bool)
        requires
            index < CELLS,
        ensures
            marked == self@.merged[index as int],
    {
        self.merged[index]
    }

    /// Writes `v` to cell `index`.
    pub fn set_value(&mut self, index: usize, v: u32)
        requires
            index < CELLS,
        ensures
            final(self)@.cells == old(self)@.cells.update(index as int, v as nat),
            final(self)@.merged == old(self)@.merged,
    {
        self.cells[index] = v;
        assert(self@.cells =~= old(self)@.cells.update(index as int, v as nat));
        assert(self@.merged =~= old(self)@.merged);
    }

    /// Marks cell `index` as one at which a merge has ended.
    pub fn mark_merged(&mut self, index: usize)
        requires
            index < CELLS,
        ensures
            final(self)@.cells == old(self)@.cells,
            final(self)@.merged == old(self)@.merged.update(index as int, true),
    {
        self.merged[index] = true;
        assert(self@.cells =~= old(self)@.cells);
        assert(self@.merged =~= old(self)@.merged.update(index as int, true));
    }
}

} // verus!
