use vstd::prelude::*;

verus! {

/// The four directions in which the tiles of the board can be slid.
#[derive(Debug, Clone, Copy, PartialEq, Eq, Structural)]
pub enum Direction {
    Up,
    Down,
    Left,
    Right,
}

} // verus!
