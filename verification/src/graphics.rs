//! What the display needs of the engine: where things stand on the screen,
//! which picture shows a tile, and how the pictures move and fade.

use vstd::prelude::*;
use crate::grid::{CELLS, SIDE, col_of, on_grid, row_of};
use crate::moves::{Descriptor, Move, views};
use vstd::arithmetic::div_mod::lemma_fundamental_div_mod;
use vstd::arithmetic::power2::{
    lemma2_to64,
    lemma_pow2_pos,
    lemma_pow2_strictly_increases,
    lemma_pow2_unfold,
    pow2,
};
use vstd::bits::lemma_u16_shr_is_div;
use vstd::std_specs::bits::axiom_u16_leading_zeros;

verus! {

/// Horizontal screen position of the left edge of the board.
pub const TOP_LEFT_X: i32 = 56;

/// Vertical screen position of the top edge of the board.
pub const TOP_LEFT_Y: i32 = 16;

/// Width and height of a tile on the screen.
pub const TILE_SIZE: u32 = 32;

/// Number of frames that the animation of a slide takes.
pub const ANIMATION_TIME: i32 = 8;

/// Number of frames that the animation of the menu takes.
pub const START_ANIMATION: i32 = ANIMATION_TIME * 4;

/// A position, on the board in cells or on the screen in pixels: `x` grows
/// to the right and `y` downwards.
#[derive(Debug, Clone, Copy, PartialEq, Eq, Structural)]
pub struct Point {
    pub x: i32,
    pub y: i32,
}

/// What the display is to do with one cell after a slide.
#[derive(Debug, Clone, Copy, PartialEq, Eq)]
pub struct Hint {
    /// The picture of the cell has to be chosen anew.
    pub update_obj: bool,
    /// The tile of the cell is to be shown on its way to this cell of the
    /// board.
    pub animate: Option<Point>,
}

/// The position of cell `i` on the board: its column and its row.
pub open spec fn point_at(i: int) -> Point {
    Point { x: col_of(i) as i32, y: row_of(i) as i32 }
}

/// The quotient of `a` by `b`, rounded towards zero.
pub open spec fn quotient_towards_zero(a: int, b: int) -> int {
    if a >= 0 {
        a / b
    } else {
        -((-a) / b)
    }
}

/// The hints of a board on which nothing has moved.
pub open spec fn no_hints() -> Seq<Hint> {
    Seq::new(CELLS as nat, |i: int| Hint { update_obj: false, animate: None })
}

/// The hints after the move `m`: the cell that the tile leaves is to be
/// drawn anew and its tile shown on the way to the destination; the
/// destination is to be drawn anew.
pub open spec fn hint_move(hints: Seq<Hint>, m: Descriptor) -> Seq<Hint> {
    let left = hints.update(m.start, Hint { update_obj: true, animate: Some(point_at(m.end)) });
    left.update(m.end, Hint { update_obj: true, animate: left[m.end].animate })
}

/// The hints after the moves of `ms`, in order.
pub open spec fn hints_of(ms: Seq<Descriptor>) -> Seq<Hint>
    decreases ms.len(),
{
    if ms.len() == 0 {
        no_hints()
    } else {
        hint_move(hints_of(ms.drop_last()), ms.last())
    }
}

/// The level of darkening after frame `anim_frame`: it goes up by one on
/// every other frame, up to 4.
pub open spec fn blend_level_after(anim_frame: int, blend_lvl: int) -> int {
    if anim_frame % 2 == 0 && blend_lvl < 4 {
        blend_lvl + 1
    } else {
        blend_lvl
    }
}

/// The position of cell `index` on the board: its column and its row.
pub fn position_of(index: usize) -> (pos: Point)
    requires
        index < CELLS,
    ensures
        pos == point_at(index as int),
        0 <= pos.x < SIDE,
        0 <= pos.y < SIDE,
{
    Point { x: (index % 4) as i32, y: (index / 4) as i32 }
}

/// The position on the screen of the tile at position `pos` of the board.
pub fn screen_position(pos: Point) -> (at: Point)
    requires
        0 <= pos.x < SIDE,
        0 <= pos.y < SIDE,
    ensures
        at.x == TOP_LEFT_X + pos.x * TILE_SIZE,
        at.y == TOP_LEFT_Y + pos.y * TILE_SIZE,
{
    Point { x: TOP_LEFT_X + pos.x * 32, y: TOP_LEFT_Y + pos.y * 32 }
}

/// How far a tile on its way from `from` to `to`, both positions of the
/// board, goes on the screen in one frame: the distance on the screen,
/// divided by one more than the number of frames and rounded towards zero.
pub fn animation_step(from: Point, to: Point) -> (step: Point)
    requires
        0 <= from.x < SIDE,
        0 <= from.y < SIDE,
        0 <= to.x < SIDE,
        0 <= to.y < SIDE,
    ensures
        step.x == quotient_towards_zero((to.x - from.x) * TILE_SIZE, ANIMATION_TIME + 1),
        step.y == quotient_towards_zero((to.y - from.y) * TILE_SIZE, ANIMATION_TIME + 1),
{
    Point { x: pixels_per_frame(from.x, to.x), y: pixels_per_frame(from.y, to.y) }
}

/// One coordinate of [`animation_step`].
fn pixels_per_frame(from: i32, to: i32) -> (step: i32)
    requires
        0 <= from < SIDE,
        0 <= to < SIDE,
    ensures
        step == quotient_towards_zero((to - from) * TILE_SIZE, ANIMATION_TIME + 1),
{
    if to >= from {
        ((to - from) * 32) / (ANIMATION_TIME + 1)
    } else {
        -(((from - to) * 32) / (ANIMATION_TIME + 1))
    }
}

/// The position on the screen of letter `i` of the menu's line of text.
pub fn letter_position(i: usize) -> (at: Point)
    requires
        i < SIDE,
    ensures
        at.x == TOP_LEFT_X + TILE_SIZE * i,
        at.y == TOP_LEFT_Y + TILE_SIZE,
{
    Point { x: TOP_LEFT_X + 32 * (i as i32), y: TOP_LEFT_Y + 32 }
}

/// The position on the screen of the menu's button.
pub fn button_position() -> (at: Point)
    ensures
        at.x == TOP_LEFT_X + TILE_SIZE,
        at.y == TOP_LEFT_Y + TILE_SIZE * 2,
{
    Point { x: TOP_LEFT_X + 32, y: TOP_LEFT_Y + 64 }
}

/// Whether a letter at `pos` has gone off the top of the screen and come in
/// again from below.
pub fn is_above(pos: Point) -> (above: bool)
    ensures
        above == (128 < pos.y < 192),
{
    pos.y > 128 && pos.y < 192
}

/// Whether letter `letter` of the menu's line of text sets off at frame
/// `anim_frame` of the menu's animation: one letter after the other, every
/// four frames.
pub fn letter_sets_off(anim_frame: i32, letter: usize) -> (off: bool)
    requires
        0 <= anim_frame,
    ensures
        off == ((anim_frame % 16) / 4 == letter),
{
    let turn: i32 = (anim_frame % 16) / 4;
    letter < 4 && turn == letter as i32
}

/// The level of darkening after frame `anim_frame`, where it was
/// `blend_lvl` before: it goes up by one on every other frame, up to 4.
pub fn next_blend_level(anim_frame: i32, blend_lvl: usize) -> (level: usize)
    requires
        0 <= anim_frame,
    ensures
        level == blend_level_after(anim_frame as int, blend_lvl as int),
{
    if anim_frame % 2 == 0 && blend_lvl < 4 {
        blend_lvl + 1
    } else {
        blend_lvl
    }
}

impl Move {
    /// The positions on the board of the cell that the tile leaves and of
    /// the cell that it arrives at.
    pub fn to_vec2d(&self) -> (ends: (Point, Point))
        requires
            on_grid(self@.start),
            on_grid(self@.end),
        ensures
            ends.0 == point_at(self@.start),
            ends.1 == point_at(self@.end),
    {
        (position_of(self.start()), position_of(self.end()))
    }
}

/// What the display is to do with each cell after the moves of a slide: a
/// cell that a tile left or arrived at is to be drawn anew, and the tile
/// that left a cell is to be shown on its way to where it went.
pub fn display_hints(moves: &Vec<Move>) -> (hints: [Hint; 16])
    requires
        forall|j: int|
            0 <= j < moves@.len() ==> on_grid(#[trigger] moves@[j]@.start) && on_grid(
                moves@[j]@.end,
            ),
    ensures
        hints@ == hints_of(views(moves@)),
{
    let mut hints: [Hint; 16] = [Hint { update_obj: false, animate: None };16];
    let mut k: usize = 0;
    proof {
        assert(hints@ =~= no_hints());
        assert(views(moves@).take(0).len() == 0);
    }
    while k < moves.len()
        invariant
            k <= moves.len(),
            hints@ == hints_of(views(moves@).take(k as int)),
            forall|j: int|
                0 <= j < moves@.len() ==> on_grid(#[trigger] moves@[j]@.start) && on_grid(
                    moves@[j]@.end,
                ),
        decreases moves.len() - k,
    {
        let m: Move = moves[k];
        proof {
            let upto = views(moves@).take(k as int + 1);
            assert(upto.drop_last() =~= views(moves@).take(k as int));
            assert(upto.last() == m@);
            assert(on_grid(moves@[k as int]@.start));
        }
        let ends = m.to_vec2d();
        hints[m.start()] = Hint { update_obj: true, animate: Some(ends.1) };
        let target = hints[m.end()].animate;
        hints[m.end()] = Hint { update_obj: true, animate: target };
        k += 1;
    }
    proof {
        assert(views(moves@).take(moves@.len() as int) =~= views(moves@));
    }
    hints
}

/// A value whose highest set bit is bit `s` lies between the `s`-th power of
/// two and the next.
proof fn lemma_highest_bit_bounds(value: u16, s: u16)
    requires
        s < 16,
        (value >> s) & 1u16 != 0u16,
        s < 15 ==> value >> ((s + 1) as u16) == 0u16,
    ensures
        pow2(s as nat) <= value < pow2((s + 1) as nat),
{
    let t = (s + 1) as u16;
    assert(value >> s == 1u16) by (bit_vector)
        requires
            s < 16,
            (value >> s) & 1u16 != 0u16,
            s < 15 ==> value >> t == 0u16,
            t == s + 1,
    ;
    lemma_u16_shr_is_div(value, s);
    lemma_pow2_pos(s as nat);
    lemma_fundamental_div_mod(value as int, pow2(s as nat) as int);
    lemma_pow2_unfold((s + 1) as nat);
}

/// The index of the picture of a tile among the pictures of the tiles 2, 4,
/// 8 and so on: one less than the position of the highest set bit of
/// `value`, so the index of the tile `2^k` is `k - 1`. An empty cell has no
/// picture.
pub fn value_to_sprite_index(value: u16) -> (index: Option<usize>)
    requires
        value != 1,
    ensures
        index is None <==> value == 0,
        index matches Some(i) ==> i <= 14 && pow2((i + 1) as nat) <= value < pow2((i + 2) as nat),
        forall|k: nat| 1 <= k && value == pow2(k) ==> (index matches Some(i) && i + 1 == k),
{
    if value == 0 {
        proof {
            assert forall|k: nat| 1 <= k implies value != pow2(k) by {
                lemma_pow2_pos(k);
            }
        }
        None
    } else {
        let zeros: u32 = value.leading_zeros();
        proof {
            axiom_u16_leading_zeros(value);
            let s = (15 - zeros) as u16;
            lemma_highest_bit_bounds(value, s);
            lemma2_to64();
            assert(s >= 1);
            assert forall|k: nat| 1 <= k && value == pow2(k) implies k == s by {
                if k < s {
                    lemma_pow2_strictly_increases(k, s as nat);
                }
                if k > s {
                    lemma_pow2_unfold((s + 1) as nat);
                    if k > s + 1 {
                        lemma_pow2_strictly_increases((s + 1) as nat, k);
                    }
                }
            }
        }
        let log2_floor: u32 = 15 - zeros;
        Some((log2_floor - 1) as usize)
    }
}

} // verus!
