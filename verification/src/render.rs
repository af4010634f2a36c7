use vstd::prelude::*;

verus! {

use crate::math::{lemma_tdiv_magnitude, mul_div, tdiv, SCALE};
use crate::model::{Vec2, COORD_LIMIT};

/// Side of the square cell a particle is drawn as, in pixels.
pub const CELL_SIZE: i32 = 10;

/// A pixel position on the render surface.
#[derive(Clone, Copy, Debug, PartialEq, Eq, Structural)]
pub struct ScreenCell {
    pub x: i32,
    pub y: i32,
}

/// Pixel coordinate of one axis: world position plus the view center, less
/// half a unit, times the cell size, brought back to whole pixels with the
/// quotient rounded toward zero, as a float-to-integer cast would round.
fn scaled_to_pixel(w: i64, c: i64) -> (r: i32)
    requires
        -COORD_LIMIT <= w <= COORD_LIMIT,
        -COORD_LIMIT <= c <= COORD_LIMIT,
    ensures
        r == tdiv((w + c - SCALE / 2) * CELL_SIZE, SCALE as int),
{
    let s: i64 = w + c - 500;
    proof {
        lemma_tdiv_magnitude(s * (CELL_SIZE as int), SCALE as int, 210_000int);
    }
    let q: i64 = mul_div(s, CELL_SIZE as i64, SCALE as u64);
    q as i32
}

/// Pixel cell where the renderer draws a particle at `p`, seen from
/// `center`; the drawing itself is the caller's affair.
pub fn screen_cell(p: Vec2, center: Vec2) -> (r: ScreenCell)
    requires
        p.in_bounds(COORD_LIMIT as int),
        center.in_bounds(COORD_LIMIT as int),
    ensures
        r.x == tdiv((p.x + center.x - SCALE / 2) * CELL_SIZE, SCALE as int),
        r.y == tdiv((p.y + center.y - SCALE / 2) * CELL_SIZE, SCALE as int),
{
    ScreenCell { x: scaled_to_pixel(p.x, center.x), y: scaled_to_pixel(p.y, center.y) }
}

} // verus!
