//! Integer geometry for the board canvas.
//!
//! Coordinates are stored as whole counts of a fixed sub-unit: one canvas
//! unit is `COORD_SCALE` sub-units. Keeping positions, sizes and the view
//! rectangle as integers makes every geometric rule here exact; the
//! presentation layer converts to and from its own fractional coordinates
//! when it draws.

use vstd::arithmetic::div_mod::{
    lemma_div_is_ordered, lemma_fundamental_div_mod, lemma_fundamental_div_mod_converse,
    lemma_mod_division_less_than_divisor, lemma_mod_multiples_basic,
};
use vstd::arithmetic::mul::lemma_mul_nonnegative;
use vstd::prelude::*;

verus! {

/// Number of stored sub-units in one canvas unit.
pub const COORD_SCALE: i64 = 1000;

/// A 2D point or extent on the canvas, in sub-units.
#[derive(Clone, Copy, Debug, PartialEq, Eq, Structural)]
pub struct Vec2i {
    pub x: i64,
    pub y: i64,
}

/// An axis-aligned rectangle: top-left corner and extent, in sub-units.
#[derive(Clone, Copy, Debug, PartialEq, Eq, Structural)]
pub struct Recti {
    pub min: Vec2i,
    pub size: Vec2i,
}

/// The multiple of `g` nearest to `v`, ties rounded away from zero.
pub open spec fn snap_axis(v: int, g: int) -> int
    recommends
        g >= 1,
{
    if v >= 0 {
        g * ((v + g / 2) / g)
    } else {
        -(g * ((-v + g / 2) / g))
    }
}

/// Bounds under which snapping one axis cannot overflow an `i64`.
pub open spec fn snap_in_range(v: int, g: int) -> bool {
    -(i64::MAX - g) <= v <= i64::MAX - g
}

/// Rounding `v` to a nonnegative multiple of `g`, for `v >= 0`.
fn snap_axis_nonneg(v: i64, g: i64) -> (r: i64)
    requires
        1 <= g,
        0 <= v,
        v + g <= i64::MAX,
    ensures
        r as int == snap_axis(v as int, g as int),
        0 <= r <= v + g / 2,
{
    let half: i64 = g / 2;
    let q: i64 = (v + half) / g;
    proof {
        lemma_fundamental_div_mod(v + half, g as int);
        lemma_mod_division_less_than_divisor(v + half, g as int);
        lemma_div_is_ordered(0, v + half, g as int);
        lemma_mul_nonnegative(g as int, q as int);
        assert(g * q == (v + half) - (v + half) % (g as int));
    }
    q * g
}

/// Snap a position to the grid of cell size `grid`: each axis moves
/// independently to the nearest multiple of `grid`, ties away from zero.
pub fn snap_to_grid(pos: Vec2i, grid: i64) -> (r: Vec2i)
    requires
        1 <= grid,
        snap_in_range(pos.x as int, grid as int),
        snap_in_range(pos.y as int, grid as int),
    ensures
        r.x == snap_axis(pos.x as int, grid as int),
        r.y == snap_axis(pos.y as int, grid as int),
{
    let x = if pos.x >= 0 {
        snap_axis_nonneg(pos.x, grid)
    } else {
        -snap_axis_nonneg(-pos.x, grid)
    };
    let y = if pos.y >= 0 {
        snap_axis_nonneg(pos.y, grid)
    } else {
        -snap_axis_nonneg(-pos.y, grid)
    };
    Vec2i { x, y }
}

/// The snapped value is a multiple of the grid, and lies within half a
/// cell of the value it came from: it is the nearest such multiple.
pub proof fn lemma_snap_nearest(v: int, g: int)
    requires
        g >= 1,
    ensures
        snap_axis(v, g) % g == 0,
        -(g / 2) <= snap_axis(v, g) - v <= g / 2,
{
    if v >= 0 {
        let q = (v + g / 2) / g;
        lemma_fundamental_div_mod(v + g / 2, g);
        lemma_mod_division_less_than_divisor(v + g / 2, g);
        lemma_mod_multiples_basic(q, g);
        assert(snap_axis(v, g) == q * g);
        assert(g * q == (v + g / 2) - (v + g / 2) % g);
    } else {
        let m = -v;
        let q = (m + g / 2) / g;
        lemma_fundamental_div_mod(m + g / 2, g);
        lemma_mod_division_less_than_divisor(m + g / 2, g);
        lemma_mod_multiples_basic(-q, g);
        assert(snap_axis(v, g) == -(g * q));
        assert(-(g * q) == (-q) * g) by (nonlinear_arith);
        assert(g * q == (m + g / 2) - (m + g / 2) % g);
    }
}

/// Snapping leaves a multiple of the grid unchanged, so snapping twice
/// gives the same point as snapping once.
pub proof fn lemma_snap_idempotent(v: int, g: int)
    requires
        g >= 1,
    ensures
        snap_axis(snap_axis(v, g), g) == snap_axis(v, g),
{
    if v >= 0 {
        let k = (v + g / 2) / g;
        lemma_fundamental_div_mod(v + g / 2, g);
        lemma_div_is_ordered(0, v + g / 2, g);
        assert(k >= 0);
        lemma_fundamental_div_mod_converse(g * k + g / 2, g, k, g / 2);
        assert(snap_axis(g * k, g) == g * ((g * k + g / 2) / g));
        assert((g * k + g / 2) / g == k);
    } else {
        let k = (-v + g / 2) / g;
        lemma_fundamental_div_mod(-v + g / 2, g);
        lemma_div_is_ordered(0, -v + g / 2, g);
        assert(k >= 0);
        lemma_fundamental_div_mod_converse(g * k + g / 2, g, k, g / 2);
        if k == 0 {
            assert(snap_axis(0, g) == g * ((g / 2) / g));
            lemma_fundamental_div_mod_converse(g * 0 + g / 2, g, 0, g / 2);
        } else {
            assert(snap_axis(v, g) == -(g * k));
            assert(g * k > 0) by (nonlinear_arith)
                requires
                    g >= 1,
                    k >= 1,
            ;
            assert(snap_axis(-(g * k), g) == -(g * ((g * k + g / 2) / g)));
        }
    }
}

} // verus!
