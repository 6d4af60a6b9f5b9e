//! Fixed-point 2D geometry: points and direction vectors with `i64`
//! milli-unit components, squared distances, overlap tests, and the
//! straight-line motion step shared by enemies and projectiles.

use vstd::prelude::*;
use vstd::arithmetic::mul::lemma_mul_inequality;
use vstd::arithmetic::div_mod::{lemma_div_is_ordered, lemma_div_multiples_vanish};
use crate::num::{abs_val, clamp_val, clamp_i64, sqrt_floor, isqrt};
use crate::num::{lemma_sqrt_floor_unique, lemma_sqrt_floor_lower, lemma_abs_sq, lemma_sq_bound};
use crate::{POS_LIMIT, SPEED_LIMIT, DT_MAX, VIEW_LIMIT, HALF_LIMIT};

verus! {

/// A 2D point or direction vector in milli-units.
#[derive(Clone, Copy, PartialEq, Eq, Structural, Debug)]
pub struct Vec2 {
    pub x: i64,
    pub y: i64,
}

/// The point lies on the playfield: both coordinates within `POS_LIMIT`.
pub open spec fn in_play(p: Vec2) -> bool {
    &&& -POS_LIMIT <= p.x <= POS_LIMIT
    &&& -POS_LIMIT <= p.y <= POS_LIMIT
}

/// A direction vector small enough for exact motion arithmetic: each
/// component at most the span of the playfield.
pub open spec fn dir_bounded(d: Vec2) -> bool {
    &&& abs_val(d.x as int) <= 2 * POS_LIMIT
    &&& abs_val(d.y as int) <= 2 * POS_LIMIT
}

/// Squared Euclidean distance between two points.
pub open spec fn dist_sq(a: Vec2, b: Vec2) -> int {
    (a.x - b.x) * (a.x - b.x) + (a.y - b.y) * (a.y - b.y)
}

/// Squared Euclidean distance, computed exactly.
pub fn dist_sq_at(a: Vec2, b: Vec2) -> (r: i128)
    requires
        in_play(a),
        in_play(b),
    ensures
        r as int == dist_sq(a, b),
{
    let dx: i128 = a.x as i128 - b.x as i128;
    let dy: i128 = a.y as i128 - b.y as i128;
    proof {
        assert(-2_000_000_000_000 <= dx <= 2_000_000_000_000);
        assert(-2_000_000_000_000 <= dy <= 2_000_000_000_000);
        assert(0 <= dx * dx <= 4_000_000_000_000_000_000_000_000) by (nonlinear_arith)
            requires
                -2_000_000_000_000 <= dx <= 2_000_000_000_000,
        ;
        assert(0 <= dy * dy <= 4_000_000_000_000_000_000_000_000) by (nonlinear_arith)
            requires
                -2_000_000_000_000 <= dy <= 2_000_000_000_000,
        ;
    }
    dx * dx + dy * dy
}

/// Two axis-aligned square boxes, centered at `ca` and `cb` with half-extents
/// `ha` and `hb`, overlap (touching counts).
pub open spec fn aabb_overlap(ca: Vec2, ha: int, cb: Vec2, hb: int) -> bool {
    &&& abs_val(ca.x - cb.x) <= ha + hb
    &&& abs_val(ca.y - cb.y) <= ha + hb
}

/// Axis-aligned box overlap test.
pub fn aabb_overlap_at(ca: Vec2, ha: i64, cb: Vec2, hb: i64) -> (r: bool)
    requires
        in_play(ca),
        in_play(cb),
        0 <= ha <= HALF_LIMIT,
        0 <= hb <= HALF_LIMIT,
    ensures
        r == aabb_overlap(ca, ha as int, cb, hb as int),
{
    let dx: i128 = a_minus_b(ca.x, cb.x);
    let dy: i128 = a_minus_b(ca.y, cb.y);
    let ax: i128 = if dx < 0 {
        -dx
    } else {
        dx
    };
    let ay: i128 = if dy < 0 {
        -dy
    } else {
        dy
    };
    let bound: i128 = ha as i128 + hb as i128;
    ax <= bound && ay <= bound
}

/// Difference of two coordinates, widened so it cannot overflow.
fn a_minus_b(a: i64, b: i64) -> (r: i128)
    ensures
        r as int == a - b,
{
    a as i128 - b as i128
}

/// A circle of radius `r` centered at `c` overlaps the axis-aligned square
/// box centered at `bc` with half-extent `bh` (touching counts): the point
/// of the box closest to the circle's center lies within `r` of it.
pub open spec fn circle_box_overlap(c: Vec2, r: int, bc: Vec2, bh: int) -> bool {
    let px = clamp_val(c.x as int, bc.x - bh, bc.x + bh);
    let py = clamp_val(c.y as int, bc.y - bh, bc.y + bh);
    (c.x - px) * (c.x - px) + (c.y - py) * (c.y - py) <= r * r
}

/// Circle versus axis-aligned box overlap test.
pub fn circle_box_overlap_at(c: Vec2, r: i64, bc: Vec2, bh: i64) -> (res: bool)
    requires
        in_play(c),
        in_play(bc),
        0 <= r <= HALF_LIMIT,
        0 <= bh <= HALF_LIMIT,
    ensures
        res == circle_box_overlap(c, r as int, bc, bh as int),
{
    let px: i64 = clamp_i64(c.x, bc.x - bh, bc.x + bh);
    let py: i64 = clamp_i64(c.y, bc.y - bh, bc.y + bh);
    let dx: i128 = a_minus_b(c.x, px);
    let dy: i128 = a_minus_b(c.y, py);
    proof {
        assert(-3_000_000_000_000 <= dx <= 3_000_000_000_000);
        assert(-3_000_000_000_000 <= dy <= 3_000_000_000_000);
        assert(0 <= dx * dx <= 9_000_000_000_000_000_000_000_000) by (nonlinear_arith)
            requires
                -3_000_000_000_000 <= dx <= 3_000_000_000_000,
        ;
        assert(0 <= dy * dy <= 9_000_000_000_000_000_000_000_000) by (nonlinear_arith)
            requires
                -3_000_000_000_000 <= dy <= 3_000_000_000_000,
        ;
        let rw = r as i128;
        assert(0 <= rw * rw <= 1_000_000_000_000_000_000) by (nonlinear_arith)
            requires
                0 <= rw <= 1_000_000_000,
        ;
    }
    dx * dx + dy * dy <= (r as i128) * (r as i128)
}

/// Squared length of a direction vector.
pub open spec fn norm_sq(d: Vec2) -> int {
    d.x * d.x + d.y * d.y
}

/// Floor of the length of a direction vector.
pub open spec fn dir_len(d: Vec2) -> int {
    sqrt_floor(norm_sq(d))
}

/// `num * d / den`, keeping the sign of `d`, with the magnitude rounded down.
pub open spec fn scaled(d: int, num: int, den: int) -> int {
    if d >= 0 {
        (d * num) / den
    } else {
        -(((-d) * num) / den)
    }
}

/// Where a straight-line mover ends up after `dt` milliseconds: the position
/// advances by `speed * dt` milli-units along the direction vector (each
/// axis scaled by the vector's floor length, rounded toward zero), then is
/// clamped onto the playfield. A vector of zero length leaves the position
/// unchanged.
pub open spec fn advance(p: Vec2, d: Vec2, speed: int, dt: int) -> Vec2 {
    let len = dir_len(d);
    if len <= 0 {
        p
    } else {
        let step = speed * dt;
        Vec2 {
            x: clamp_val(p.x + scaled(d.x as int, step, len), -POS_LIMIT as int, POS_LIMIT as int) as i64,
            y: clamp_val(p.y + scaled(d.y as int, step, len), -POS_LIMIT as int, POS_LIMIT as int) as i64,
        }
    }
}

/// Magnitude of a direction component, widened.
fn abs_u128(v: i64) -> (r: u128)
    ensures
        r as int == abs_val(v as int),
{
    if v >= 0 {
        v as u128
    } else {
        (-(v as i128)) as u128
    }
}

/// `mag * num / len`, rounded down; since `mag` is at most `len`, the result
/// is at most `num`.
fn mag_div(mag: u128, num: u128, len: u128) -> (q: u128)
    requires
        0 < len,
        mag <= len,
        mag <= 9_223_372_036_854_775_808,
        num <= 9_223_372_036_854_775_808,
    ensures
        q as int == (mag as int * num as int) / (len as int),
        q <= num,
{
    proof {
        assert(mag * num <= 85070591730234615865843651857942052864u128) by (nonlinear_arith)
            requires
                0 <= mag <= 9_223_372_036_854_775_808u128,
                0 <= num <= 9_223_372_036_854_775_808u128,
        ;
        lemma_mul_inequality(mag as int, len as int, num as int);
        lemma_div_is_ordered(mag as int * num as int, len as int * num as int, len as int);
        lemma_div_multiples_vanish(num as int, len as int);
    }
    (mag * num) / len
}

/// One straight-line motion step (the Motion Integrator's arithmetic).
pub fn advance_pos(p: Vec2, d: Vec2, speed: i64, dt: u64) -> (r: Vec2)
    requires
        in_play(p),
        dir_bounded(d),
        0 <= speed <= SPEED_LIMIT,
        dt <= DT_MAX,
    ensures
        r == advance(p, d, speed as int, dt as int),
        in_play(r),
{
    let ax: u128 = abs_u128(d.x);
    let ay: u128 = abs_u128(d.y);
    proof {
        lemma_abs_sq(ax as int, d.x as int);
        lemma_abs_sq(ay as int, d.y as int);
        lemma_sq_bound(ax as int, 2_000_000_000_000);
        lemma_sq_bound(ay as int, 2_000_000_000_000);
    }
    let nsq: u128 = ax * ax + ay * ay;
    let len: u128 = isqrt(nsq);
    proof {
        lemma_sqrt_floor_unique(norm_sq(d), len as int);
    }
    if len == 0 {
        return p;
    }
    proof {
        assert(0 <= speed as int * dt as int <= 100_000_000_000_000) by (nonlinear_arith)
            requires
                0 <= speed as int <= 1_000_000,
                0 <= dt as int <= 100_000_000,
        ;
        lemma_sqrt_floor_lower(nsq as int, len as int, ax as int);
        lemma_sqrt_floor_lower(nsq as int, len as int, ay as int);
    }
    let step: u128 = (speed as u128) * (dt as u128);
    let qx: u128 = mag_div(ax, step, len);
    let qy: u128 = mag_div(ay, step, len);
    let ux: i64 = if d.x >= 0 {
        qx as i64
    } else {
        -(qx as i64)
    };
    let uy: i64 = if d.y >= 0 {
        qy as i64
    } else {
        -(qy as i64)
    };
    assert(ux as int == scaled(d.x as int, step as int, len as int));
    assert(uy as int == scaled(d.y as int, step as int, len as int));
    let rx: i64 = clamp_i64(p.x + ux, -POS_LIMIT, POS_LIMIT);
    let ry: i64 = clamp_i64(p.y + uy, -POS_LIMIT, POS_LIMIT);
    Vec2 { x: rx, y: ry }
}

/// Where a freshly spawned enemy stands: at the viewport's center, displaced
/// by one full viewport size along the unit direction the offsets `(rx, ry)`
/// point in (per axis, rounded toward zero). Offsets of zero length fall
/// back to the fixed direction `(1, 0)`.
pub open spec fn spawn_pos(vw: int, vh: int, rx: int, ry: int) -> Vec2 {
    let len = sqrt_floor(rx * rx + ry * ry);
    if len <= 0 {
        Vec2 { x: (vw / 2 + vw) as i64, y: (vh / 2) as i64 }
    } else {
        Vec2 { x: (vw / 2 + scaled(rx, vw, len)) as i64, y: (vh / 2 + scaled(ry, vh, len)) as i64 }
    }
}

/// Compute the spawn position for random offsets `(rx, ry)`.
pub fn spawn_pos_at(vw: i64, vh: i64, rx: i64, ry: i64) -> (r: Vec2)
    requires
        0 <= vw <= VIEW_LIMIT,
        0 <= vh <= VIEW_LIMIT,
    ensures
        r == spawn_pos(vw as int, vh as int, rx as int, ry as int),
        in_play(r),
{
    let half_w: i64 = ((vw as u64) / 2) as i64;
    let half_h: i64 = ((vh as u64) / 2) as i64;
    assert(half_w as int == vw as int / 2);
    assert(half_h as int == vh as int / 2);
    let ax: u128 = abs_u128(rx);
    let ay: u128 = abs_u128(ry);
    proof {
        lemma_abs_sq(ax as int, rx as int);
        lemma_abs_sq(ay as int, ry as int);
        lemma_sq_bound(ax as int, 9_223_372_036_854_775_808);
        lemma_sq_bound(ay as int, 9_223_372_036_854_775_808);
    }
    let nsq: u128 = ax * ax + ay * ay;
    let len: u128 = isqrt(nsq);
    proof {
        lemma_sqrt_floor_unique((rx as int) * (rx as int) + (ry as int) * (ry as int), len as int);
    }
    if len == 0 {
        return Vec2 { x: half_w + vw, y: half_h };
    }
    proof {
        lemma_sqrt_floor_lower(nsq as int, len as int, ax as int);
        lemma_sqrt_floor_lower(nsq as int, len as int, ay as int);
    }
    let qx: u128 = mag_div(ax, vw as u128, len);
    let qy: u128 = mag_div(ay, vh as u128, len);
    let ux: i64 = if rx >= 0 {
        qx as i64
    } else {
        -(qx as i64)
    };
    let uy: i64 = if ry >= 0 {
        qy as i64
    } else {
        -(qy as i64)
    };
    assert(ux as int == scaled(rx as int, vw as int, len as int));
    assert(uy as int == scaled(ry as int, vh as int, len as int));
    Vec2 { x: half_w + ux, y: half_h + uy }
}

} // verus!
