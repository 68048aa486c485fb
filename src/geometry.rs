//! Fixed-point vector arithmetic: movement, confinement and normalisation.
use vstd::prelude::*;
use vstd::arithmetic::div_mod::lemma_div_is_ordered;

verus! {

/// Length of a unit direction vector.
pub const DIR_ONE: i64 = 1_000_000;

/// Direction units times microseconds per second: the divisor that turns
/// direction times speed times microseconds into a length.
pub const STEP_DIVISOR: u128 = 1_000_000_000_000;

/// Largest magnitude of a coordinate that an entity may hold between ticks.
pub const POS_LIMIT: i64 = 70_368_744_177_664;

/// How far the squared length of a unit direction may stray from `DIR_ONE` squared.
pub const UNIT_TOLERANCE: i64 = 8_000_000;

/// The length of each component of a diagonal unit direction.
pub const DIAGONAL: i64 = 707_106;

/// Distance covered along one axis by direction component `d` at `speed`
/// during `dt` microseconds, truncated toward zero.
pub open spec fn step(d: int, speed: int, dt: int) -> int {
    if d >= 0 {
        (d * speed * dt) / (STEP_DIVISOR as int)
    } else {
        -(((-d) * speed * dt) / (STEP_DIVISOR as int))
    }
}

pub open spec fn in_range(x: int) -> bool {
    -POS_LIMIT <= x <= POS_LIMIT
}

pub open spec fn dir_bounded(d: int) -> bool {
    -2 * DIR_ONE <= d <= 2 * DIR_ONE
}

/// A direction whose length is one, up to the rounding of fixed point.
pub open spec fn is_unit(dx: int, dy: int) -> bool {
    DIR_ONE * DIR_ONE - UNIT_TOLERANCE <= dx * dx + dy * dy <= DIR_ONE * DIR_ONE + UNIT_TOLERANCE
}

/// A coordinate lies outside `[radius, dim - radius]`.
pub open spec fn out_of_bounds(p: int, radius: int, dim: int) -> bool {
    p < radius || p > dim - radius
}

/// `p` clamped to `[radius, dim - radius]`; the midpoint of the axis when
/// that range is empty.
pub open spec fn confine_axis_spec(p: int, radius: int, dim: int) -> int {
    if dim < 2 * radius {
        dim / 2
    } else if p < radius {
        radius
    } else if p > dim - radius {
        dim - radius
    } else {
        p
    }
}

/// Moves coordinate `p` along direction component `d`.
pub fn advance(p: i64, d: i64, speed: u32, dt_us: u32) -> (r: i64)
    requires
        in_range(p as int),
        dir_bounded(d as int),
    ensures
        r == p + step(d as int, speed as int, dt_us as int),
        -2 * POS_LIMIT <= r <= 2 * POS_LIMIT,
{
    let mag: u128 = if d >= 0 { d as u128 } else { (-d) as u128 };
    assert(mag * (speed as u128) <= 2_000_000 * 0xffff_ffffu128) by (nonlinear_arith)
        requires mag <= 2_000_000, speed <= 0xffff_ffffu32;
    let ms: u128 = mag * (speed as u128);
    assert(ms * (dt_us as u128) <= 2_000_000 * 0xffff_ffffu128 * 0xffff_ffffu128) by (nonlinear_arith)
        requires ms <= 2_000_000 * 0xffff_ffffu128, dt_us <= 0xffff_ffffu32;
    let prod: u128 = ms * (dt_us as u128);
    let q: u128 = prod / STEP_DIVISOR;
    proof {
        lemma_div_is_ordered(prod as int, 2_000_000 * 0xffff_ffffu128 * 0xffff_ffffu128, STEP_DIVISOR as int);
    }
    if d >= 0 {
        p + q as i64
    } else {
        p - q as i64
    }
}

/// Clamps one coordinate into the field, see `confine_axis_spec`.
pub fn confine_axis(p: i64, radius: u32, dim: u32) -> (r: i64)
    ensures
        r == confine_axis_spec(p as int, radius as int, dim as int),
        0 <= r <= dim,
{
    let lo: i64 = radius as i64;
    let hi: i64 = dim as i64 - radius as i64;
    if (dim as i64) < 2 * lo {
        (dim / 2) as i64
    } else if p < lo {
        lo
    } else if p > hi {
        hi
    } else {
        p
    }
}

/// Whether a coordinate lies outside `[radius, dim - radius]`.
pub fn is_out_of_bounds(p: i64, radius: u32, dim: u32) -> (r: bool)
    ensures
        r == out_of_bounds(p as int, radius as int, dim as int),
{
    p < radius as i64 || p > dim as i64 - radius as i64
}

pub open spec fn is_ceil_sqrt(n: int, r: int) -> bool {
    r >= 0 && r * r >= n && (r == 0 || (r - 1) * (r - 1) < n)
}

/// The least non-negative integer whose square is at least `n`.
pub open spec fn ceil_sqrt_spec(n: int) -> int {
    choose|r: int| is_ceil_sqrt(n, r)
}

proof fn lemma_ceil_sqrt_unique(n: int, r1: int, r2: int)
    requires
        is_ceil_sqrt(n, r1),
        is_ceil_sqrt(n, r2),
    ensures
        r1 == r2,
{
    if r1 < r2 {
        assert((r2 - 1) * (r2 - 1) >= r1 * r1) by (nonlinear_arith)
            requires 0 <= r1 <= r2 - 1;
    } else if r2 < r1 {
        assert((r1 - 1) * (r1 - 1) >= r2 * r2) by (nonlinear_arith)
            requires 0 <= r2 <= r1 - 1;
    }
}

/// Least integer whose square is at least `n`, by bisection.
pub fn ceil_sqrt(n: u128) -> (r: u128)
    requires
        n <= 0x1_0000_0000_0000_0000_0000_0000,
    ensures
        r == ceil_sqrt_spec(n as int),
        is_ceil_sqrt(n as int, r as int),
        r <= 0x1_0000_0000_0000,
{
    let mut lo: u128 = 0;
    let mut hi: u128 = 0x1_0000_0000_0000;
    while lo < hi
        invariant
            lo <= hi <= 0x1_0000_0000_0000,
            hi * hi >= n,
            lo == 0 || (lo - 1) * (lo - 1) < n,
        decreases hi - lo,
    {
        let mid: u128 = lo + (hi - lo) / 2;
        assert(mid * mid <= 0x1_0000_0000_0000u128 * 0x1_0000_0000_0000u128) by (nonlinear_arith)
            requires mid <= 0x1_0000_0000_0000u128;
        if mid * mid >= n {
            hi = mid;
        } else {
            lo = mid + 1;
        }
    }
    proof {
        assert(is_ceil_sqrt(n as int, lo as int));
        let c = ceil_sqrt_spec(n as int);
        lemma_ceil_sqrt_unique(n as int, c, lo as int);
    }
    lo
}

} // verus!
