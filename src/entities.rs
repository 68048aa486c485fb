//! The entity store's records, and how they are created.
use vstd::prelude::*;
use crate::geometry::{
    ceil_sqrt, ceil_sqrt_spec, dir_bounded, in_range, is_unit, DIR_ONE, POS_LIMIT, UNIT_TOLERANCE,
};

verus! {

/// Diameter of the avatar.
pub const PLAYER_SIZE: u32 = 64_000;
/// Speed of the avatar, per second.
pub const PLEYER_SPEED: u32 = 500_000;
/// How many roamers a session starts with.
pub const NUMBER_OF_ENEMIES: usize = 4;
/// Speed of every roamer, per second.
pub const ENEMY_SPEED: u32 = 200_000;
/// Diameter of a roamer.
pub const ENEMY_SIZE: u32 = 64_000;

/// The playfield: `[0, width] x [0, height]`.
#[derive(Clone, Copy, Debug, PartialEq, Eq, Structural)]
pub struct Field {
    pub width: u32,
    pub height: u32,
}

/// Which directional keys are held this tick. `up` is toward larger `y`.
#[derive(Clone, Copy, Debug, PartialEq, Eq, Structural)]
pub struct KeyInput {
    pub left: bool,
    pub right: bool,
    pub up: bool,
    pub down: bool,
}

/// The avatar.
#[derive(Clone, Copy, Debug, PartialEq, Eq, Structural)]
pub struct Player {
    pub x: i64,
    pub y: i64,
    pub radius: u32,
    pub alive: bool,
}

/// A roamer: a position, a travel direction of unit length `DIR_ONE`, a radius.
#[derive(Clone, Copy, Debug, PartialEq, Eq, Structural)]
pub struct Enemy {
    pub id: u64,
    pub x: i64,
    pub y: i64,
    pub dx: i64,
    pub dy: i64,
    pub radius: u32,
}

/// Why a session cannot start, or a tick cannot run.
#[derive(Clone, Copy, Debug, PartialEq, Eq, Structural)]
pub enum ConfigError {
    /// A field dimension is zero.
    NonPositiveDimension,
    /// An entity's radius is at least half of a field dimension.
    RadiusTooLarge,
    /// An entity's coordinates are too large, or a roamer's direction is not of unit length.
    InvalidEntity,
}

impl Player {
    pub open spec fn wf(&self) -> bool {
        in_range(self.x as int) && in_range(self.y as int)
    }
}

impl Enemy {
    pub open spec fn wf(&self) -> bool {
        &&& in_range(self.x as int)
        &&& in_range(self.y as int)
        &&& dir_bounded(self.dx as int)
        &&& dir_bounded(self.dy as int)
        &&& is_unit(self.dx as int, self.dy as int)
    }

    pub open spec fn dir_len_sq(&self) -> int {
        self.dx * self.dx + self.dy * self.dy
    }

    /// Whether this roamer satisfies `wf`.
    pub fn is_valid(&self) -> (r: bool)
        ensures
            r == self.wf(),
    {
        if self.x < -POS_LIMIT || self.x > POS_LIMIT || self.y < -POS_LIMIT || self.y > POS_LIMIT {
            return false;
        }
        if self.dx < -2 * DIR_ONE || self.dx > 2 * DIR_ONE || self.dy < -2 * DIR_ONE || self.dy > 2
            * DIR_ONE {
            return false;
        }
        is_unit_exec(self.dx, self.dy)
    }
}

/// Whether `(dx, dy)` satisfies `is_unit`, for components of at most `2^60`.
pub fn is_unit_exec(dx: i64, dy: i64) -> (r: bool)
    requires
        -0x1000_0000_0000_0000 <= dx <= 0x1000_0000_0000_0000,
        -0x1000_0000_0000_0000 <= dy <= 0x1000_0000_0000_0000,
    ensures
        r == is_unit(dx as int, dy as int),
{
    let a: i128 = dx as i128;
    let b: i128 = dy as i128;
    assert(a * a <= 0x100_0000_0000_0000_0000_0000_0000_0000) by (nonlinear_arith)
        requires -0x1000_0000_0000_0000 <= a <= 0x1000_0000_0000_0000;
    assert(b * b <= 0x100_0000_0000_0000_0000_0000_0000_0000) by (nonlinear_arith)
        requires -0x1000_0000_0000_0000 <= b <= 0x1000_0000_0000_0000;
    assert(a * a >= 0 && b * b >= 0) by (nonlinear_arith);
    let len_sq: i128 = a * a + b * b;
    let one: i128 = DIR_ONE as i128;
    let tol: i128 = UNIT_TOLERANCE as i128;
    one * one - tol <= len_sq && len_sq <= one * one + tol
}

/// The avatar at the centre of `field`, alive.
pub open spec fn spawn_player_spec(field: Field) -> Player {
    Player { x: (field.width / 2) as i64, y: (field.height / 2) as i64, radius: PLAYER_SIZE / 2, alive: true }
}

/// The avatar at the centre of the field.
pub fn spawn_player(field: Field) -> (r: Player)
    ensures
        r == spawn_player_spec(field),
        r.wf(),
{
    Player { x: (field.width / 2) as i64, y: (field.height / 2) as i64, radius: PLAYER_SIZE / 2, alive: true }
}

/// Component `c` of a vector scaled to unit length `DIR_ONE`, given the
/// ceiling `r` of the vector's length times `DIR_ONE`; truncated toward zero.
pub open spec fn scaled_component(c: int, r: int) -> int {
    if c >= 0 {
        (c * DIR_ONE * DIR_ONE) / r
    } else {
        -(((-c) * DIR_ONE * DIR_ONE) / r)
    }
}

/// `(a, b)` scaled to length `DIR_ONE`.
pub open spec fn normalized(a: int, b: int) -> (int, int) {
    let r = ceil_sqrt_spec((a * a + b * b) * DIR_ONE * DIR_ONE);
    (scaled_component(a, r), scaled_component(b, r))
}

/// The direction that two draws give: `(a, b)` normalised, or `(DIR_ONE, 0)`
/// where `(a, b)` is zero.
pub open spec fn direction_from_draws(a: int, b: int) -> (int, int) {
    if a == 0 && b == 0 {
        (DIR_ONE as int, 0)
    } else {
        normalized(a, b)
    }
}

proof fn lemma_axis_unit()
    ensures
        is_unit(DIR_ONE as int, 0),
{
    assert(DIR_ONE * DIR_ONE == 1_000_000_000_000int) by (nonlinear_arith);
}

proof fn lemma_square_le(x: int, y: int)
    requires
        0 <= x <= y,
    ensures
        x * x <= y * y,
{
    assert(x * x <= y * y) by (nonlinear_arith)
        requires 0 <= x <= y;
}

proof fn lemma_square_lt(x: int, y: int)
    requires
        0 <= x < y,
    ensures
        x * x < y * y,
{
    assert(x * x < y * y) by (nonlinear_arith)
        requires 0 <= x < y;
}

/// Components truncated from a vector scaled by `s` squared over the ceiling
/// of its length times `s` make a vector of length `s`, up to `8 * s` in the square.
proof fn lemma_truncated_is_unit(a: int, b: int, s: int, r: int, qa: int, qb: int)
    requires
        s == DIR_ONE,
        a >= 0,
        b >= 0,
        a + b >= 1,
        r * r >= (a * a + b * b) * s * s,
        r >= 1,
        (r - 1) * (r - 1) < (a * a + b * b) * s * s,
        qa >= 0,
        qb >= 0,
        qa * r <= a * s * s < (qa + 1) * r,
        qb * r <= b * s * s < (qb + 1) * r,
    ensures
        s * s - UNIT_TOLERANCE <= qa * qa + qb * qb <= s * s,
        qa <= s,
        qb <= s,
{
    let m = a * a + b * b;
    let ss = s * s;
    let rr = r * r;
    let x = ss * ss;
    assert(a * s * s == a * ss && b * s * s == b * ss && m * s * s == m * ss) by (nonlinear_arith)
        requires ss == s * s;
    assert(m >= 1) by (nonlinear_arith)
        requires a >= 0, b >= 0, a + b >= 1, m == a * a + b * b;
    assert(qa * r >= 0 && qb * r >= 0) by (nonlinear_arith)
        requires qa >= 0, qb >= 0, r >= 1;
    // upper bound
    lemma_square_le(qa * r, a * ss);
    lemma_square_le(qb * r, b * ss);
    assert((qa * r) * (qa * r) == (qa * qa) * rr && (a * ss) * (a * ss) == (a * a) * x) by (nonlinear_arith)
        requires rr == r * r, x == ss * ss;
    assert((qb * r) * (qb * r) == (qb * qb) * rr && (b * ss) * (b * ss) == (b * b) * x) by (nonlinear_arith)
        requires rr == r * r, x == ss * ss;
    assert((qa * qa + qb * qb) * rr <= m * x) by (nonlinear_arith)
        requires
            (qa * qa) * rr <= (a * a) * x,
            (qb * qb) * rr <= (b * b) * x,
            m == a * a + b * b;
    assert(m * x <= rr * ss) by (nonlinear_arith)
        requires rr >= m * ss, ss >= 0, x == ss * ss;
    assert(qa * qa + qb * qb <= ss) by (nonlinear_arith)
        requires (qa * qa + qb * qb) * rr <= rr * ss, rr >= 1;
    assert(qa <= s) by (nonlinear_arith)
        requires qa * qa + qb * qb <= s * s, qa >= 0, s >= 0, qb * qb >= 0;
    assert(qb <= s) by (nonlinear_arith)
        requires qa * qa + qb * qb <= s * s, qb >= 0, s >= 0, qa * qa >= 0;
    // lower bound
    assert(r >= s) by (nonlinear_arith)
        requires r * r >= m * ss, ss == s * s, m >= 1, s >= 0, r >= 1;
    lemma_square_lt(a * ss, (qa + 1) * r);
    lemma_square_lt(b * ss, (qb + 1) * r);
    let ta = (qa + 1) * (qa + 1);
    let tb = (qb + 1) * (qb + 1);
    let t = ta + tb;
    assert(((qa + 1) * r) * ((qa + 1) * r) == ta * rr) by (nonlinear_arith)
        requires rr == r * r, ta == (qa + 1) * (qa + 1);
    assert(((qb + 1) * r) * ((qb + 1) * r) == tb * rr) by (nonlinear_arith)
        requires rr == r * r, tb == (qb + 1) * (qb + 1);
    assert(m * x < t * rr) by (nonlinear_arith)
        requires
            (a * a) * x < ta * rr,
            (b * b) * x < tb * rr,
            m == a * a + b * b,
            t == ta + tb;
    assert((r - 1) * (r - 1) * ss <= m * x) by (nonlinear_arith)
        requires (r - 1) * (r - 1) < m * ss, ss >= 0, x == ss * ss;
    assert((ss - 2 * s - 1) * rr <= (r - 1) * (r - 1) * ss) by (nonlinear_arith)
        requires r >= s, s >= 1, ss == s * s, rr == r * r;
    assert(t >= ss - 2 * s) by (nonlinear_arith)
        requires
            (ss - 2 * s - 1) * rr <= (r - 1) * (r - 1) * ss,
            (r - 1) * (r - 1) * ss <= m * x,
            m * x < t * rr,
            rr >= 1;
    assert(qa * qa + qb * qb >= ss - UNIT_TOLERANCE) by (nonlinear_arith)
        requires
            t == (qa + 1) * (qa + 1) + (qb + 1) * (qb + 1),
            t >= ss - 2 * s,
            qa <= s,
            qb <= s,
            s == 1_000_000,
            ss == s * s,
            UNIT_TOLERANCE == 8_000_000;
}

fn scale_component(c: i32, r: u128) -> (s: i64)
    requires
        -0x8000 <= c <= 0x8000,
        r >= 1,
    ensures
        s == scaled_component(c as int, r as int),
        -0x8000_0000_0000_0000 < s < 0x8000_0000_0000_0000,
        c >= 0 ==> s >= 0 && s * r <= c * DIR_ONE * DIR_ONE < (s + 1) * r,
        c < 0 ==> s <= 0 && (-s) * r <= (-c) * DIR_ONE * DIR_ONE < ((-s) + 1) * r,
{
    let one: u128 = DIR_ONE as u128;
    let mag: u128 = if c >= 0 { c as u128 } else { (-c) as u128 };
    let num: u128 = mag * one * one;
    let q: u128 = num / r;
    assert(q <= num) by {
        vstd::arithmetic::div_mod::lemma_div_is_ordered_by_denominator(num as int, 1, r as int);
    }
    assert(q * r <= num < (q + 1) * r) by (nonlinear_arith)
        requires q == num / r, r >= 1;
    if c >= 0 {
        q as i64
    } else {
        -(q as i64)
    }
}

/// A unit direction from two signed draws, see `direction_from_draws`.
pub fn unit_direction(a: i32, b: i32) -> (r: (i64, i64))
    requires
        -0x8000 <= a <= 0x8000,
        -0x8000 <= b <= 0x8000,
    ensures
        r.0 == direction_from_draws(a as int, b as int).0,
        r.1 == direction_from_draws(a as int, b as int).1,
        is_unit(r.0 as int, r.1 as int),
        dir_bounded(r.0 as int),
        dir_bounded(r.1 as int),
{
    proof {
        lemma_axis_unit();
    }
    if a == 0 && b == 0 {
        return (DIR_ONE, 0);
    }
    let one: u128 = DIR_ONE as u128;
    assert(a * a <= 0x4000_0000 && b * b <= 0x4000_0000 && a * a >= 0 && b * b >= 0) by (nonlinear_arith)
        requires -0x8000 <= a <= 0x8000, -0x8000 <= b <= 0x8000;
    let aa: u128 = (a as i64 * a as i64) as u128;
    let bb: u128 = (b as i64 * b as i64) as u128;
    let n: u128 = (aa + bb) * one * one;
    let r: u128 = ceil_sqrt(n);
    assert(r >= 1) by {
        assert(a * a + b * b >= 1) by (nonlinear_arith)
            requires !(a == 0 && b == 0);
        assert(aa + bb >= 1);
        assert(n >= 1) by (nonlinear_arith)
            requires n == (aa + bb) * one * one, aa + bb >= 1, one == 1_000_000;
        assert(r * r >= n);
        if r == 0 {
            assert(r * r == 0) by (nonlinear_arith)
                requires r == 0;
        }
    }
    let nx: i64 = scale_component(a, r);
    let ny: i64 = scale_component(b, r);
    proof {
        let pa: int = if a >= 0 { a as int } else { -a };
        let pb: int = if b >= 0 { b as int } else { -b };
        let qa: int = if a >= 0 { nx as int } else { -nx };
        let qb: int = if b >= 0 { ny as int } else { -ny };
        assert(pa * pa == a * a && pb * pb == b * b) by (nonlinear_arith)
            requires pa == a || pa == -a, pb == b || pb == -b;
        assert(qa * qa == nx * nx && qb * qb == ny * ny) by (nonlinear_arith)
            requires qa == nx || qa == -nx, qb == ny || qb == -ny;
        lemma_truncated_is_unit(pa, pb, DIR_ONE as int, r as int, qa, qb);
    }
    (nx, ny)
}

/// Where a draw in `[0, 2^32)` lands on an axis of length `dim`.
pub open spec fn coord_from_draw(draw: int, dim: int) -> int {
    (draw * dim) / 0x1_0000_0000
}

/// The roamer that four draws give: its position is spread over the whole
/// field, its direction comes from the high halves of the last two draws.
pub open spec fn enemy_from_draws_spec(id: u64, field: Field, rx: u32, ry: u32, da: u32, db: u32) -> Enemy {
    let dir = direction_from_draws((da / 0x1_0000) - 0x8000, (db / 0x1_0000) - 0x8000);
    Enemy {
        id,
        x: coord_from_draw(rx as int, field.width as int) as i64,
        y: coord_from_draw(ry as int, field.height as int) as i64,
        dx: dir.0 as i64,
        dy: dir.1 as i64,
        radius: ENEMY_SIZE / 2,
    }
}

/// A roamer built from four uniform draws.
pub fn spawn_enemy_from_draws(id: u64, field: Field, rx: u32, ry: u32, da: u32, db: u32) -> (r: Enemy)
    ensures
        r == enemy_from_draws_spec(id, field, rx, ry, da, db),
        r.wf(),
        0 <= r.x < field.width || field.width == 0,
        0 <= r.y < field.height || field.height == 0,
{
    assert((rx as u64) * (field.width as u64) <= 0xffff_ffffu64 * 0xffff_ffffu64) by (nonlinear_arith)
        requires rx <= 0xffff_ffffu32, field.width <= 0xffff_ffffu32;
    assert((ry as u64) * (field.height as u64) <= 0xffff_ffffu64 * 0xffff_ffffu64) by (nonlinear_arith)
        requires ry <= 0xffff_ffffu32, field.height <= 0xffff_ffffu32;
    let x: u64 = ((rx as u64) * (field.width as u64)) / 0x1_0000_0000;
    let y: u64 = ((ry as u64) * (field.height as u64)) / 0x1_0000_0000;
    proof {
        assert(x <= field.width && (field.width > 0 ==> x < field.width)) by (nonlinear_arith)
            requires x == ((rx as u64) * (field.width as u64)) / 0x1_0000_0000, rx < 0x1_0000_0000;
        assert(y <= field.height && (field.height > 0 ==> y < field.height)) by (nonlinear_arith)
            requires y == ((ry as u64) * (field.height as u64)) / 0x1_0000_0000, ry < 0x1_0000_0000;
    }
    let a: i32 = (da / 0x1_0000) as i32 - 0x8000;
    let b: i32 = (db / 0x1_0000) as i32 - 0x8000;
    let dir = unit_direction(a, b);
    Enemy { id, x: x as i64, y: y as i64, dx: dir.0, dy: dir.1, radius: ENEMY_SIZE / 2 }
}

/// Relies on rand's `OsRng` through `RngCore::try_fill_bytes`: four bytes
/// from the operating system's generator, or `None` where it reports an error.
/// Nothing is promised of the value.
#[verifier::external_body]
fn os_draw() -> (r: Option<u32>) {
    let mut buf = [0u8; 4];
    match rand::RngCore::try_fill_bytes(&mut rand::rngs::OsRng, &mut buf) {
        Ok(()) => Some(u32::from_le_bytes(buf)),
        Err(_) => None,
    }
}

/// A uniform draw, or zero where the operating system cannot give one.
fn draw() -> u32 {
    match os_draw() {
        Some(v) => v,
        None => 0,
    }
}

/// `NUMBER_OF_ENEMIES` roamers with random positions in the field and random
/// unit directions, numbered from zero in creation order.
pub fn spawn_enemies(field: Field) -> (r: Vec<Enemy>)
    ensures
        r@.len() == NUMBER_OF_ENEMIES,
        forall|i: int|
            0 <= i < r@.len() ==> {
                &&& (#[trigger] r@[i]).id == i
                &&& r@[i].wf()
                &&& r@[i].radius == ENEMY_SIZE / 2
                &&& (0 <= r@[i].x < field.width || field.width == 0)
                &&& (0 <= r@[i].y < field.height || field.height == 0)
                &&& exists|rx: u32, ry: u32, da: u32, db: u32|
                    r@[i] == #[trigger] enemy_from_draws_spec(i as u64, field, rx, ry, da, db)
            },
{
    let mut enemies: Vec<Enemy> = Vec::new();
    let mut i: usize = 0;
    while i < NUMBER_OF_ENEMIES
        invariant
            i <= NUMBER_OF_ENEMIES,
            enemies@.len() == i,
            forall|j: int|
                0 <= j < i ==> {
                    &&& (#[trigger] enemies@[j]).id == j
                    &&& enemies@[j].wf()
                    &&& enemies@[j].radius == ENEMY_SIZE / 2
                    &&& (0 <= enemies@[j].x < field.width || field.width == 0)
                    &&& (0 <= enemies@[j].y < field.height || field.height == 0)
                    &&& exists|rx: u32, ry: u32, da: u32, db: u32|
                        enemies@[j] == #[trigger] enemy_from_draws_spec(j as u64, field, rx, ry, da, db)
                },
        decreases NUMBER_OF_ENEMIES - i,
    {
        let rx: u32 = draw();
        let ry: u32 = draw();
        let da: u32 = draw();
        let db: u32 = draw();
        let e = spawn_enemy_from_draws(i as u64, field, rx, ry, da, db);
        let ghost before = enemies@;
        enemies.push(e);
        proof {
            assert forall|j: int| 0 <= j < i + 1 implies {
                &&& (#[trigger] enemies@[j]).id == j
                &&& enemies@[j].wf()
                &&& enemies@[j].radius == ENEMY_SIZE / 2
                &&& (0 <= enemies@[j].x < field.width || field.width == 0)
                &&& (0 <= enemies@[j].y < field.height || field.height == 0)
                &&& exists|x0: u32, y0: u32, a0: u32, b0: u32|
                    enemies@[j] == #[trigger] enemy_from_draws_spec(j as u64, field, x0, y0, a0, b0)
            } by {
                if j < i {
                    assert(enemies@[j] == before[j]);
                } else {
                    assert(enemies@[j] == enemy_from_draws_spec(j as u64, field, rx, ry, da, db));
                }
            }
        }
        i = i + 1;
    }
    enemies
}

} // verus!
