//! The per-tick steps: movement, reflection, confinement and contact.
use vstd::prelude::*;
use crate::geometry::{
    advance, confine_axis, confine_axis_spec, dir_bounded, in_range, is_out_of_bounds, is_unit,
    out_of_bounds, step, DIAGONAL, DIR_ONE, POS_LIMIT,
};
use crate::entities::{Enemy, Field, KeyInput, Player, ENEMY_SPEED, PLEYER_SPEED};

verus! {

/// The avatar's direction for the keys held: opposite keys cancel, and a
/// diagonal is scaled down so that it is as fast as an axis.
pub open spec fn input_direction(input: KeyInput) -> (int, int) {
    let h = (if input.right { 1int } else { 0int }) - (if input.left { 1int } else { 0int });
    let v = (if input.up { 1int } else { 0int }) - (if input.down { 1int } else { 0int });
    if h != 0 && v != 0 {
        (h * DIAGONAL, v * DIAGONAL)
    } else {
        (h * DIR_ONE, v * DIR_ONE)
    }
}

/// The avatar after moving for `dt` microseconds; a removed avatar stays put.
pub open spec fn moved_player(p: Player, input: KeyInput, dt: int) -> Player {
    if p.alive {
        let d = input_direction(input);
        Player {
            x: (p.x + step(d.0, PLEYER_SPEED as int, dt)) as i64,
            y: (p.y + step(d.1, PLEYER_SPEED as int, dt)) as i64,
            ..p
        }
    } else {
        p
    }
}

/// The avatar clamped into the field; a removed avatar stays put.
pub open spec fn confined_player(p: Player, field: Field) -> Player {
    if p.alive {
        Player {
            x: confine_axis_spec(p.x as int, p.radius as int, field.width as int) as i64,
            y: confine_axis_spec(p.y as int, p.radius as int, field.height as int) as i64,
            ..p
        }
    } else {
        p
    }
}

/// A roamer after moving along its direction for `dt` microseconds.
pub open spec fn moved_enemy(e: Enemy, dt: int) -> Enemy {
    Enemy {
        x: (e.x + step(e.dx as int, ENEMY_SPEED as int, dt)) as i64,
        y: (e.y + step(e.dy as int, ENEMY_SPEED as int, dt)) as i64,
        ..e
    }
}

pub open spec fn out_x(e: Enemy, field: Field) -> bool {
    out_of_bounds(e.x as int, e.radius as int, field.width as int)
}

pub open spec fn out_y(e: Enemy, field: Field) -> bool {
    out_of_bounds(e.y as int, e.radius as int, field.height as int)
}

/// Whether the roamer's direction flips: it lies outside the field on some axis.
pub open spec fn bounces(e: Enemy, field: Field) -> bool {
    out_x(e, field) || out_y(e, field)
}

/// The roamer with its direction flipped on the first axis, x before y,
/// on which it lies outside the field.
pub open spec fn reflected_enemy(e: Enemy, field: Field) -> Enemy {
    if out_x(e, field) {
        Enemy { dx: -e.dx as i64, ..e }
    } else if out_y(e, field) {
        Enemy { dy: -e.dy as i64, ..e }
    } else {
        e
    }
}

/// The roamer clamped into the field.
pub open spec fn confined_enemy(e: Enemy, field: Field) -> Enemy {
    Enemy {
        x: confine_axis_spec(e.x as int, e.radius as int, field.width as int) as i64,
        y: confine_axis_spec(e.y as int, e.radius as int, field.height as int) as i64,
        ..e
    }
}

/// The ids of the roamers that bounce, in roamer order.
pub open spec fn bounced_ids(es: Seq<Enemy>, field: Field) -> Seq<u64>
    decreases es.len(),
{
    if es.len() == 0 {
        Seq::empty()
    } else {
        let rest = bounced_ids(es.drop_last(), field);
        if bounces(es.last(), field) {
            rest.push(es.last().id)
        } else {
            rest
        }
    }
}

/// The avatar and the roamer touch: their centres are closer than the sum of the radii.
pub open spec fn hits(p: Player, e: Enemy) -> bool {
    (p.x - e.x) * (p.x - e.x) + (p.y - e.y) * (p.y - e.y) < (p.radius + e.radius) * (p.radius + e.radius)
}

/// The id of the first roamer from index `i` on that touches the avatar.
pub open spec fn first_hit_from(p: Player, es: Seq<Enemy>, i: int) -> Option<u64>
    decreases es.len() - i,
{
    if i < 0 || i >= es.len() {
        None
    } else if hits(p, es[i]) {
        Some(es[i].id)
    } else {
        first_hit_from(p, es, i + 1)
    }
}

/// The id of the roamer that ends the session this tick, if any.
pub open spec fn hit_spec(p: Player, es: Seq<Enemy>) -> Option<u64> {
    if p.alive {
        first_hit_from(p, es, 0)
    } else {
        None
    }
}

/// The avatar after contact detection.
pub open spec fn after_hit(p: Player, es: Seq<Enemy>) -> Player {
    Player { alive: p.alive && hit_spec(p, es) is None, ..p }
}

/// The avatar's direction for the keys held, see `input_direction`.
pub fn input_to_direction(input: &KeyInput) -> (r: (i64, i64))
    ensures
        r.0 == input_direction(*input).0,
        r.1 == input_direction(*input).1,
        dir_bounded(r.0 as int),
        dir_bounded(r.1 as int),
        r.0 != 0 || r.1 != 0 ==> is_unit(r.0 as int, r.1 as int),
{
    assert(is_unit(DIAGONAL as int, DIAGONAL as int) && is_unit(DIR_ONE as int, 0) && is_unit(0, DIR_ONE as int))
        by (nonlinear_arith);
    assert((-DIAGONAL) * (-DIAGONAL) == DIAGONAL * DIAGONAL && (-DIR_ONE) * (-DIR_ONE) == DIR_ONE * DIR_ONE)
        by (nonlinear_arith);
    let h: i64 = (if input.right { 1i64 } else { 0i64 }) - (if input.left { 1i64 } else { 0i64 });
    let v: i64 = (if input.up { 1i64 } else { 0i64 }) - (if input.down { 1i64 } else { 0i64 });
    if h != 0 && v != 0 {
        (h * DIAGONAL, v * DIAGONAL)
    } else {
        (h * DIR_ONE, v * DIR_ONE)
    }
}

/// Moves a live avatar by the keys held, at `PLEYER_SPEED`, for `dt_us` microseconds.
pub fn pleyer_movement(player: &mut Player, input: &KeyInput, dt_us: u32)
    requires
        old(player).wf(),
    ensures
        *final(player) == moved_player(*old(player), *input, dt_us as int),
        -2 * POS_LIMIT <= final(player).x <= 2 * POS_LIMIT,
        -2 * POS_LIMIT <= final(player).y <= 2 * POS_LIMIT,
{
    if player.alive {
        let d = input_to_direction(input);
        let x = advance(player.x, d.0, PLEYER_SPEED, dt_us);
        let y = advance(player.y, d.1, PLEYER_SPEED, dt_us);
        player.x = x;
        player.y = y;
    }
}

/// Clamps a live avatar into the field.
pub fn confine_player_movement(player: &mut Player, field: Field)
    ensures
        *final(player) == confined_player(*old(player), field),
{
    if player.alive {
        let x = confine_axis(player.x, player.radius, field.width);
        let y = confine_axis(player.y, player.radius, field.height);
        player.x = x;
        player.y = y;
    }
}

/// Moves every roamer along its direction at `ENEMY_SPEED` for `dt_us` microseconds.
pub fn enemy_movement(enemies: &mut Vec<Enemy>, dt_us: u32)
    requires
        forall|i: int| 0 <= i < old(enemies)@.len() ==> (#[trigger] old(enemies)@[i]).wf(),
    ensures
        final(enemies)@.len() == old(enemies)@.len(),
        forall|i: int|
            0 <= i < final(enemies)@.len() ==> #[trigger] final(enemies)@[i] == moved_enemy(
                old(enemies)@[i],
                dt_us as int,
            ),
{
    let n: usize = enemies.len();
    let mut i: usize = 0;
    while i < n
        invariant
            n == enemies@.len(),
            n == old(enemies)@.len(),
            i <= n,
            forall|j: int| 0 <= j < i ==> #[trigger] enemies@[j] == moved_enemy(old(enemies)@[j], dt_us as int),
            forall|j: int| i <= j < n ==> #[trigger] enemies@[j] == old(enemies)@[j],
            forall|j: int| 0 <= j < n ==> (#[trigger] old(enemies)@[j]).wf(),
        decreases n - i,
    {
        let e: Enemy = enemies[i];
        let x = advance(e.x, e.dx, ENEMY_SPEED, dt_us);
        let y = advance(e.y, e.dy, ENEMY_SPEED, dt_us);
        enemies.set(i, Enemy { x, y, ..e });
        i = i + 1;
    }
}

/// Flips each roamer's direction on the first axis, x before y, on which it
/// lies outside the field, and returns the ids of the roamers that flipped.
pub fn update_enemy_direction(enemies: &mut Vec<Enemy>, field: Field) -> (bounced: Vec<u64>)
    requires
        forall|i: int|
            0 <= i < old(enemies)@.len() ==> dir_bounded((#[trigger] old(enemies)@[i]).dx as int)
                && dir_bounded(old(enemies)@[i].dy as int),
    ensures
        final(enemies)@.len() == old(enemies)@.len(),
        forall|i: int|
            0 <= i < final(enemies)@.len() ==> #[trigger] final(enemies)@[i] == reflected_enemy(
                old(enemies)@[i],
                field,
            ),
        bounced@ == bounced_ids(old(enemies)@, field),
{
    let n: usize = enemies.len();
    let mut bounced: Vec<u64> = Vec::new();
    let mut i: usize = 0;
    while i < n
        invariant
            n == enemies@.len(),
            n == old(enemies)@.len(),
            i <= n,
            forall|j: int| 0 <= j < i ==> #[trigger] enemies@[j] == reflected_enemy(old(enemies)@[j], field),
            forall|j: int| i <= j < n ==> #[trigger] enemies@[j] == old(enemies)@[j],
            forall|j: int|
                0 <= j < n ==> dir_bounded((#[trigger] old(enemies)@[j]).dx as int) && dir_bounded(
                    old(enemies)@[j].dy as int,
                ),
            bounced@ == bounced_ids(old(enemies)@.subrange(0, i as int), field),
        decreases n - i,
    {
        let e: Enemy = enemies[i];
        proof {
            let s = old(enemies)@.subrange(0, i as int + 1);
            assert(s.drop_last() =~= old(enemies)@.subrange(0, i as int));
            assert(s.last() == e);
        }
        if is_out_of_bounds(e.x, e.radius, field.width) {
            enemies.set(i, Enemy { dx: -e.dx, ..e });
            bounced.push(e.id);
        } else if is_out_of_bounds(e.y, e.radius, field.height) {
            enemies.set(i, Enemy { dy: -e.dy, ..e });
            bounced.push(e.id);
        }
        i = i + 1;
    }
    assert(old(enemies)@.subrange(0, n as int) =~= old(enemies)@);
    bounced
}

/// Clamps every roamer into the field.
pub fn confine_enemy_movement(enemies: &mut Vec<Enemy>, field: Field)
    ensures
        final(enemies)@.len() == old(enemies)@.len(),
        forall|i: int|
            0 <= i < final(enemies)@.len() ==> #[trigger] final(enemies)@[i] == confined_enemy(
                old(enemies)@[i],
                field,
            ),
{
    let n: usize = enemies.len();
    let mut i: usize = 0;
    while i < n
        invariant
            n == enemies@.len(),
            n == old(enemies)@.len(),
            i <= n,
            forall|j: int| 0 <= j < i ==> #[trigger] enemies@[j] == confined_enemy(old(enemies)@[j], field),
            forall|j: int| i <= j < n ==> #[trigger] enemies@[j] == old(enemies)@[j],
        decreases n - i,
    {
        let e: Enemy = enemies[i];
        let x = confine_axis(e.x, e.radius, field.width);
        let y = confine_axis(e.y, e.radius, field.height);
        enemies.set(i, Enemy { x, y, ..e });
        i = i + 1;
    }
}

/// Whether the avatar and the roamer touch, see `hits`.
pub fn touches(p: &Player, e: &Enemy) -> (r: bool)
    requires
        p.wf(),
        in_range(e.x as int),
        in_range(e.y as int),
    ensures
        r == hits(*p, *e),
{
    let ddx: i128 = p.x as i128 - e.x as i128;
    let ddy: i128 = p.y as i128 - e.y as i128;
    let rr: i128 = p.radius as i128 + e.radius as i128;
    assert(ddx * ddx <= 0x1_0000_0000_0000_0000_0000_0000 && ddx * ddx >= 0) by (nonlinear_arith)
        requires -0x1_0000_0000_0000 <= ddx <= 0x1_0000_0000_0000;
    assert(ddy * ddy <= 0x1_0000_0000_0000_0000_0000_0000 && ddy * ddy >= 0) by (nonlinear_arith)
        requires -0x1_0000_0000_0000 <= ddy <= 0x1_0000_0000_0000;
    assert(rr * rr <= 0x4_0000_0000_0000_0000) by (nonlinear_arith)
        requires 0 <= rr <= 0x2_0000_0000;
    ddx * ddx + ddy * ddy < rr * rr
}

/// Removes a live avatar that touches a roamer, and returns the id of the
/// first such roamer in roamer order; no later roamer is looked at.
pub fn enemy_hit_player(player: &mut Player, enemies: &Vec<Enemy>) -> (r: Option<u64>)
    requires
        old(player).wf(),
        forall|i: int| 0 <= i < enemies@.len() ==> (#[trigger] enemies@[i]).wf(),
    ensures
        r == hit_spec(*old(player), enemies@),
        *final(player) == after_hit(*old(player), enemies@),
{
    if !player.alive {
        return None;
    }
    let n: usize = enemies.len();
    let mut i: usize = 0;
    while i < n
        invariant
            n == enemies@.len(),
            i <= n,
            player.alive,
            *player == *old(player),
            player.wf(),
            first_hit_from(*player, enemies@, i as int) == first_hit_from(*player, enemies@, 0),
            forall|j: int| 0 <= j < n ==> (#[trigger] enemies@[j]).wf(),
        decreases n - i,
    {
        if touches(player, &enemies[i]) {
            player.alive = false;
            return Some(enemies[i].id);
        }
        i = i + 1;
    }
    None
}

} // verus!
