//! The simulation driver: owns the entity store and runs one tick at a time.
use vstd::prelude::*;
use crate::geometry::{confine_axis_spec, dir_bounded, in_range, POS_LIMIT};
use crate::entities::{
    enemy_from_draws_spec, spawn_enemies, spawn_player, spawn_player_spec, ConfigError, Enemy, Field, KeyInput, Player,
    ENEMY_SIZE, NUMBER_OF_ENEMIES, PLAYER_SIZE,
};
use crate::systems::{
    after_hit, bounced_ids, confine_enemy_movement, confine_player_movement, confined_enemy,
    confined_player, enemy_hit_player, enemy_movement, hit_spec, moved_enemy, moved_player,
    out_x, out_y, pleyer_movement, reflected_enemy, update_enemy_direction,
};

verus! {

/// What one tick reports: the roamers whose direction flipped, in roamer
/// order, and the roamer that ended the session, if one did.
#[derive(Debug)]
pub struct TickResult {
    pub bounced: Vec<u64>,
    pub collided: Option<u64>,
}

/// The entity store: the avatar and the roamers, in creation order.
#[derive(Debug)]
pub struct Arena {
    pub player: Player,
    pub enemies: Vec<Enemy>,
}

pub open spec fn enemies_wf(es: Seq<Enemy>) -> bool {
    forall|i: int| 0 <= i < es.len() ==> (#[trigger] es[i]).wf()
}

/// A radius that leaves no room on some axis of the field.
pub open spec fn too_large(radius: int, field: Field) -> bool {
    2 * radius >= field.width || 2 * radius >= field.height
}

/// Why a session cannot start with these entities on this field, if it cannot.
pub open spec fn setup_error(field: Field, p: Player, es: Seq<Enemy>) -> Option<ConfigError> {
    if field.width == 0 || field.height == 0 {
        Some(ConfigError::NonPositiveDimension)
    } else if too_large(p.radius as int, field) || exists|i: int|
        0 <= i < es.len() && too_large((#[trigger] es[i]).radius as int, field) {
        Some(ConfigError::RadiusTooLarge)
    } else if !p.wf() || !enemies_wf(es) {
        Some(ConfigError::InvalidEntity)
    } else {
        None
    }
}

/// The roamers after one tick: moved, reflected, then confined.
pub open spec fn enemies_after(es: Seq<Enemy>, dt: int, field: Field) -> Seq<Enemy> {
    Seq::new(
        es.len(),
        |i: int| confined_enemy(reflected_enemy(moved_enemy(es[i], dt), field), field),
    )
}

/// The roamers after the movement step of a tick.
pub open spec fn moved_enemies(es: Seq<Enemy>, dt: int) -> Seq<Enemy> {
    Seq::new(es.len(), |i: int| moved_enemy(es[i], dt))
}

/// The avatar after the movement and confinement steps of a tick.
pub open spec fn player_moved(p: Player, input: KeyInput, dt: int, field: Field) -> Player {
    confined_player(moved_player(p, input, dt), field)
}

/// A tick with a field of positive size: the avatar, the roamers, the
/// bounced ids and the colliding roamer that it leaves.
pub open spec fn tick_spec(p: Player, es: Seq<Enemy>, dt: int, input: KeyInput, field: Field) -> (
    Player,
    Seq<Enemy>,
    Seq<u64>,
    Option<u64>,
) {
    let p1 = player_moved(p, input, dt, field);
    let es1 = enemies_after(es, dt, field);
    (after_hit(p1, es1), es1, bounced_ids(moved_enemies(es, dt), field), hit_spec(p1, es1))
}

/// One frame of host input: elapsed microseconds, keys held, field size.
pub struct Frame {
    pub dt_us: u32,
    pub input: KeyInput,
    pub field: Field,
}

/// The avatar, the roamers, and per frame the bounced ids and the colliding
/// roamer (none for a refused frame), after running `frames` in order.
pub open spec fn run(p: Player, es: Seq<Enemy>, frames: Seq<Frame>) -> (
    Player,
    Seq<Enemy>,
    Seq<(Seq<u64>, Option<u64>)>,
)
    decreases frames.len(),
{
    if frames.len() == 0 {
        (p, es, Seq::empty())
    } else {
        let prev = run(p, es, frames.drop_last());
        let f = frames.last();
        if f.field.width == 0 || f.field.height == 0 {
            (prev.0, prev.1, prev.2.push((Seq::empty(), None)))
        } else {
            let t = tick_spec(prev.0, prev.1, f.dt_us as int, f.input, f.field);
            (t.0, t.1, prev.2.push((t.2, t.3)))
        }
    }
}

impl Arena {
    pub open spec fn wf(&self) -> bool {
        self.player.wf() && enemies_wf(self.enemies@)
    }

    /// A session on `field` with the given avatar and roamers, refused as
    /// `setup_error` says.
    pub fn with_entities(field: Field, player: Player, enemies: Vec<Enemy>) -> (r: Result<
        Arena,
        ConfigError,
    >)
        ensures
            setup_error(field, player, enemies@) is Some ==> r == Err::<Arena, ConfigError>(
                setup_error(field, player, enemies@)->Some_0,
            ),
            setup_error(field, player, enemies@) is None ==> r is Ok && r->Ok_0.player == player
                && r->Ok_0.enemies@ == enemies@ && r->Ok_0.wf(),
    {
        if field.width == 0 || field.height == 0 {
            return Err(ConfigError::NonPositiveDimension);
        }
        let w: u64 = field.width as u64;
        let h: u64 = field.height as u64;
        if 2 * (player.radius as u64) >= w || 2 * (player.radius as u64) >= h {
            return Err(ConfigError::RadiusTooLarge);
        }
        let n: usize = enemies.len();
        let mut i: usize = 0;
        while i < n
            invariant
                n == enemies@.len(),
                i <= n,
                w == field.width,
                h == field.height,
                !too_large(player.radius as int, field),
                forall|j: int| 0 <= j < i ==> !too_large((#[trigger] enemies@[j]).radius as int, field),
            decreases n - i,
        {
            let rr: u64 = 2 * (enemies[i].radius as u64);
            if rr >= w || rr >= h {
                assert(too_large(enemies@[i as int].radius as int, field));
                return Err(ConfigError::RadiusTooLarge);
            }
            i = i + 1;
        }
        if player.x < -POS_LIMIT || player.x > POS_LIMIT || player.y < -POS_LIMIT || player.y
            > POS_LIMIT {
            return Err(ConfigError::InvalidEntity);
        }
        let mut k: usize = 0;
        while k < n
            invariant
                n == enemies@.len(),
                k <= n,
                forall|j: int| 0 <= j < k ==> (#[trigger] enemies@[j]).wf(),
                forall|j: int| 0 <= j < n ==> !too_large((#[trigger] enemies@[j]).radius as int, field),
                player.wf(),
                !too_large(player.radius as int, field),
                field.width > 0 && field.height > 0,
            decreases n - k,
        {
            if !enemies[k].is_valid() {
                assert(!enemies@[k as int].wf());
                return Err(ConfigError::InvalidEntity);
            }
            k = k + 1;
        }
        Ok(Arena { player, enemies })
    }

    /// A session on `field`: the avatar at the centre, `NUMBER_OF_ENEMIES`
    /// roamers at random places with random unit directions.
    pub fn new(field: Field) -> (r: Result<Arena, ConfigError>)
        ensures
            (field.width == 0 || field.height == 0) ==> r == Err::<Arena, ConfigError>(
                ConfigError::NonPositiveDimension,
            ),
            (field.width > 0 && field.height > 0 && (too_large((PLAYER_SIZE / 2) as int, field)
                || too_large((ENEMY_SIZE / 2) as int, field))) ==> r == Err::<Arena, ConfigError>(
                ConfigError::RadiusTooLarge,
            ),
            (field.width > 0 && field.height > 0 && !too_large((PLAYER_SIZE / 2) as int, field)
                && !too_large((ENEMY_SIZE / 2) as int, field)) ==> r is Ok,
            r is Ok ==> r->Ok_0.player == spawn_player_spec(field) && r->Ok_0.enemies@.len()
                == NUMBER_OF_ENEMIES && r->Ok_0.wf(),
            r is Ok ==> forall|i: int|
                0 <= i < r->Ok_0.enemies@.len() ==> {
                    &&& (#[trigger] r->Ok_0.enemies@[i]).id == i
                    &&& r->Ok_0.enemies@[i].radius == ENEMY_SIZE / 2
                    &&& 0 <= r->Ok_0.enemies@[i].x < field.width
                    &&& 0 <= r->Ok_0.enemies@[i].y < field.height
                    &&& exists|rx: u32, ry: u32, da: u32, db: u32|
                        r->Ok_0.enemies@[i] == #[trigger] enemy_from_draws_spec(
                            i as u64,
                            field,
                            rx,
                            ry,
                            da,
                            db,
                        )
                },
    {
        let player = spawn_player(field);
        let enemies = spawn_enemies(field);
        proof {
            if field.width > 0 && field.height > 0 && !too_large((PLAYER_SIZE / 2) as int, field)
                && too_large((ENEMY_SIZE / 2) as int, field) {
                assert(too_large(enemies@[0].radius as int, field));
            }
        }
        Arena::with_entities(field, player, enemies)
    }

    /// Runs one tick: a live avatar moves by the keys held and is clamped
    /// into the field; every roamer moves, flips its direction on the first
    /// axis (x before y) on which it left the field, and is clamped; then a
    /// live avatar that touches a roamer is removed. A field with a zero
    /// dimension is refused and nothing changes.
    pub fn tick(&mut self, dt_us: u32, input: &KeyInput, field: Field) -> (r: Result<
        TickResult,
        ConfigError,
    >)
        requires
            old(self).wf(),
        ensures
            final(self).wf(),
            (field.width == 0 || field.height == 0) ==> r == Err::<TickResult, ConfigError>(
                ConfigError::NonPositiveDimension,
            ) && final(self).player == old(self).player && final(self).enemies@ == old(
                self,
            ).enemies@,
            (field.width > 0 && field.height > 0) ==> ({
                let t = tick_spec(old(self).player, old(self).enemies@, dt_us as int, *input, field);
                &&& r is Ok
                &&& final(self).player == t.0
                &&& final(self).enemies@ == t.1
                &&& r->Ok_0.bounced@ == t.2
                &&& r->Ok_0.collided == t.3
            }),
            // every entity ends inside the field wherever it fits
            r is Ok && old(self).player.alive && !too_large(old(self).player.radius as int, field)
                ==> final(self).player.radius <= final(self).player.x <= field.width
                - final(self).player.radius && final(self).player.radius <= final(self).player.y
                <= field.height - final(self).player.radius,
            forall|i: int|
                0 <= i < final(self).enemies@.len() && r is Ok && !too_large(
                    (#[trigger] final(self).enemies@[i]).radius as int,
                    field,
                ) ==> final(self).enemies@[i].radius <= final(self).enemies@[i].x <= field.width
                    - final(self).enemies@[i].radius && final(self).enemies@[i].radius
                    <= final(self).enemies@[i].y <= field.height - final(self).enemies@[i].radius,
            // directions keep their length
            final(self).enemies@.len() == old(self).enemies@.len(),
            forall|i: int|
                0 <= i < final(self).enemies@.len() ==> (#[trigger] final(self).enemies@[i]).dir_len_sq()
                    == old(self).enemies@[i].dir_len_sq(),
            // a removed avatar stays removed
            !old(self).player.alive ==> !final(self).player.alive,
    {
        if field.width == 0 || field.height == 0 {
            return Err(ConfigError::NonPositiveDimension);
        }
        let ghost p0 = self.player;
        let ghost es0 = self.enemies@;
        let mut player = self.player;
        pleyer_movement(&mut player, input, dt_us);
        confine_player_movement(&mut player, field);
        let mut enemies = self.enemies.clone();
        assert(enemies@ == es0);
        enemy_movement(&mut enemies, dt_us);
        let ghost es1 = enemies@;
        assert(es1 =~= moved_enemies(es0, dt_us as int));
        let bounced = update_enemy_direction(&mut enemies, field);
        confine_enemy_movement(&mut enemies, field);
        proof {
            assert(enemies@ =~= enemies_after(es0, dt_us as int, field));
            assert forall|i: int| 0 <= i < enemies@.len() implies (#[trigger] enemies@[i]).wf()
                && enemies@[i].dir_len_sq() == es0[i].dir_len_sq() by {
                lemma_reflect_keeps_length(moved_enemy(es0[i], dt_us as int), field);
                lemma_confined_in_field(es0[i].radius as int, field.width as int, reflected_enemy(moved_enemy(es0[i], dt_us as int), field).x as int);
                lemma_confined_in_field(es0[i].radius as int, field.height as int, reflected_enemy(moved_enemy(es0[i], dt_us as int), field).y as int);
            }
            if p0.alive {
                lemma_confined_in_field(p0.radius as int, field.width as int, moved_player(p0, *input, dt_us as int).x as int);
                lemma_confined_in_field(p0.radius as int, field.height as int, moved_player(p0, *input, dt_us as int).y as int);
            }
        }
        let collided = enemy_hit_player(&mut player, &enemies);
        self.player = player;
        self.enemies = enemies;
        Ok(TickResult { bounced, collided })
    }
}

proof fn lemma_confined_in_field(radius: int, dim: int, p: int)
    requires
        0 <= radius,
        0 <= dim <= 0xffff_ffff,
    ensures
        in_range(confine_axis_spec(p, radius, dim)),
        2 * radius <= dim ==> radius <= confine_axis_spec(p, radius, dim) <= dim - radius,
{
}

/// Flipping a roamer's direction keeps the direction's length.
pub proof fn lemma_reflect_keeps_length(e: Enemy, field: Field)
    requires
        dir_bounded(e.dx as int),
        dir_bounded(e.dy as int),
    ensures
        reflected_enemy(e, field).dir_len_sq() == e.dir_len_sq(),
        dir_bounded(reflected_enemy(e, field).dx as int),
        dir_bounded(reflected_enemy(e, field).dy as int),
{
    assert((-e.dx) * (-e.dx) == e.dx * e.dx) by (nonlinear_arith);
    assert((-e.dy) * (-e.dy) == e.dy * e.dy) by (nonlinear_arith);
}

/// A roamer outside the field on both axes flips only its x direction.
pub proof fn lemma_bounce_priority(e: Enemy, field: Field)
    requires
        out_x(e, field),
        out_y(e, field),
        dir_bounded(e.dx as int),
    ensures
        reflected_enemy(e, field).dx == -e.dx,
        reflected_enemy(e, field).dy == e.dy,
{
}

/// Two runs from the same avatar and roamers over the same frames end with
/// the same avatar and roamers and report the same events, frame by frame.
pub proof fn lemma_run_deterministic(
    p1: Player,
    es1: Seq<Enemy>,
    p2: Player,
    es2: Seq<Enemy>,
    frames1: Seq<Frame>,
    frames2: Seq<Frame>,
)
    requires
        p1 == p2,
        es1 == es2,
        frames1 == frames2,
    ensures
        run(p1, es1, frames1) == run(p2, es2, frames2),
    decreases frames1.len(),
{
    if frames1.len() > 0 {
        lemma_run_deterministic(p1, es1, p2, es2, frames1.drop_last(), frames2.drop_last());
    }
}

/// Once the avatar is removed, no later frame brings it back.
pub proof fn lemma_death_is_final(p: Player, es: Seq<Enemy>, frames: Seq<Frame>)
    requires
        !p.alive,
    ensures
        !run(p, es, frames).0.alive,
    decreases frames.len(),
{
    if frames.len() > 0 {
        lemma_death_is_final(p, es, frames.drop_last());
    }
}

} // verus!
