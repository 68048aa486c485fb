use arena_sim::arena::{Arena, TickResult};
use arena_sim::entities::{
    spawn_enemies, spawn_enemy_from_draws, spawn_player, unit_direction, ConfigError, Enemy,
    Field, KeyInput, Player, ENEMY_SIZE, NUMBER_OF_ENEMIES, PLAYER_SIZE,
};
use arena_sim::geometry::{advance, ceil_sqrt, confine_axis, is_out_of_bounds, DIAGONAL, DIR_ONE};
use arena_sim::systems::{
    confine_enemy_movement, confine_player_movement, enemy_hit_player, enemy_movement,
    input_to_direction, pleyer_movement, update_enemy_direction,
};

const PX: i64 = 1000;

fn field() -> Field {
    Field { width: 800_000, height: 600_000 }
}

fn no_keys() -> KeyInput {
    KeyInput { left: false, right: false, up: false, down: false }
}

fn player_at(x: i64, y: i64) -> Player {
    Player { x, y, radius: PLAYER_SIZE / 2, alive: true }
}

fn enemy_at(id: u64, x: i64, y: i64, dx: i64, dy: i64) -> Enemy {
    Enemy { id, x, y, dx, dy, radius: ENEMY_SIZE / 2 }
}

fn arena(player: Player, enemies: Vec<Enemy>) -> Arena {
    Arena::with_entities(field(), player, enemies).unwrap()
}

fn in_field(x: i64, y: i64, radius: u32, f: Field) -> bool {
    let r = radius as i64;
    r <= x && x <= f.width as i64 - r && r <= y && y <= f.height as i64 - r
}

#[test]
fn roamer_touching_avatar_ends_session() {
    let mut a = arena(
        player_at(400 * PX, 300 * PX),
        vec![enemy_at(7, 400 * PX, 363_900, 0, -DIR_ONE)],
    );
    let r = a.tick(100, &no_keys(), field()).unwrap();
    assert_eq!(a.enemies[0].y, 363_880);
    assert_eq!(r.collided, Some(7));
    assert!(!a.player.alive);
}

#[test]
fn roamer_past_left_wall_bounces_and_is_clamped() {
    let mut a = arena(player_at(400 * PX, 300 * PX), vec![enemy_at(3, 5 * PX, 300 * PX, -DIR_ONE, 0)]);
    let r = a.tick(100_000, &no_keys(), field()).unwrap();
    assert_eq!(r.bounced, vec![3]);
    assert_eq!(a.enemies[0].dx, DIR_ONE);
    assert_eq!(a.enemies[0].x, 32 * PX);
    assert_eq!(r.collided, None);
}

#[test]
fn avatar_moving_left_is_clamped_to_wall() {
    let mut a = arena(player_at(10 * PX, 300 * PX), vec![]);
    let left = KeyInput { left: true, ..no_keys() };
    let r = a.tick(100_000, &left, field()).unwrap();
    assert_eq!(a.player.x, 32 * PX);
    assert_eq!(a.player.y, 300 * PX);
    assert!(r.bounced.is_empty());
}

#[test]
fn avatar_moves_by_speed_times_dt() {
    let mut p = player_at(400 * PX, 300 * PX);
    pleyer_movement(&mut p, &KeyInput { right: true, ..no_keys() }, 100_000);
    assert_eq!(p.x, 450 * PX);
    pleyer_movement(&mut p, &KeyInput { right: true, up: true, ..no_keys() }, 1_000_000);
    assert_eq!(p.x, 450 * PX + 353_553);
    assert_eq!(p.y, 300 * PX + 353_553);
}

#[test]
fn removed_avatar_does_not_move() {
    let mut p = Player { alive: false, ..player_at(10, 10) };
    pleyer_movement(&mut p, &KeyInput { right: true, ..no_keys() }, 100_000);
    confine_player_movement(&mut p, field());
    assert_eq!(p, Player { alive: false, ..player_at(10, 10) });
}

#[test]
fn opposite_keys_cancel_and_diagonals_are_scaled() {
    assert_eq!(input_to_direction(&KeyInput { left: true, right: true, ..no_keys() }), (0, 0));
    assert_eq!(input_to_direction(&KeyInput { down: true, ..no_keys() }), (0, -DIR_ONE));
    assert_eq!(
        input_to_direction(&KeyInput { left: true, up: true, ..no_keys() }),
        (-DIAGONAL, DIAGONAL)
    );
}

#[test]
fn every_entity_stays_inside_the_field() {
    let mut a = arena(
        player_at(400 * PX, 300 * PX),
        vec![
            enemy_at(0, 790 * PX, 590 * PX, 600_000, 800_000),
            enemy_at(1, 100 * PX, 100 * PX, -600_000, -800_000),
            enemy_at(2, 700 * PX, 40 * PX, DIR_ONE, 0),
        ],
    );
    let keys = KeyInput { right: true, up: true, ..no_keys() };
    for _ in 0..200 {
        a.tick(50_000, &keys, field()).unwrap();
        for e in a.enemies.iter() {
            assert!(in_field(e.x, e.y, e.radius, field()));
        }
        if a.player.alive {
            assert!(in_field(a.player.x, a.player.y, a.player.radius, field()));
        }
    }
}

#[test]
fn directions_keep_their_length() {
    let mut a = arena(
        player_at(400 * PX, 300 * PX),
        vec![enemy_at(0, 700 * PX, 500 * PX, 600_000, 800_000), enemy_at(1, 40 * PX, 40 * PX, -DIR_ONE, 0)],
    );
    for _ in 0..100 {
        a.tick(100_000, &no_keys(), field()).unwrap();
        for e in a.enemies.iter() {
            assert_eq!(e.dx * e.dx + e.dy * e.dy, DIR_ONE * DIR_ONE);
        }
    }
}

#[test]
fn removed_avatar_stays_removed() {
    let mut a = arena(player_at(400 * PX, 300 * PX), vec![enemy_at(1, 400 * PX, 300 * PX, DIR_ONE, 0)]);
    let first = a.tick(0, &no_keys(), field()).unwrap();
    assert_eq!(first.collided, Some(1));
    for _ in 0..10 {
        let r = a.tick(100_000, &KeyInput { left: true, ..no_keys() }, field()).unwrap();
        assert_eq!(r.collided, None);
        assert!(!a.player.alive);
    }
}

fn record(a: &mut Arena) -> Vec<(TickResult, Player, Vec<Enemy>)> {
    let mut out = Vec::new();
    for k in 0..50u32 {
        let keys = KeyInput { left: k % 3 == 0, up: k % 5 == 0, ..no_keys() };
        let r = a.tick(20_000 + k * 1000, &keys, field()).unwrap();
        out.push((r, a.player, a.enemies.clone()));
    }
    out
}

#[test]
fn identical_runs_give_identical_results() {
    let start = || {
        arena(
            player_at(200 * PX, 200 * PX),
            vec![enemy_at(0, 600 * PX, 100 * PX, 600_000, -800_000), enemy_at(1, 50 * PX, 500 * PX, 0, DIR_ONE)],
        )
    };
    let mut a = start();
    let mut b = start();
    let ra = record(&mut a);
    let rb = record(&mut b);
    assert_eq!(ra.len(), rb.len());
    for (x, y) in ra.iter().zip(rb.iter()) {
        assert_eq!(x.0.bounced, y.0.bounced);
        assert_eq!(x.0.collided, y.0.collided);
        assert_eq!(x.1, y.1);
        assert_eq!(x.2, y.2);
    }
}

#[test]
fn corner_exit_flips_only_x() {
    let mut es = vec![enemy_at(4, -10, 700 * PX, -600_000, 800_000)];
    let bounced = update_enemy_direction(&mut es, field());
    assert_eq!(bounced, vec![4]);
    assert_eq!(es[0].dx, 600_000);
    assert_eq!(es[0].dy, 800_000);
}

#[test]
fn exit_on_y_alone_flips_y() {
    let mut es = vec![enemy_at(5, 400 * PX, 599 * PX, 0, DIR_ONE), enemy_at(6, 400 * PX, 300 * PX, 0, DIR_ONE)];
    let bounced = update_enemy_direction(&mut es, field());
    assert_eq!(bounced, vec![5]);
    assert_eq!(es[0].dy, -DIR_ONE);
    assert_eq!(es[1].dy, DIR_ONE);
}

#[test]
fn roamers_move_and_confine() {
    let mut es = vec![enemy_at(0, 400 * PX, 300 * PX, -600_000, 800_000)];
    enemy_movement(&mut es, 500_000);
    assert_eq!((es[0].x, es[0].y), (400 * PX - 60_000, 300 * PX + 80_000));
    let mut far = vec![enemy_at(1, 900 * PX, -5 * PX, DIR_ONE, 0)];
    confine_enemy_movement(&mut far, field());
    assert_eq!((far[0].x, far[0].y), (768 * PX, 32 * PX));
}

#[test]
fn first_touching_roamer_is_reported() {
    let mut p = player_at(400 * PX, 300 * PX);
    let es = vec![
        enemy_at(1, 500 * PX, 300 * PX, DIR_ONE, 0),
        enemy_at(2, 440 * PX, 300 * PX, DIR_ONE, 0),
        enemy_at(3, 400 * PX, 300 * PX, DIR_ONE, 0),
    ];
    assert_eq!(enemy_hit_player(&mut p, &es), Some(2));
    assert!(!p.alive);
    assert_eq!(enemy_hit_player(&mut p, &es), None);
}

#[test]
fn exact_touching_distance_is_no_contact() {
    let mut p = player_at(400 * PX, 300 * PX);
    let es = vec![enemy_at(1, 464 * PX, 300 * PX, DIR_ONE, 0)];
    assert_eq!(enemy_hit_player(&mut p, &es), None);
    assert!(p.alive);
}

#[test]
fn zero_field_is_refused_and_nothing_changes() {
    let mut a = arena(player_at(400 * PX, 300 * PX), vec![enemy_at(0, 100 * PX, 100 * PX, DIR_ONE, 0)]);
    let before = (a.player, a.enemies.clone());
    let r = a.tick(100_000, &no_keys(), Field { width: 0, height: 600_000 });
    assert_eq!(r.unwrap_err(), ConfigError::NonPositiveDimension);
    assert_eq!((a.player, a.enemies.clone()), before);
}

#[test]
fn setup_errors() {
    let p = player_at(10, 10);
    assert_eq!(
        Arena::with_entities(Field { width: 0, height: 5 }, p, vec![]).unwrap_err(),
        ConfigError::NonPositiveDimension
    );
    assert_eq!(
        Arena::with_entities(Field { width: 64_000, height: 600_000 }, p, vec![]).unwrap_err(),
        ConfigError::RadiusTooLarge
    );
    assert_eq!(
        Arena::with_entities(field(), p, vec![enemy_at(0, 0, 0, 5, 5)]).unwrap_err(),
        ConfigError::InvalidEntity
    );
    assert_eq!(
        Arena::with_entities(field(), player_at(i64::MAX, 0), vec![]).unwrap_err(),
        ConfigError::InvalidEntity
    );
    assert_eq!(Arena::new(Field { width: 60_000, height: 600_000 }).unwrap_err(), ConfigError::RadiusTooLarge);
}

#[test]
fn new_session_starts_at_centre_with_roamers() {
    let a = Arena::new(field()).unwrap();
    assert_eq!(a.player, spawn_player(field()));
    assert_eq!(a.player, Player { x: 400 * PX, y: 300 * PX, radius: 32 * PX as u32, alive: true });
    assert_eq!(a.enemies.len(), NUMBER_OF_ENEMIES);
    for (i, e) in a.enemies.iter().enumerate() {
        assert_eq!(e.id, i as u64);
        assert_eq!(e.radius, ENEMY_SIZE / 2);
        assert!(0 <= e.x && e.x < 800_000 && 0 <= e.y && e.y < 600_000);
    }
}

#[test]
fn spawned_roamers_lie_in_field_with_unit_directions() {
    let es = spawn_enemies(field());
    assert_eq!(es.len(), NUMBER_OF_ENEMIES);
    for (i, e) in es.iter().enumerate() {
        assert_eq!(e.id, i as u64);
        assert!(0 <= e.x && e.x < 800_000 && 0 <= e.y && e.y < 600_000);
        let len = e.dx * e.dx + e.dy * e.dy;
        assert!((len - DIR_ONE * DIR_ONE).abs() <= 8_000_000);
    }
}

#[test]
fn roamer_from_draws() {
    let e = spawn_enemy_from_draws(9, field(), 0x8000_0000, 0x4000_0000, 0xC000_0000, 0x8000_0000);
    assert_eq!(e, Enemy { id: 9, x: 400_000, y: 150_000, dx: DIR_ONE, dy: 0, radius: 32_000 });
    let z = spawn_enemy_from_draws(1, field(), 0, 0xffff_ffff, 0x8000_0000, 0x8000_0000);
    assert_eq!((z.x, z.y, z.dx, z.dy), (0, 599_999, DIR_ONE, 0));
}

#[test]
fn normalised_directions() {
    assert_eq!(unit_direction(3, 4), (600_000, 800_000));
    assert_eq!(unit_direction(-3, 0), (-DIR_ONE, 0));
    assert_eq!(unit_direction(1, -1), (707_106, -707_106));
    assert_eq!(unit_direction(0, 0), (DIR_ONE, 0));
}

#[test]
fn square_roots_round_up() {
    assert_eq!(ceil_sqrt(0), 0);
    assert_eq!(ceil_sqrt(1), 1);
    assert_eq!(ceil_sqrt(15), 4);
    assert_eq!(ceil_sqrt(16), 4);
    assert_eq!(ceil_sqrt(17), 5);
    assert_eq!(ceil_sqrt(2_000_000_000_000), 1_414_214);
}

#[test]
fn axis_arithmetic() {
    assert_eq!(advance(0, DIR_ONE, 200_000, 16_667), 3_333);
    assert_eq!(advance(0, -DIR_ONE, 200_000, 16_667), -3_333);
    assert_eq!(confine_axis(-5, 10, 100), 10);
    assert_eq!(confine_axis(95, 10, 100), 90);
    assert_eq!(confine_axis(50, 10, 100), 50);
    assert_eq!(confine_axis(3, 60, 101), 50);
    assert!(is_out_of_bounds(9, 10, 100));
    assert!(!is_out_of_bounds(90, 10, 100));
    assert!(is_out_of_bounds(91, 10, 100));
}

#[test]
fn degenerate_field_clamps_to_midpoint() {
    let mut p = player_at(5, 5);
    confine_player_movement(&mut p, Field { width: 50_000, height: 40_001 });
    assert_eq!((p.x, p.y), (25_000, 20_000));
}

#[test]
fn roamer_crossing_avatar_in_one_long_tick_is_not_a_contact() {
    // contact is judged on positions after the tick: a full second at
    // roamer speed carries the roamer from just above the avatar to well below it
    let mut a = arena(
        player_at(400 * PX, 300 * PX),
        vec![enemy_at(7, 400 * PX, 363_900, 0, -DIR_ONE)],
    );
    let r = a.tick(1_000_000, &no_keys(), field()).unwrap();
    assert_eq!(a.enemies[0].y, 163_900);
    assert_eq!(r.collided, None);
    assert!(a.player.alive);
}
