use konquer::turret::{
    isqrt, spawn_projectile, turret_track_and_fire, ProjectileType, ANGLE_SCALE,
};
use konquer::Player;
use konquer::{Targets, Timer, Turret, TurretState, Vec2};

const UNIT: i64 = 1_000_000;

fn turret(pattern: &str, sources: Vec<Vec2>) -> Turret {
    Turret::new(
        "laser".to_string(),
        "bolt".to_string(),
        800 * UNIT,
        1000,
        pattern.to_string(),
        sources,
    )
}

fn me() -> Player {
    Player { id: 3 }
}

fn bolt() -> Option<ProjectileType> {
    Some(ProjectileType { speed: 20 * UNIT, range: 1000 * UNIT, damage: 10, size_x: 10, size_y: 10 })
}

fn east() -> Vec2 {
    Vec2::new(ANGLE_SCALE, 0)
}

fn here() -> Vec2 {
    Vec2::new(1000 * UNIT, 1000 * UNIT)
}

fn queue_of(t: usize) -> Targets {
    let mut q = Targets::new();
    q.add_target(t);
    q
}

#[test]
fn isqrt_rounds_down() {
    assert_eq!(isqrt(0), 0);
    assert_eq!(isqrt(15), 3);
    assert_eq!(isqrt(16), 4);
    assert_eq!(isqrt(1_000_000_000_000), 1_000_000);
    assert_eq!(isqrt(u128::MAX), u64::MAX as u128);
}

#[test]
fn timer_counts_up_to_its_duration() {
    let mut t = Timer::new(1000);
    assert!(!t.finished());
    assert_eq!(t.remaining(), 1000);
    t.tick(400);
    assert_eq!(t.remaining(), 600);
    t.tick(700);
    assert!(t.finished());
    assert_eq!(t.elapsed, 1000);
}

#[test]
fn aligned_reloaded_turret_fires_once_then_reloads() {
    let mut tur = turret("simultaneous", vec![Vec2::new(3, 4)]);
    tur.timer.elapsed = 1000;
    let mut q = queue_of(1);
    let positions = vec![None, Some(Vec2::new(1500 * UNIT, 1000 * UNIT))];
    let out = turret_track_and_fire(&mut tur, &mut q, here(), east(), &positions, me(), bolt(), 16);
    assert_eq!(out.fired, vec![Vec2::new(3, 4)]);
    assert_eq!(out.state, TurretState::OnTarget);
    assert_eq!(out.steer, None);
    assert_eq!(tur.timer, Timer { duration: 1000, elapsed: 0, finished: false });
    assert_eq!(tur.timer.remaining(), 1000);
    let again = turret_track_and_fire(&mut tur, &mut q, here(), east(), &positions, me(), bolt(), 16);
    assert!(again.fired.is_empty());
    assert_eq!(again.state, TurretState::Reloading);
    assert_eq!(q.get_all(), vec![1]);
}

#[test]
fn despawned_target_is_dropped_without_steering() {
    let mut tur = turret("simultaneous", vec![Vec2::new(0, 0)]);
    let mut q = Targets::new();
    q.add_target(5);
    q.add_target(0);
    let positions = vec![Some(Vec2::new(0, 0)), None, None, None, None, None];
    let out = turret_track_and_fire(&mut tur, &mut q, here(), east(), &positions, me(), bolt(), 16);
    assert_eq!(q.get_all(), vec![0]);
    assert_eq!(out.steer, None);
    assert_eq!(out.state, TurretState::Idle);
    assert!(out.fired.is_empty());
    assert_eq!(tur.timer, Timer { duration: 1000, elapsed: 0, finished: false });
}

#[test]
fn target_beyond_the_arena_counts_as_despawned() {
    let mut tur = turret("simultaneous", vec![Vec2::new(0, 0)]);
    let mut q = queue_of(40);
    let out = turret_track_and_fire(&mut tur, &mut q, here(), east(), &vec![], me(), bolt(), 16);
    assert_eq!(q.len(), 0);
    assert_eq!(out.state, TurretState::Idle);
}

#[test]
fn idle_without_targets() {
    let mut tur = turret("simultaneous", vec![Vec2::new(0, 0)]);
    let mut q = Targets::new();
    let out = turret_track_and_fire(&mut tur, &mut q, here(), east(), &vec![], me(), bolt(), 16);
    assert_eq!(out.state, TurretState::Idle);
    assert_eq!(out.steer, None);
    assert_eq!(tur.timer.elapsed, 0);
}

#[test]
fn turret_turns_toward_a_target_at_right_angles_and_holds_fire() {
    let mut tur = turret("simultaneous", vec![Vec2::new(0, 0)]);
    tur.timer.elapsed = 1000;
    let mut q = queue_of(0);
    let north = vec![Some(Vec2::new(1000 * UNIT, 1500 * UNIT))];
    let out = turret_track_and_fire(&mut tur, &mut q, here(), east(), &north, me(), bolt(), 16);
    // a tenth of a radian per tick, turning counterclockwise
    assert_eq!(out.steer, Some(100_000));
    assert_eq!(out.state, TurretState::Tracking);
    assert!(out.fired.is_empty());
    let south = vec![Some(Vec2::new(1000 * UNIT, 500 * UNIT))];
    let out = turret_track_and_fire(&mut tur, &mut q, here(), east(), &south, me(), bolt(), 16);
    assert_eq!(out.steer, Some(-100_000));
}

#[test]
fn turret_behind_its_heading_turns_at_the_cap() {
    let mut tur = turret("simultaneous", vec![Vec2::new(0, 0)]);
    let mut q = queue_of(0);
    // almost straight behind, slightly to the left: the angular error is near
    // two, and the rate is capped
    let behind = vec![Some(Vec2::new(500 * UNIT, 1001 * UNIT))];
    let out = turret_track_and_fire(&mut tur, &mut q, here(), east(), &behind, me(), bolt(), 16);
    assert_eq!(out.steer, Some(100_000));
}

#[test]
fn no_fire_out_of_range() {
    let mut tur = turret("simultaneous", vec![Vec2::new(0, 0)]);
    tur.timer.elapsed = 1000;
    let mut q = queue_of(0);
    let far = vec![Some(Vec2::new(1800 * UNIT, 1000 * UNIT))];
    let out = turret_track_and_fire(&mut tur, &mut q, here(), east(), &far, me(), bolt(), 16);
    assert!(out.fired.is_empty());
    assert_eq!(out.state, TurretState::OnTarget);
    assert_eq!(tur.timer.elapsed, 1000);
}

#[test]
fn no_fire_while_cooling_down() {
    let mut tur = turret("simultaneous", vec![Vec2::new(0, 0)]);
    let mut q = queue_of(0);
    let near = vec![Some(Vec2::new(1500 * UNIT, 1000 * UNIT))];
    let out = turret_track_and_fire(&mut tur, &mut q, here(), east(), &near, me(), bolt(), 500);
    assert!(out.fired.is_empty());
    assert_eq!(out.state, TurretState::Reloading);
    assert_eq!(tur.timer.remaining(), 500);
    let out = turret_track_and_fire(&mut tur, &mut q, here(), east(), &near, me(), bolt(), 500);
    assert_eq!(out.fired.len(), 1);
}

#[test]
fn no_fire_at_twelve_degrees_but_fire_at_eight() {
    let mut tur = turret("simultaneous", vec![Vec2::new(0, 0)]);
    tur.timer.elapsed = 1000;
    let mut q = queue_of(0);
    // tan(12 deg) ~ 0.2126, tan(8 deg) ~ 0.1405
    let wide = vec![Some(Vec2::new(1100 * UNIT, 1000 * UNIT + 21_260_000))];
    let out = turret_track_and_fire(&mut tur, &mut q, here(), east(), &wide, me(), bolt(), 16);
    assert!(out.fired.is_empty());
    assert!(out.steer.is_some());
    let narrow = vec![Some(Vec2::new(1100 * UNIT, 1000 * UNIT + 14_050_000))];
    let out = turret_track_and_fire(&mut tur, &mut q, here(), east(), &narrow, me(), bolt(), 16);
    assert_eq!(out.fired.len(), 1);
}

#[test]
fn unknown_projectile_skips_firing_for_the_tick() {
    let mut tur = turret("simultaneous", vec![Vec2::new(0, 0)]);
    tur.timer.elapsed = 1000;
    let mut q = queue_of(0);
    let near = vec![Some(Vec2::new(1500 * UNIT, 1000 * UNIT))];
    let out = turret_track_and_fire(&mut tur, &mut q, here(), east(), &near, me(), None, 16);
    assert!(out.fired.is_empty());
    assert_eq!(tur.timer, Timer { duration: 1000, elapsed: 1000, finished: true });
    assert_eq!(tur.source_index, 0);
}

#[test]
fn alternating_turret_fires_its_sources_in_turn() {
    let a = Vec2::new(1, 0);
    let b = Vec2::new(-1, 0);
    let mut tur = turret("alternating", vec![a, b]);
    assert_eq!(tur.get_sources(), vec![a]);
    let mut q = queue_of(0);
    let near = vec![Some(Vec2::new(1500 * UNIT, 1000 * UNIT))];
    let mut fired = Vec::new();
    for _ in 0..3 {
        let out = turret_track_and_fire(&mut tur, &mut q, here(), east(), &near, me(), bolt(), 1000);
        fired.extend(out.fired);
    }
    assert_eq!(fired, vec![a, b, a]);
}

#[test]
fn simultaneous_turret_fires_all_sources() {
    let a = Vec2::new(1, 0);
    let b = Vec2::new(-1, 0);
    let mut tur = turret("simultaneous", vec![a, b]);
    assert_eq!(tur.get_sources(), vec![a, b]);
    tur.reload();
    assert_eq!(tur.source_index, 0);
    let mut alt = turret("alternating", vec![a, b]);
    alt.reload();
    assert_eq!(alt.source_index, 1);
    alt.reload();
    assert_eq!(alt.source_index, 0);
}

#[test]
fn zero_reload_turret_is_not_ready_before_a_tick() {
    let mut tur = Turret::new("t".to_string(), "bolt".to_string(), 800 * UNIT, 0, "x".to_string(), vec![Vec2::new(0, 0)]);
    assert!(!tur.ready());
    tur.tick(0);
    assert!(tur.ready());
    tur.reload();
    assert!(!tur.ready());
}

#[test]
fn finished_timer_stays_finished() {
    let mut t = Timer::new(10);
    t.tick(10);
    assert!(t.finished());
    t.tick(5);
    assert_eq!(t, Timer { duration: 10, elapsed: 10, finished: true });
}

#[test]
fn fired_projectiles_carry_owner_type_and_heading() {
    let mut tur = turret("simultaneous", vec![Vec2::new(3 * UNIT, 4 * UNIT)]);
    tur.timer.elapsed = 1000;
    let mut q = queue_of(0);
    let near = vec![Some(Vec2::new(1500 * UNIT, 1000 * UNIT))];
    let out = turret_track_and_fire(&mut tur, &mut q, here(), east(), &near, me(), bolt(), 16);
    assert_eq!(out.spawned.len(), 1);
    let p = out.spawned[0];
    // heading east: the offset is not turned
    assert_eq!(p.body.position, Vec2::new(1003 * UNIT, 1004 * UNIT));
    assert_eq!(p.projectile.fired_from, p.body.position);
    assert_eq!(p.body.heading, east());
    assert_eq!(p.projectile.player, me());
    assert_eq!(p.projectile.range, 1000 * UNIT);
    assert_eq!(p.projectile.damage, 10);
    assert_eq!((p.velocity.dx, p.velocity.dy, p.velocity.dw), (20 * UNIT, 0, 0));
    assert_eq!(p.body.collision_radius, 200_000 / 3);
}

#[test]
fn spawn_turns_the_offset_with_the_heading() {
    let kind = ProjectileType { speed: 1000, range: 5, damage: 1, size_x: 0, size_y: 0 };
    let north = Vec2::new(0, ANGLE_SCALE);
    let p = spawn_projectile(Vec2::new(10, 0), me(), Vec2::new(100, 100), north, &kind);
    assert_eq!(p.body.position, Vec2::new(100, 110));
    assert_eq!((p.velocity.dx, p.velocity.dy), (0, 1000));
    let west = Vec2::new(-ANGLE_SCALE, 0);
    let p = spawn_projectile(Vec2::new(10, 2), me(), Vec2::new(100, 100), west, &kind);
    assert_eq!(p.body.position, Vec2::new(90, 98));
    assert_eq!((p.velocity.dx, p.velocity.dy), (-1000, 0));
}

#[test]
fn finished_flag_alone_does_not_fire_a_well_formed_turret() {
    // a turret's timer only finishes by running its duration
    let mut tur = turret("simultaneous", vec![Vec2::new(0, 0)]);
    let mut q = queue_of(0);
    let near = vec![Some(Vec2::new(1500 * UNIT, 1000 * UNIT))];
    let out = turret_track_and_fire(&mut tur, &mut q, here(), east(), &near, me(), bolt(), 999);
    assert!(out.spawned.is_empty());
    let out = turret_track_and_fire(&mut tur, &mut q, here(), east(), &near, me(), bolt(), 1);
    assert_eq!(out.spawned.len(), 1);
}
