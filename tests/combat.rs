use konquer::combat::{
    capital_ship_destruction_system, capital_ship_repulsion_system, collide_unit,
    projectile_collision_system, projectile_hits, projectile_out_of_range, repel_from, repel_pair,
    repulsion_impulse,
};
use konquer::geometry::MAX_COORD;
use konquer::{
    Body, EntityBody, Hp, Player, Projectile, ProjectileCollider, Rectangle2D, UnitCollider, Vec2,
    Velocity,
};

const UNIT: i64 = 1_000_000;

fn world() -> Rectangle2D {
    Rectangle2D { x: 0, y: 0, width: 32768 * UNIT, height: 32768 * UNIT }
}

fn still() -> Velocity {
    Velocity::default()
}

#[test]
fn body_radii_follow_from_size() {
    let b = Body::new(Vec2::new(5, 6), Vec2::new(1, 0), 100, 50);
    assert_eq!(b.heading, Vec2::new(1, 0));
    assert_eq!(b.repulsion_radius, 600_000);
    assert_eq!(b.collision_radius, 500_000);
    assert_eq!(b.selection_radius, 500_000);
    assert_eq!(b.position, Vec2::new(5, 6));
}

#[test]
fn two_capitals_thirty_apart_are_pushed_apart() {
    let a = EntityBody { entity: 0, position: Vec2::new(1000 * UNIT, 1000 * UNIT), radius: 50 * UNIT };
    let b = EntityBody { entity: 1, position: Vec2::new(1030 * UNIT, 1000 * UNIT), radius: 50 * UNIT };
    let mut v = vec![still(), still()];
    capital_ship_repulsion_system(&vec![a, b], &mut v, world());
    // each unit sees the other once, and each visit pushes both
    assert_eq!(v[0].dx, -1666);
    assert_eq!(v[1].dx, 1666);
    assert_eq!(v[0].dy, 0);
    assert_eq!(v[1].dy, 0);
    assert_eq!(v[0].dw, 0);
    // the gap grows on the next integration step
    let gap_before = b.position.x - a.position.x;
    let gap_after = (b.position.x + v[1].dx) - (a.position.x + v[0].dx);
    assert!(gap_after > gap_before);
}

#[test]
fn repulsion_impulses_are_equal_and_opposite() {
    let p = Vec2::new(300 * UNIT, 200 * UNIT);
    let q = Vec2::new(320 * UNIT, 215 * UNIT);
    let (ax, ay) = repulsion_impulse(p, q);
    let (bx, by) = repulsion_impulse(q, p);
    assert_eq!((ax, ay), (-bx, -by));
    // 25e9 * 20e6 / 625e12 and 25e9 * 15e6 / 625e12, toward smaller coordinates
    assert_eq!((ax, ay), (-800, -600));
    let a = EntityBody { entity: 0, position: p, radius: 50 * UNIT };
    let b = EntityBody { entity: 1, position: q, radius: 50 * UNIT };
    let mut v = vec![still(), still()];
    repel_pair(&mut v, &a, &b);
    assert_eq!((v[0].dx, v[0].dy), (-800, -600));
    assert_eq!((v[1].dx, v[1].dy), (800, 600));
}

#[test]
fn capitals_that_do_not_overlap_keep_their_velocity() {
    let a = EntityBody { entity: 0, position: Vec2::new(1000 * UNIT, 1000 * UNIT), radius: 50 * UNIT };
    let b = EntityBody { entity: 1, position: Vec2::new(1100 * UNIT, 1000 * UNIT), radius: 50 * UNIT };
    let mut v = vec![Velocity { dx: 3, dy: 4, dw: 5 }, still()];
    capital_ship_repulsion_system(&vec![a, b], &mut v, world());
    assert_eq!(v[0], Velocity { dx: 3, dy: 4, dw: 5 });
    assert_eq!(v[1], still());
}

#[test]
fn capitals_at_the_same_point_are_left_alone() {
    let a = EntityBody { entity: 0, position: Vec2::new(1000 * UNIT, 1000 * UNIT), radius: 50 * UNIT };
    let b = EntityBody { entity: 1, position: Vec2::new(1000 * UNIT, 1000 * UNIT), radius: 50 * UNIT };
    let mut v = vec![still(), still()];
    capital_ship_repulsion_system(&vec![a, b], &mut v, world());
    assert_eq!(v[0], still());
    assert_eq!(v[1], still());
}

fn unit(entity: usize, player: u8, x: i64, radius: i64, hp: u64) -> UnitCollider {
    UnitCollider {
        entity,
        player: Player { id: player },
        position: Vec2::new(x, 5000 * UNIT),
        radius,
        hp: Hp { max: 100, current: hp },
    }
}

fn shot(entity: usize, player: u8, x: i64, radius: i64, damage: u64) -> ProjectileCollider {
    ProjectileCollider {
        entity,
        player: Player { id: player },
        damage,
        position: Vec2::new(x, 5000 * UNIT),
        radius,
    }
}

#[test]
fn hit_just_inside_the_radius_sum_and_miss_just_outside() {
    let u = unit(0, 1, 5000 * UNIT, 1000, 100);
    assert!(projectile_hits(&u, &shot(9, 2, 5000 * UNIT + 1499, 500, 10)));
    assert!(!projectile_hits(&u, &shot(9, 2, 5000 * UNIT + 1501, 500, 10)));
    assert!(!projectile_hits(&u, &shot(9, 2, 5000 * UNIT + 1500, 500, 10)));
}

#[test]
fn projectile_damages_a_hostile_unit_and_is_spent() {
    let mut units = vec![unit(0, 1, 5000 * UNIT, 1000, 100)];
    let shots = vec![shot(7, 2, 5000 * UNIT + 100, 500, 30)];
    let spent = projectile_collision_system(&mut units, &shots, world());
    assert_eq!(units[0].hp.current, 70);
    assert_eq!(units[0].hp.max, 100);
    assert_eq!(spent, vec![7]);
}

#[test]
fn friendly_projectiles_never_damage() {
    let mut units = vec![unit(0, 1, 5000 * UNIT, 1000, 100)];
    let shots = vec![shot(7, 1, 5000 * UNIT, 500, 30), shot(8, 1, 5000 * UNIT + 10, 500, 30)];
    let spent = projectile_collision_system(&mut units, &shots, world());
    assert_eq!(units[0].hp.current, 100);
    assert!(spent.is_empty());
}

#[test]
fn damage_stops_at_zero_hit_points() {
    let mut units = vec![unit(0, 1, 5000 * UNIT, 1000, 20)];
    let shots = vec![shot(7, 2, 5000 * UNIT, 500, 30), shot(8, 2, 5000 * UNIT + 10, 500, 30)];
    let spent = projectile_collision_system(&mut units, &shots, world());
    assert_eq!(units[0].hp.current, 0);
    let mut s = spent.clone();
    s.sort();
    assert_eq!(s, vec![7, 8]);
}

#[test]
fn a_projectile_is_removed_by_its_first_hit() {
    let mut units = vec![unit(0, 1, 5000 * UNIT, 1000, 100), unit(1, 1, 5000 * UNIT + 500, 1000, 100)];
    let shots = vec![shot(7, 2, 5000 * UNIT + 250, 500, 10)];
    let spent = projectile_collision_system(&mut units, &shots, world());
    assert_eq!(units[0].hp.current, 90);
    assert_eq!(units[1].hp.current, 100);
    assert_eq!(spent, vec![7]);
}

#[test]
fn destroyed_capitals_are_those_without_hit_points() {
    let units = vec![unit(4, 1, 0, 1, 0), unit(5, 1, 0, 1, 3), unit(6, 2, 0, 1, 0)];
    assert_eq!(capital_ship_destruction_system(&units), vec![4, 6]);
}

#[test]
fn projectile_past_its_range_is_removed() {
    let p = Projectile {
        player: Player { id: 0 },
        fired_from: Vec2::new(0, 0),
        range: 100,
        damage: 1,
    };
    assert!(!projectile_out_of_range(&p, Vec2::new(60, 80)));
    assert!(projectile_out_of_range(&p, Vec2::new(60, 81)));
}

#[test]
fn repel_from_skips_itself_and_distant_candidates() {
    let a = EntityBody { entity: 0, position: Vec2::new(300 * UNIT, 200 * UNIT), radius: 50 * UNIT };
    let b = EntityBody { entity: 1, position: Vec2::new(320 * UNIT, 215 * UNIT), radius: 50 * UNIT };
    let far = EntityBody { entity: 2, position: Vec2::new(900 * UNIT, 200 * UNIT), radius: 50 * UNIT };
    let mut v = vec![still(), still(), still()];
    repel_from(&mut v, &a, &vec![a, far, b, b]);
    assert_eq!((v[0].dx, v[0].dy), (-1600, -1200));
    assert_eq!((v[1].dx, v[1].dy), (1600, 1200));
    assert_eq!(v[2], still());
}

#[test]
fn collide_unit_meets_candidates_in_turn() {
    let mut u = unit(3, 1, 5000 * UNIT, 1000, 100);
    let shots = vec![
        shot(10, 2, 5000 * UNIT + 100, 500, 30),
        shot(11, 1, 5000 * UNIT + 100, 500, 30),
        shot(12, 2, 5000 * UNIT + 9000, 500, 30),
    ];
    let cands = vec![
        EntityBody { entity: 0, position: shots[0].position, radius: 500 },
        EntityBody { entity: 1, position: shots[1].position, radius: 500 },
        EntityBody { entity: 2, position: shots[2].position, radius: 500 },
        EntityBody { entity: 9, position: shots[0].position, radius: 500 },
    ];
    let mut spent = vec![99];
    let mut gone = vec![false, false, false];
    collide_unit(&mut u, &shots, &cands, &mut gone, &mut spent);
    assert_eq!(u.hp.current, 70);
    assert_eq!(u.entity, 3);
    assert_eq!(spent, vec![99, 10]);
    assert_eq!(gone, vec![true, false, false]);
    // a projectile already gone does nothing
    let mut w = unit(4, 1, 5000 * UNIT, 1000, 100);
    collide_unit(&mut w, &shots, &cands, &mut gone, &mut spent);
    assert_eq!(w.hp.current, 100);
    assert_eq!(spent, vec![99, 10]);
}

#[test]
fn extreme_coordinates_do_not_overflow() {
    let u = UnitCollider {
        entity: 0,
        player: Player { id: 1 },
        position: Vec2::new(-MAX_COORD, -MAX_COORD),
        radius: MAX_COORD,
        hp: Hp { max: 1, current: 1 },
    };
    let far = ProjectileCollider {
        entity: 1,
        player: Player { id: 2 },
        damage: 1,
        position: Vec2::new(MAX_COORD, MAX_COORD),
        radius: MAX_COORD,
    };
    assert!(!projectile_hits(&u, &far));
    let near = ProjectileCollider { position: Vec2::new(MAX_COORD - 1, -MAX_COORD), ..far };
    assert!(projectile_hits(&u, &near));
    let (px, py) = repulsion_impulse(Vec2::new(-MAX_COORD, 0), Vec2::new(-MAX_COORD + 1, 0));
    assert_eq!((px, py), (-25_000_000_000, 0));
}

#[test]
fn many_friendly_projectiles_never_damage() {
    let mut units = vec![unit(0, 1, 5000 * UNIT, 1000, 100)];
    let mut shots = Vec::new();
    for k in 0..100usize {
        shots.push(shot(10 + k, 1, 5000 * UNIT + (k as i64), 500, 30));
    }
    shots.push(shot(500, 2, 5000 * UNIT, 500, 7));
    let spent = projectile_collision_system(&mut units, &shots, world());
    assert_eq!(units[0].hp.current, 93);
    assert_eq!(spent, vec![500]);
}
