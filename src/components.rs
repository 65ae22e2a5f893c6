//! Per-entity data of the simulation. Entities are indices into the host's
//! arena; a reference to another entity is such an index, looked up afresh
//! each tick.
use vstd::prelude::*;
use crate::geometry::{Vec2, MAX_COORD};

verus! {

/// A background layer, drawn back to front.
pub struct Background {
    pub layer: usize,
}

/// A satellite or a body with satellites.
#[derive(Clone, Copy)]
pub struct Orbiter;

pub struct PlanetIllumination;

/// The large body at the middle of the map.
#[derive(Clone, Copy)]
pub struct Sun;

/// A moon.
#[derive(Clone, Copy)]
pub struct SecondarySatellite;

/// A space station or an asteroid belt.
#[derive(Clone, Copy)]
pub struct TertiarySatellite;

#[derive(Clone, Copy)]
pub struct PlanetInfoUI;

#[derive(Clone, Copy)]
pub struct PlanetOrbitUI;

/// The extent of the map, in world units.
#[derive(Clone, Copy)]
pub struct MapSize {
    pub w: i32,
    pub h: i32,
}

pub struct SelectionRect;

pub struct UnitSelectedCircle;

pub struct DebugRect;

pub struct DebugSelectionRadius;

pub struct DebugCollisionRadius;

pub struct DebugRepulsionRadius;

pub struct DebugCollisionCheckLine;

pub struct DebugProjectileCollisionCheckLine;

pub struct GridLine;

pub struct MainSprite;

pub struct UnitPathDisplay;

/// A large unit that repels other capital units instead of colliding with them.
pub struct CapitalShip;

pub struct ProjectileSprite;

pub struct HealthBar;

/// Hit points.
#[derive(Clone, Copy, Debug, PartialEq, Eq, Structural)]
pub struct Hp {
    pub max: u64,
    pub current: u64,
}

#[derive(Clone, Copy, Debug, PartialEq, Eq, Structural)]
pub struct Shield {
    pub max: u64,
    pub current: u64,
}

pub struct UnitControls {
    pub is_selected: bool,
    pub is_clickable: bool,
    pub is_movable: bool,
}

pub struct Selected;

pub struct Selectable;

/// Can be given a path by the player.
pub struct Movable;

pub struct DebugTurretTargetLine;

/// Can be targeted.
pub struct Targeteeable;

/// Can be given targets by the player.
pub struct Targeterable;

pub struct Explosion;

/// Micro world units per sprite pixel of a body's size, as sprites are drawn
/// at a hundredth of their size.
pub const SIZE_TO_LENGTH: i64 = 10_000;

/// Bound on each side of a body's size, in sprite pixels.
pub const MAX_SIZE: i64 = 1_000_000;

/// The repulsion radius of a body of the given size: two fifths of the scaled
/// sum of its sides.
pub open spec fn repulsion_radius_of(size_x: int, size_y: int) -> int {
    (size_x + size_y) * SIZE_TO_LENGTH * 2 / 5
}

/// The collision radius, and the selection radius, of a body of the given
/// size: a third of the scaled sum of its sides.
pub open spec fn collision_radius_of(size_x: int, size_y: int) -> int {
    (size_x + size_y) * SIZE_TO_LENGTH / 3
}

/// Where a unit, a subunit or a projectile is, where it faces, and how large
/// it is. The radii
/// are fixed by the size at construction.
#[derive(Clone, Copy, Debug, PartialEq, Eq, Structural)]
pub struct Body {
    pub position: Vec2,
    /// The direction the body faces, as a vector; only its direction counts.
    pub heading: Vec2,
    pub size_x: i64,
    pub size_y: i64,
    pub selection_radius: i64,
    pub collision_radius: i64,
    pub repulsion_radius: i64,
}

impl Body {
    pub open spec fn valid(&self) -> bool {
        &&& self.position.valid()
        &&& 0 <= self.collision_radius <= MAX_COORD
        &&& 0 <= self.repulsion_radius <= MAX_COORD
        &&& 0 <= self.selection_radius <= MAX_COORD
    }

    pub fn new(position: Vec2, heading: Vec2, size_x: i64, size_y: i64) -> (r: Body)
        requires
            position.valid(),
            0 <= size_x <= MAX_SIZE,
            0 <= size_y <= MAX_SIZE,
        ensures
            r.valid(),
            r.position == position,
            r.heading == heading,
            r.size_x == size_x && r.size_y == size_y,
            r.repulsion_radius == repulsion_radius_of(size_x as int, size_y as int),
            r.collision_radius == collision_radius_of(size_x as int, size_y as int),
            r.selection_radius == collision_radius_of(size_x as int, size_y as int),
    {
        let scaled = (size_x + size_y) * SIZE_TO_LENGTH;
        Body {
            position,
            heading,
            size_x,
            size_y,
            repulsion_radius: scaled * 2 / 5,
            collision_radius: scaled / 3,
            selection_radius: scaled / 3,
        }
    }
}

/// Velocity per tick: `dx` and `dy` in micro world units, `dw` (angular) in
/// micro radians.
#[derive(Clone, Copy, Debug, PartialEq, Eq, Structural)]
pub struct Velocity {
    pub dx: i64,
    pub dy: i64,
    pub dw: i64,
}

impl Default for Velocity {
    fn default() -> (r: Velocity)
        ensures
            r.dx == 0 && r.dy == 0 && r.dw == 0,
    {
        Velocity { dx: 0, dy: 0, dw: 0 }
    }
}

/// The next unit and owner numbers to hand out, kept by the simulation.
pub struct Counters {
    pub units: u8,
    pub owners: u8,
}

impl Counters {
    pub fn new() -> (r: Counters)
        ensures
            r.units == 0 && r.owners == 0,
    {
        Counters { units: 0, owners: 0 }
    }
}

/// An owner of units; units and projectiles of one player never harm each other.
#[derive(Clone, Copy, Debug, PartialEq, Eq, Structural)]
pub struct Player {
    pub id: u8,
}

impl Player {
    /// A player with the next owner number; the numbers wrap around.
    pub fn new(counters: &mut Counters) -> (r: Player)
        ensures
            r.id == old(counters).owners,
            final(counters).owners == (old(counters).owners + 1) % 256,
            final(counters).units == old(counters).units,
    {
        let id = counters.owners;
        counters.owners = counters.owners.wrapping_add(1);
        Player { id }
    }
}

/// Anything that can be built, fire or move.
pub struct Unit {
    pub name: String,
    pub player: Player,
    pub id: u8,
}

impl Unit {
    /// A unit with the next unit number; the numbers wrap around.
    pub fn new(name: String, player: Player, counters: &mut Counters) -> (r: Unit)
        ensures
            r.name@ == name@,
            r.player == player,
            r.id == old(counters).units,
            final(counters).units == (old(counters).units + 1) % 256,
            final(counters).owners == old(counters).owners,
    {
        let id = counters.units;
        counters.units = counters.units.wrapping_add(1);
        Unit { name, player, id }
    }
}

/// A projectile in flight: its owner, where it was fired from, how far it may
/// travel, and the damage it deals.
#[derive(Clone, Copy, Debug, PartialEq, Eq, Structural)]
pub struct Projectile {
    pub player: Player,
    pub fired_from: Vec2,
    pub range: i64,
    pub damage: u64,
}

} // verus!
