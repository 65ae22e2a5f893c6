//! Spatial collision and combat-resolution core of a 2D real-time strategy
//! simulation: a quadtree broad phase, the per-unit target queue, the
//! repulsion and projectile-collision resolvers, and the turret state machine.
//!
//! Lengths are integers in micro world units, times are in milliseconds, and
//! entities are identified by their index in the host's arena of components.
use vstd::prelude::*;

pub mod combat;
pub mod components;
pub mod geometry;
pub mod quadtree;
pub mod targets;
pub mod turret;

pub use combat::{ProjectileCollider, UnitCollider};
pub use components::{Body, Counters, Hp, Player, Projectile, Unit, Velocity};
pub use geometry::{Rectangle2D, Vec2};
pub use quadtree::{CollisionQuadtree, EntityBody};
pub use targets::Targets;
pub use turret::{Timer, Turret, TurretOutcome, TurretState};

verus! {

} // verus!
