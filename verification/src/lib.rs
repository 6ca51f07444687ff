//! A 2D rigid-body collision engine over fixed-point coordinates.
//!
//! Oriented rectangles fall under gravity and resolve overlap through
//! impulse-based contact correction.  Overlap is detected with a GJK
//! distance test, penetration depth is recovered with an EPA expansion,
//! and a fixed-timestep iterative solver applies the corrections.
//!
//! All geometry uses a signed 16.16 fixed-point representation: a value
//! `v` stands for the real number `v / SCALE` with `SCALE = 65536`.

use vstd::prelude::*;

pub mod collision;
pub mod fx;
pub mod geom;
pub mod app;
pub mod points;
pub mod quad;
pub mod sweeping_collider;
pub mod vec2;

pub use app::App;
pub use collision::{Collider, Collision, CollisionQuery, get_collision, query_collision};
pub use quad::Quad;
pub use sweeping_collider::SweepingCollider;

verus! {

/// Cap on GJK search steps, EPA expansion steps and solver passes.
pub const MAX_PHYSICS_ITERATIONS: usize = 100;

/// Fixed-point scale: a stored value `v` denotes the real `v / SCALE`.
pub const SCALE: i64 = 65536;

/// Convergence tolerance of the EPA expansion, and the bias added to the
/// reported depth so a resolved pair ends up strictly separated
/// (about 0.001 world units).
pub const EPA_TOLERANCE: i64 = 66;

/// Largest magnitude of a body coordinate (position, velocity, scale,
/// gravity component): 2^24 fixed-point units, 256 world units.
pub const COORD_LIMIT: i64 = 16777216;

/// Largest magnitude of a support-point coordinate: 2^26.
pub const SUPPORT_LIMIT: i64 = 67108864;

/// Largest distance from a shape's center to any of its hull points:
/// 2^25.
pub const EXTENT_LIMIT: i64 = 33554432;

/// Largest magnitude of a Minkowski-difference point coordinate: 2^27.
pub const MINK_LIMIT: i64 = 134217728;

/// Largest magnitude of a search-direction component: 2^85.
pub const DIR_LIMIT: i128 = 0x2000000000000000000000;

/// Largest penetration depth the engine reports (before the
/// [`EPA_TOLERANCE`] bias): 2^28.
pub const DEPTH_LIMIT: i64 = 268435456;

/// Largest number of bodies a scene may hold: 2^20.
pub const QUAD_LIMIT: usize = 1048576;

/// Largest magnitude of a single contact's position or velocity
/// correction: 2^32.
pub const CORR_LIMIT: i64 = 4294967296;

} // verus!
