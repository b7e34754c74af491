//! Worlds: one entry per simulated world.
//!
//! The engine-side sub-worlds (broad phase, solver state) live with the
//! simulation backend; the library tracks the world's existence and the
//! parameters it was created with.

use vstd::prelude::*;
use crate::math::Vec3;

verus! {

/// Fixed-point default gravity along Y (an approximation of -9.8).
pub const DEFAULT_GRAVITY_Y: i64 = -642253;

/// A physics world.  Bodies and colliders registered to it live in the
/// per-kind storages and refer back to it by key.
#[derive(Copy, Clone, Debug, PartialEq, Eq, Structural)]
pub struct World {
    pub gravity: Vec3,
}

impl World {
    /// The value every world starts from: default gravity along Y.
    pub open spec fn new_spec() -> World {
        World { gravity: Vec3 { x: 0, y: DEFAULT_GRAVITY_Y, z: 0 } }
    }

    pub fn new() -> (w: World)
        ensures
            w == World::new_spec(),
    {
        World { gravity: Vec3 { x: 0, y: DEFAULT_GRAVITY_Y, z: 0 } }
    }
}

} // verus!
