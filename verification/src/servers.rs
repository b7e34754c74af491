//! Descriptor and event types of the server API surface.

use vstd::prelude::*;
use crate::ecs::Entity;
use crate::math::Vec3;
use crate::objects::{PhysicsRigidBodyTag, PhysicsShapeTag};

verus! {

/// The mode of a body.
#[derive(Copy, Clone, Debug, PartialEq, Eq, Hash, Structural)]
pub enum BodyMode {
    /// The body is disabled and ignored by the physics engine.
    Disabled,
    /// The body is static and thus cannot move.
    Static,
    /// The body is dynamic and thus can move and is subject to forces.
    Dynamic,
    /// The body is kinematic: its velocity is controlled by the user and it
    /// is not affected by forces and constraints.
    Kinematic,
}

impl Default for BodyMode {
    fn default() -> (r: Self)
        ensures
            r == BodyMode::Dynamic,
    {
        BodyMode::Dynamic
    }
}

/// Everything needed to create a rigid body.  The shape is optional: it is
/// usually attached afterwards by the shape synchronization pass.
#[derive(Copy, Clone, Debug, PartialEq, Eq, Structural)]
pub struct RigidBodyDesc {
    pub mode: BodyMode,
    pub shape: Option<PhysicsShapeTag>,
    /// Fixed-point mass.
    pub mass: i64,
}

impl Default for RigidBodyDesc {
    fn default() -> (r: Self)
        ensures
            r == (RigidBodyDesc { mode: BodyMode::Dynamic, shape: None, mass: 0 }),
    {
        RigidBodyDesc { mode: BodyMode::Dynamic, shape: None, mass: 0 }
    }
}

/// Everything needed to create an area.
#[derive(Copy, Clone, Debug, PartialEq, Eq, Structural)]
pub struct AreaDesc {
    pub shape: PhysicsShapeTag,
}

/// The geometry of a collision shape, in fixed-point coordinates.
#[derive(Copy, Clone, Debug, PartialEq, Eq, Structural)]
pub enum ShapeDesc {
    Sphere { radius: i64 },
    Cube { half_extents: Vec3 },
    /// A plane of infinite size whose normal points toward positive Y,
    /// usually used as a world margin.
    Plane,
}

/// An overlap transition reported by an area: a body began or stopped
/// intersecting it during the last step.
#[derive(Copy, Clone, Debug, PartialEq, Eq, Structural)]
pub enum OverlapEvent {
    Enter(PhysicsRigidBodyTag, Option<Entity>),
    Exit(PhysicsRigidBodyTag, Option<Entity>),
}

} // verus!
