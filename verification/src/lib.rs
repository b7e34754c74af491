//! Resource-lifecycle and synchronization core of a physics-engine adapter.
//!
//! The crate manages opaque handles to physics objects (worlds, rigid bodies,
//! areas, colliders, shapes), defers their destruction to a per-step garbage
//! collector, and keeps entity-component-system state consistent with the
//! physics simulation.  The numeric work of the simulation itself is left to
//! an external engine; everything here operates on plain values.

use vstd::prelude::*;

pub mod area_physics_server;
pub mod body;
pub mod collider;
pub mod ecs;
pub mod math;
pub mod objects;
pub mod physics_stepper_system;
pub mod physics_sync_shape_system;
pub mod physics_sync_transform_system;
pub mod physics_time;
pub mod rigid_body_physics_server;
pub mod servers;
pub mod servers_storage;
pub mod shape;
pub mod shape_physics_server;
pub mod storage;
pub mod utils;
pub mod world;
pub mod world_physics_server;

use crate::body::BodyModel;
use crate::collider::Collider;
use crate::objects::KindedKey;
use crate::servers_storage::ServersStorage;
use crate::shape::ShapeModel;
use crate::storage::StoreKey;
use crate::world::World;

verus! {

/// The backend facade: creates the context every server operates on — the
/// per-kind storages and the garbage collector they feed.
pub struct NPhysicsBackend;

impl NPhysicsBackend {
    /// Create an empty physics context.
    pub fn create_world() -> (s: ServersStorage)
        ensures
            s.wf(),
            s.model().worlds == Map::<StoreKey, World>::empty(),
            s.model().bodies == Map::<StoreKey, BodyModel>::empty(),
            s.model().colliders == Map::<StoreKey, Collider>::empty(),
            s.model().shapes == Map::<StoreKey, ShapeModel>::empty(),
            s.model().world_queue == Seq::<StoreKey>::empty(),
            s.model().body_queue == Seq::<StoreKey>::empty(),
            s.model().area_queue == Seq::<StoreKey>::empty(),
            s.model().shape_queue == Seq::<StoreKey>::empty(),
            forall|kk: KindedKey| #[trigger] s.gc.count_of(kk) == 0,
    {
        ServersStorage::new()
    }
}

} // verus!
