//! The shared state every server operates on: the per-kind storages and the
//! garbage collector.
//!
//! In the host, each storage sits behind its own reader/writer lock and a
//! logical operation takes the locks it needs in a fixed global order
//! (worlds, then bodies and areas, then colliders, then shapes).  The
//! verified core works on the state with exclusive access; the adapter owns
//! the locking.

use vstd::prelude::*;
use crate::body::{Body, BodyModel};
use crate::collider::Collider;
use crate::objects::{KindedKey, ObjectKind, PhysicsGarbageCollector};
use crate::shape::{RigidShape, ShapeModel};
use crate::storage::{StoreKey, Storage};
use crate::world::World;

verus! {

/// The mathematical value of the whole physics state: the live entries of
/// each storage and the pending removal queues.
#[verifier::ext_equal]
pub struct PhysicsModel {
    pub worlds: Map<StoreKey, World>,
    pub bodies: Map<StoreKey, BodyModel>,
    pub colliders: Map<StoreKey, Collider>,
    pub shapes: Map<StoreKey, ShapeModel>,
    pub world_queue: Seq<StoreKey>,
    pub body_queue: Seq<StoreKey>,
    pub area_queue: Seq<StoreKey>,
    pub shape_queue: Seq<StoreKey>,
}

/// The live bodies of a storage, as mathematical values.
pub open spec fn bodies_model(st: Storage<Body>) -> Map<StoreKey, BodyModel> {
    st.view_map().map_values(|b: Body| b.model())
}

/// The live shapes of a storage, as mathematical values.
pub open spec fn shapes_model(st: Storage<RigidShape>) -> Map<StoreKey, ShapeModel> {
    st.view_map().map_values(|s: RigidShape| s.model())
}

/// No reference count changed between two states.
pub open spec fn counts_unchanged(pre: ServersStorage, post: ServersStorage) -> bool {
    forall|kk: KindedKey| #[trigger] post.gc.count_of(kk) == pre.gc.count_of(kk)
}

/// No storage forgot which keys it has issued.
pub open spec fn issued_unchanged(pre: ServersStorage, post: ServersStorage) -> bool {
    &&& post.worlds.issued() == pre.worlds.issued()
    &&& post.bodies.issued() == pre.bodies.issued()
    &&& post.colliders.issued() == pre.colliders.issued()
    &&& post.shapes.issued() == pre.shapes.issued()
}

/// All storages, together with the garbage collector they feed.
pub struct ServersStorage {
    pub gc: PhysicsGarbageCollector,
    pub worlds: Storage<World>,
    pub bodies: Storage<Body>,
    pub colliders: Storage<Collider>,
    pub shapes: Storage<RigidShape>,
}

impl ServersStorage {
    /// Has the storage of `kk`'s kind ever issued `kk`'s key?  Bodies and
    /// areas share one storage.
    pub open spec fn key_issued(self, kk: KindedKey) -> bool {
        match kk.kind {
            ObjectKind::World => self.worlds.issued().contains(kk.key),
            ObjectKind::RigidBody => self.bodies.issued().contains(kk.key),
            ObjectKind::Area => self.bodies.issued().contains(kk.key),
            ObjectKind::Shape => self.shapes.issued().contains(kk.key),
        }
    }

    pub open spec fn wf(self) -> bool {
        &&& self.gc.wf()
        &&& self.worlds.wf()
        &&& self.bodies.wf()
        &&& self.colliders.wf()
        &&& self.shapes.wf()
        &&& forall|kk: KindedKey| #[trigger] self.gc.count_of(kk) > 0 ==> self.key_issued(kk)
        &&& forall|kk: KindedKey| #[trigger] self.gc.queued(kk) ==> self.key_issued(kk)
        &&& forall|k: StoreKey|
            #[trigger] self.bodies.view_map().dom().contains(k)
                ==> self.bodies.view_map()[k].self_key == Some(k)
        &&& forall|k: StoreKey|
            #[trigger] self.shapes.view_map().dom().contains(k)
                ==> self.shapes.view_map()[k].self_key_spec() == Some(k)
    }

    pub open spec fn model(self) -> PhysicsModel {
        PhysicsModel {
            worlds: self.worlds.view_map(),
            bodies: bodies_model(self.bodies),
            colliders: self.colliders.view_map(),
            shapes: shapes_model(self.shapes),
            world_queue: self.gc.queue_of(ObjectKind::World),
            body_queue: self.gc.queue_of(ObjectKind::RigidBody),
            area_queue: self.gc.queue_of(ObjectKind::Area),
            shape_queue: self.gc.queue_of(ObjectKind::Shape),
        }
    }

    pub fn new() -> (s: ServersStorage)
        ensures
            s.wf(),
            s.model().worlds == Map::<StoreKey, World>::empty(),
            s.model().bodies == Map::<StoreKey, BodyModel>::empty(),
            s.model().colliders == Map::<StoreKey, Collider>::empty(),
            s.model().shapes == Map::<StoreKey, ShapeModel>::empty(),
            s.model().world_queue == Seq::<StoreKey>::empty(),
            s.model().body_queue == Seq::<StoreKey>::empty(),
            s.model().area_queue == Seq::<StoreKey>::empty(),
            s.model().shape_queue == Seq::<StoreKey>::empty(),
            forall|kk: KindedKey| #[trigger] s.gc.count_of(kk) == 0,
    {
        let s = ServersStorage {
            gc: PhysicsGarbageCollector::new(),
            worlds: Storage::new(1, 1),
            bodies: Storage::new(50, 50),
            colliders: Storage::new(50, 50),
            shapes: Storage::new(50, 50),
        };
        proof {
            assert(s.model().bodies =~= Map::<StoreKey, BodyModel>::empty());
            assert(s.model().shapes =~= Map::<StoreKey, ShapeModel>::empty());
        }
        s
    }
}

} // verus!
