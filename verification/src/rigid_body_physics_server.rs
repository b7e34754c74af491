//! The rigid-body server: creation, shape attachment, transforms, forces.
//!
//! The free-standing helpers here (install/remove shape, install/drop
//! collider) are also used by the area server and by the garbage-collection
//! drain; they work on bodies of either kind and pick the matching
//! back-reference list on the shape.

use vstd::prelude::*;
use crate::body::{Body, BodyData, BodyModel};
use crate::collider::Collider;
use crate::ecs::Entity;
use crate::math::{FX_ONE, Isometry, Vec3, vec3_add_spec, vec3_cross_spec};
use crate::objects::{KindedKey, PhysicsHandle, PhysicsRigidBodyTag, PhysicsShapeTag, PhysicsTag,
    PhysicsWorldTag};
use crate::servers::{BodyMode, RigidBodyDesc};
use crate::servers_storage::{ServersStorage, PhysicsModel, bodies_model, shapes_model, counts_unchanged, issued_unchanged};
use crate::shape::{RigidShape, ShapeModel, without_key};
use crate::storage::{StoreKey, Storage};
use crate::utils::{ObjectType, UserData};

verus! {

/// The collider built for `b` against the geometry of `shape_key`: a sensor
/// for an area, a unit-density contact collider for a rigid body.
pub open spec fn collider_for(b: BodyModel, shape_key: StoreKey) -> Collider {
    Collider {
        self_key: None,
        body_key: b.self_key->0,
        world_key: b.world_key,
        shape_key: shape_key,
        sensor: b.is_area,
        density: if b.is_area {
            0
        } else {
            FX_ONE
        },
        user_data: Some(
            UserData {
                object_type: if b.is_area {
                    ObjectType::Area
                } else {
                    ObjectType::RigidBody
                },
                store_tag: b.self_key->0,
                entity: b.entity,
            },
        ),
    }
}

/// `s` with the back-reference of `body_key` removed from the list matching
/// the body's kind.
pub open spec fn shape_unregistered(s: ShapeModel, body_key: StoreKey, is_area: bool) -> ShapeModel {
    if is_area {
        ShapeModel { areas: without_key(s.areas, body_key), ..s }
    } else {
        ShapeModel { bodies: without_key(s.bodies, body_key), ..s }
    }
}

/// `s` with a back-reference to `body_key` added to the list matching the
/// body's kind.
pub open spec fn shape_registered(s: ShapeModel, body_key: StoreKey, is_area: bool) -> ShapeModel {
    if is_area {
        ShapeModel { areas: s.areas.push(body_key), ..s }
    } else {
        ShapeModel { bodies: s.bodies.push(body_key), ..s }
    }
}

/// Stateless collection of rigid-body operations; every function takes the
/// storages it works on explicitly.
pub struct RBodyNpServer;

impl RBodyNpServer {
    /// Build a collider for `body` against `shape_key`'s geometry, give it
    /// the body's user data, and attach it.  Returns the new collider's key.
    pub fn install_collider(body: &mut Body, colliders: &mut Storage<Collider>, shape_key: StoreKey) -> (ck: StoreKey)
        requires
            old(colliders).wf(),
            old(body).self_key is Some,
        ensures
            final(colliders).wf(),
            !old(colliders).issued().contains(ck),
            final(colliders).issued() == old(colliders).issued().insert(ck),
            final(colliders).view_map() == old(colliders).view_map().insert(
                ck,
                collider_for(old(body).model(), shape_key),
            ),
            final(body).model() == (BodyModel { collider_key: Some(ck), ..old(body).model() }),
    {
        let body_key = body.self_key.unwrap();
        let is_area = match &body.body_data {
            BodyData::Area(_) => true,
            BodyData::Rigid => false,
        };
        let density: i64 = if is_area {
            0
        } else {
            FX_ONE
        };
        let mut collider = Collider::new(body_key, body.world_key, shape_key, is_area, density);
        let object_type = if is_area {
            ObjectType::Area
        } else {
            ObjectType::RigidBody
        };
        collider.set_user_data(Some(UserData::new(object_type, body_key, body.entity)));
        let ck = colliders.insert(collider);
        body.collider_key = Some(ck);
        ck
    }

    /// Drop the collider of `body`, if it has one.
    pub fn drop_collider(body: &mut Body, colliders: &mut Storage<Collider>)
        requires
            old(colliders).wf(),
        ensures
            final(colliders).wf(),
            final(colliders).issued() == old(colliders).issued(),
            final(body).model() == (BodyModel { collider_key: None, ..old(body).model() }),
            match old(body).collider_key {
                Some(ck) => final(colliders).view_map() == old(colliders).view_map().remove(ck),
                None => final(colliders).view_map() == old(colliders).view_map(),
            },
    {
        match body.collider_key {
            Some(collider_key) => {
                colliders.remove(collider_key);
                body.collider_key = None;
                proof {
                    if !old(colliders).view_map().dom().contains(collider_key) {
                        assert(colliders.view_map() =~= old(colliders).view_map().remove(
                            collider_key,
                        ));
                    }
                }
            },
            None => {},
        }
    }

    /// Detach the shape of `body`: unregister the back-reference and drop
    /// the body's collider.
    pub fn remove_shape(body: &mut Body, shapes: &mut Storage<RigidShape>, colliders: &mut Storage<Collider>)
        requires
            old(shapes).wf(),
            old(colliders).wf(),
            old(body).self_key is Some,
        ensures
            final(shapes).wf(),
            final(colliders).wf(),
            final(shapes).issued() == old(shapes).issued(),
            final(colliders).issued() == old(colliders).issued(),
            final(body).model() == (BodyModel {
                shape_key: None,
                collider_key: None,
                ..old(body).model()
            }),
            shapes_model(*final(shapes)) == (match old(body).shape_key {
                Some(sk) => if shapes_model(*old(shapes)).dom().contains(sk) {
                    shapes_model(*old(shapes)).insert(
                        sk,
                        shape_unregistered(
                            shapes_model(*old(shapes))[sk],
                            old(body).self_key->0,
                            old(body).model().is_area,
                        ),
                    )
                } else {
                    shapes_model(*old(shapes))
                },
                None => shapes_model(*old(shapes)),
            }),
            match old(body).collider_key {
                Some(ck) => final(colliders).view_map() == old(colliders).view_map().remove(ck),
                None => final(colliders).view_map() == old(colliders).view_map(),
            },
            forall|k: StoreKey|
                #[trigger] final(shapes).view_map().dom().contains(k) ==> old(
                    shapes,
                ).view_map().dom().contains(k) && final(shapes).view_map()[k].self_key_spec()
                    == old(shapes).view_map()[k].self_key_spec(),
    {
        let body_key = body.self_key.unwrap();
        let is_area = match &body.body_data {
            BodyData::Area(_) => true,
            BodyData::Rigid => false,
        };
        match body.shape_key {
            Some(shape_key) => {
                match shapes.get_mut(shape_key) {
                    Some(shape) => {
                        if is_area {
                            shape.unregister_area(body_key);
                        } else {
                            shape.unregister_body(body_key);
                        }
                    },
                    None => {
                        // The shape vanished while still referenced; nothing
                        // to unregister.
                    },
                }
                body.shape_key = None;
            },
            None => {},
        }
        proof {
            assert(shapes_model(*shapes) =~= (match old(body).shape_key {
                Some(sk) => if shapes_model(*old(shapes)).dom().contains(sk) {
                    shapes_model(*old(shapes)).insert(
                        sk,
                        shape_unregistered(
                            shapes_model(*old(shapes))[sk],
                            old(body).self_key->0,
                            old(body).model().is_area,
                        ),
                    )
                } else {
                    shapes_model(*old(shapes))
                },
                None => shapes_model(*old(shapes)),
            }));
        }
        Self::drop_collider(body, colliders);
    }

    /// Attach `shape` to `body`: build the collider and register the
    /// back-reference.  `shape` must be the entry of `shape_key`.
    pub fn install_shape(body: &mut Body, shape: &mut RigidShape, shape_key: StoreKey, colliders: &mut Storage<Collider>) -> (ck: StoreKey)
        requires
            old(colliders).wf(),
            old(body).self_key is Some,
        ensures
            final(colliders).wf(),
            !old(colliders).issued().contains(ck),
            final(colliders).issued() == old(colliders).issued().insert(ck),
            final(colliders).view_map() == old(colliders).view_map().insert(
                ck,
                collider_for(old(body).model(), shape_key),
            ),
            final(body).model() == (BodyModel {
                collider_key: Some(ck),
                shape_key: Some(shape_key),
                ..old(body).model()
            }),
            final(shape).model() == shape_registered(
                old(shape).model(),
                old(body).self_key->0,
                old(body).model().is_area,
            ),
    {
        let ck = Self::install_collider(body, colliders, shape_key);
        let body_key = body.self_key.unwrap();
        let is_area = match &body.body_data {
            BodyData::Area(_) => true,
            BodyData::Rigid => false,
        };
        if is_area {
            shape.register_area(body_key);
        } else {
            shape.register_body(body_key);
        }
        body.shape_key = Some(shape_key);
        ck
    }
}

/// The storage key named by an optional shape tag.
pub open spec fn tag_key_opt(t: Option<PhysicsShapeTag>) -> Option<StoreKey> {
    match t {
        Some(tag) => Some(tag.0),
        None => None,
    }
}

/// `m` with the body entry of `k` replaced by `b`.
pub open spec fn with_body(m: PhysicsModel, k: StoreKey, b: BodyModel) -> PhysicsModel {
    PhysicsModel { bodies: m.bodies.insert(k, b), ..m }
}

/// The model value of a freshly created rigid body.
pub open spec fn new_rigid_body_model(self_key: StoreKey, world_key: StoreKey, mode: BodyMode, mass: i64) -> BodyModel {
    BodyModel {
        self_key: Some(self_key),
        is_area: false,
        overlap_events: Seq::empty(),
        world_key,
        collider_key: None,
        shape_key: None,
        entity: None,
        mode,
        mass,
        transform: crate::math::iso_identity_spec(),
        linear_velocity: crate::math::vec3_zero_spec(),
        angular_velocity: crate::math::vec3_zero_spec(),
        force: crate::math::vec3_zero_spec(),
        torque: crate::math::vec3_zero_spec(),
        impulse: crate::math::vec3_zero_spec(),
        angular_impulse: crate::math::vec3_zero_spec(),
    }
}

/// The shape map after body `body_key` (with value `b`) lets go of its
/// shape: the matching back-reference list loses the key.
pub open spec fn shapes_after_detach(shapes: Map<StoreKey, ShapeModel>, b: BodyModel, body_key: StoreKey) -> Map<StoreKey, ShapeModel> {
    match b.shape_key {
        Some(sk) => if shapes.dom().contains(sk) {
            shapes.insert(sk, shape_unregistered(shapes[sk], body_key, b.is_area))
        } else {
            shapes
        },
        None => shapes,
    }
}

/// The collider map after body `b` drops its collider.
pub open spec fn colliders_after_detach(colliders: Map<StoreKey, Collider>, b: BodyModel) -> Map<StoreKey, Collider> {
    match b.collider_key {
        Some(ck) => colliders.remove(ck),
        None => colliders,
    }
}

/// The state after detaching the current shape (if any) of `body_key`:
/// the back-reference is unregistered and the body's collider is dropped.
pub open spec fn detached_state(pre: PhysicsModel, body_key: StoreKey) -> PhysicsModel {
    let b = pre.bodies[body_key];
    match b.shape_key {
        None => pre,
        Some(sk) => PhysicsModel {
            bodies: pre.bodies.insert(
                body_key,
                BodyModel { shape_key: None, collider_key: None, ..b },
            ),
            shapes: shapes_after_detach(pre.shapes, b, body_key),
            colliders: colliders_after_detach(pre.colliders, b),
            ..pre
        },
    }
}

/// The effect of `set_shape` when the requested shape differs from the
/// current one, with `ck` naming the key of the collider built for the new
/// shape.
pub open spec fn set_shape_change(pre: PhysicsModel, post: PhysicsModel, body_key: StoreKey, shape_key: Option<StoreKey>, ck: StoreKey) -> bool {
    let mid = detached_state(pre, body_key);
    match shape_key {
        None => post == mid,
        Some(sk) => {
            if pre.shapes.dom().contains(sk) {
                &&& !pre.colliders.dom().contains(ck)
                &&& post == (PhysicsModel {
                    bodies: mid.bodies.insert(
                        body_key,
                        BodyModel {
                            shape_key: Some(sk),
                            collider_key: Some(ck),
                            ..mid.bodies[body_key]
                        },
                    ),
                    shapes: mid.shapes.insert(
                        sk,
                        shape_registered(mid.shapes[sk], body_key, pre.bodies[body_key].is_area),
                    ),
                    colliders: mid.colliders.insert(ck, collider_for(mid.bodies[body_key], sk)),
                    ..mid
                })
            } else {
                post == mid
            }
        },
    }
}

/// Exactly what `set_shape` does to the physics state, for every input:
/// a no-op for an unknown body or an unchanged shape key, otherwise detach
/// the old shape and attach the requested one (if it exists).
pub open spec fn set_shape_model_rel(pre: PhysicsModel, post: PhysicsModel, body_key: StoreKey, shape_key: Option<StoreKey>) -> bool {
    if !pre.bodies.dom().contains(body_key) {
        post == pre
    } else {
        if pre.bodies[body_key].shape_key == shape_key {
            post == pre
        } else {
            exists|ck: StoreKey| #[trigger] set_shape_change(pre, post, body_key, shape_key, ck)
        }
    }
}

/// Setting the same shape twice in a row is a no-op the second time: the
/// state after the second call — in particular every shape's back-reference
/// lists — is exactly the state the first call left.
pub proof fn lemma_set_shape_idempotent(s1: PhysicsModel, s2: PhysicsModel, s3: PhysicsModel, body_key: StoreKey, shape_key: Option<StoreKey>)
    requires
        set_shape_model_rel(s1, s2, body_key, shape_key),
        set_shape_model_rel(s2, s3, body_key, shape_key),
    ensures
        s3 == s2,
{
    if !s1.bodies.dom().contains(body_key) {
        assert(s2 == s1);
    } else if s1.bodies[body_key].shape_key == shape_key {
        assert(s2 == s1);
    } else {
        let ck = choose|ck: StoreKey| #[trigger] set_shape_change(s1, s2, body_key, shape_key, ck);
        let mid = detached_state(s1, body_key);
        assert(mid.bodies.dom().contains(body_key));
        assert(mid.bodies[body_key].shape_key is None);
        match shape_key {
            None => {
                assert(s2 == mid);
                assert(s2.bodies[body_key].shape_key == shape_key);
            },
            Some(sk) => {
                if s1.shapes.dom().contains(sk) {
                    assert(s2.bodies[body_key].shape_key == Some(sk));
                } else {
                    assert(s2 == mid);
                    assert(s2.bodies[body_key].shape_key is None);
                    let ck2 = choose|ck2: StoreKey|
                        #[trigger] set_shape_change(s2, s3, body_key, shape_key, ck2);
                    assert(detached_state(s2, body_key) == s2);
                    assert(!s2.shapes.dom().contains(sk));
                    assert(s3 == s2);
                }
            },
        }
    }
}

impl RBodyNpServer {
    /// Create a rigid body in `world_tag`'s world and hand back the owning
    /// handle.  The shape is attached separately (usually by the shape
    /// synchronization pass).
    pub fn create_body(storages: &mut ServersStorage, world_tag: PhysicsWorldTag, body_desc: &RigidBodyDesc) -> (h: PhysicsHandle<PhysicsRigidBodyTag>)
        requires
            old(storages).wf(),
        ensures
            final(storages).wf(),
            !old(storages).model().bodies.dom().contains(h.tag_spec().0),
            final(storages).model() == with_body(
                old(storages).model(),
                h.tag_spec().0,
                new_rigid_body_model(h.tag_spec().0, world_tag.0, body_desc.mode, body_desc.mass),
            ),
            final(storages).gc.count_of(h.tag_spec().kinded_spec()) == 1,
            forall|kk: KindedKey|
                kk != h.tag_spec().kinded_spec() ==> final(storages).gc.count_of(kk) == old(
                    storages,
                ).gc.count_of(kk),
    {
        let body = Body::new_rigid_body(world_tag.0, body_desc.mode, body_desc.mass);
        let b_key = storages.bodies.insert(body);
        match storages.bodies.get_mut(b_key) {
            Some(body) => {
                body.self_key = Some(b_key);
            },
            None => {
                proof {
                    assert(false);
                }
            },
        }
        let tag = PhysicsRigidBodyTag(b_key);
        proof {
            let kk = tag.kinded_spec();
            if old(storages).gc.count_of(kk) > 0 {
                assert(old(storages).key_issued(kk));
            }
            if old(storages).gc.queued(kk) {
                assert(old(storages).key_issued(kk));
            }
            assert(storages.model().bodies =~= old(storages).model().bodies.insert(
                b_key,
                new_rigid_body_model(b_key, world_tag.0, body_desc.mode, body_desc.mass),
            ));
        }
        let h = PhysicsHandle::new(tag, &mut storages.gc);
        proof {
            assert forall|kk: KindedKey| #[trigger] storages.gc.count_of(kk) > 0 implies
                storages.key_issued(kk) by {
                if kk != tag.kinded_spec() {
                    assert(old(storages).gc.count_of(kk) > 0);
                    assert(old(storages).key_issued(kk));
                }
            }
            assert forall|kk: KindedKey| #[trigger] storages.gc.queued(kk) implies
                storages.key_issued(kk) by {
                assert(storages.gc.queue_of(kk.kind) == old(storages).gc.queue_of(kk.kind));
                assert(old(storages).gc.queued(kk));
                assert(old(storages).key_issued(kk));
            }
        }
        h
    }

    /// Refresh the user data of `collider` from its owning body.
    pub fn update_user_data(collider: &mut Collider, body: &Body)
        requires
            body.self_key is Some,
        ensures
            *final(collider) == (Collider {
                user_data: (collider_for(body.model(), old(collider).shape_key)).user_data,
                ..*old(collider)
            }),
    {
        let object_type = match &body.body_data {
            BodyData::Area(_) => ObjectType::Area,
            BodyData::Rigid => ObjectType::RigidBody,
        };
        collider.set_user_data(
            Some(UserData::new(object_type, body.self_key.unwrap(), body.entity)),
        );
    }

    /// Associate the ECS entity owning this rigid body, refreshing the
    /// collider's user data.  A tag naming an area is refused.
    pub fn set_entity(storages: &mut ServersStorage, body_tag: PhysicsRigidBodyTag, entity: Option<Entity>)
        requires
            old(storages).wf(),
        ensures
            final(storages).wf(),
            counts_unchanged(*old(storages), *final(storages)),
            issued_unchanged(*old(storages), *final(storages)),
            ({
                let pre = old(storages).model();
                let post = final(storages).model();
                let k = body_tag.0;
                if pre.bodies.dom().contains(k) && !pre.bodies[k].is_area {
                    let b2 = BodyModel { entity, ..pre.bodies[k] };
                    let m1 = with_body(pre, k, b2);
                    post == (match pre.bodies[k].collider_key {
                        Some(ck) => if pre.colliders.dom().contains(ck) {
                            PhysicsModel {
                                colliders: m1.colliders.insert(
                                    ck,
                                    Collider {
                                        user_data: (collider_for(b2, pre.colliders[ck].shape_key)).user_data,
                                        ..pre.colliders[ck]
                                    },
                                ),
                                ..m1
                            }
                        } else {
                            m1
                        },
                        None => m1,
                    })
                } else {
                    post == pre
                }
            }),
    {
        let body_key = body_tag.0;
        match storages.bodies.get_mut(body_key) {
            Some(body) => {
                let is_rigid = match &body.body_data {
                    BodyData::Rigid => true,
                    BodyData::Area(_) => false,
                };
                if !is_rigid {
                    return ;
                }
                body.entity = entity;
                match body.collider_key {
                    Some(collider_key) => {
                        match storages.colliders.get_mut(collider_key) {
                            Some(collider) => {
                                Self::update_user_data(collider, body);
                            },
                            None => {
                                // A body points at a collider that no longer
                                // exists; leave the colliders alone.
                            },
                        }
                    },
                    None => {},
                }
            },
            None => {},
        }
        proof {
            assert(counts_unchanged(*old(storages), *storages));
            assert(storages.model().bodies =~= bodies_model(storages.bodies));
            let pre = old(storages).model();
            let post = storages.model();
            let k = body_tag.0;
            if pre.bodies.dom().contains(k) && !pre.bodies[k].is_area {
                let b2 = BodyModel { entity, ..pre.bodies[k] };
                let m1 = with_body(pre, k, b2);
                assert(post.bodies =~= m1.bodies);
                match pre.bodies[k].collider_key {
                    Some(ck) => {
                        if pre.colliders.dom().contains(ck) {
                            assert(post.colliders =~= m1.colliders.insert(
                                ck,
                                Collider {
                                    user_data: (collider_for(b2, pre.colliders[ck].shape_key)).user_data,
                                    ..pre.colliders[ck]
                                },
                            ));
                        } else {
                            assert(post.colliders =~= m1.colliders);
                        }
                    },
                    None => {
                        assert(post.colliders =~= m1.colliders);
                    },
                }
            } else {
                assert(post.bodies =~= pre.bodies);
                assert(post.colliders =~= pre.colliders);
            }
        }
    }

    /// The ECS entity associated with this body, if one was set.
    pub fn entity(storages: &ServersStorage, body_tag: PhysicsRigidBodyTag) -> (e: Option<Entity>)
        ensures
            e == (if storages.model().bodies.dom().contains(body_tag.0) {
                storages.model().bodies[body_tag.0].entity
            } else {
                None
            }),
    {
        match storages.bodies.get(body_tag.0) {
            Some(body) => body.entity,
            None => None,
        }
    }

    /// Key-level core of `set_shape`, shared with the area server.  Setting
    /// the shape the body already has is a no-op; otherwise the old shape is
    /// unregistered and its collider dropped, and the new shape (when it
    /// exists) is registered and a collider built against its geometry.
    pub fn set_shape_key(storages: &mut ServersStorage, body_key: StoreKey, shape_key: Option<StoreKey>)
        requires
            old(storages).wf(),
        ensures
            final(storages).wf(),
            counts_unchanged(*old(storages), *final(storages)),
            final(storages).worlds.issued() == old(storages).worlds.issued(),
            final(storages).bodies.issued() == old(storages).bodies.issued(),
            final(storages).shapes.issued() == old(storages).shapes.issued(),
            set_shape_model_rel(
                old(storages).model(),
                final(storages).model(),
                body_key,
                shape_key,
            ),
    {
        let ghost pre = old(storages).model();
        match storages.bodies.get_mut(body_key) {
            Some(body) => {
                let same = match (&body.shape_key, &shape_key) {
                    (Some(a), Some(b)) => a.index == b.index && a.generation == b.generation,
                    (None, None) => true,
                    _ => false,
                };
                if same {
                    proof {
                        assert(storages.model().bodies =~= pre.bodies);
                        assert(storages.model() =~= pre);
                    }
                    return ;
                }
                if body.shape_key.is_some() {
                    Self::remove_shape(body, &mut storages.shapes, &mut storages.colliders);
                }
                let ghost mid_shapes = storages.shapes;
                let ghost g_ck: StoreKey = StoreKey { index: 0, generation: 0 };
                let mut installed: bool = false;
                match shape_key {
                    Some(sk) => {
                        match storages.shapes.get_mut(sk) {
                            Some(shape) => {
                                let ck = Self::install_shape(
                                    body,
                                    shape,
                                    sk,
                                    &mut storages.colliders,
                                );
                                installed = true;
                                proof {
                                    g_ck = ck;
                                }
                            },
                            None => {
                                // The requested shape does not exist; the
                                // body is left without a shape.
                            },
                        }
                    },
                    None => {},
                }
                proof {
                    let post = storages.model();
                    let mid = detached_state(pre, body_key);
                    let bk = body_key;
                    assert(pre.bodies.dom().contains(bk));
                    let nowm = shapes_model(storages.shapes);
                    let midm = shapes_model(mid_shapes);
                    assert forall|k2: StoreKey| #[trigger] pre.shapes.dom().contains(k2) implies
                        nowm.dom().contains(k2) by {
                        assert(old(storages).shapes.view_map().dom().contains(k2));
                        assert(midm.dom().contains(k2));
                        assert(mid_shapes.view_map().dom().contains(k2));
                        assert(storages.shapes.view_map().dom().contains(k2));
                    }
                    assert forall|k2: StoreKey| #[trigger] nowm.dom().contains(k2) implies
                        pre.shapes.dom().contains(k2) by {
                        assert(storages.shapes.view_map().dom().contains(k2));
                        assert(mid_shapes.view_map().dom().contains(k2));
                        assert(midm.dom().contains(k2));
                        assert(old(storages).shapes.view_map().dom().contains(k2));
                    }
                    assert(pre.shapes.dom() =~= nowm.dom());
                    if installed {
                        let sk = shape_key->0;
                        assert(pre.shapes.dom().contains(sk));
                        assert(mid.bodies.dom().contains(bk));
                        assert(post.bodies =~= mid.bodies.insert(
                            bk,
                            BodyModel {
                                shape_key: Some(sk),
                                collider_key: Some(g_ck),
                                ..mid.bodies[bk]
                            },
                        ));
                        assert(post.shapes =~= mid.shapes.insert(
                            sk,
                            shape_registered(mid.shapes[sk], bk, pre.bodies[bk].is_area),
                        ));
                        assert(post.colliders =~= mid.colliders.insert(
                            g_ck,
                            collider_for(mid.bodies[bk], sk),
                        ));
                        assert(!pre.colliders.dom().contains(g_ck)) by {
                            if pre.colliders.dom().contains(g_ck) {
                                old(storages).colliders.lemma_live_is_issued(g_ck);
                            }
                        }
                        assert(post =~= (PhysicsModel {
                            bodies: mid.bodies.insert(
                                bk,
                                BodyModel {
                                    shape_key: Some(sk),
                                    collider_key: Some(g_ck),
                                    ..mid.bodies[bk]
                                },
                            ),
                            shapes: mid.shapes.insert(
                                sk,
                                shape_registered(mid.shapes[sk], bk, pre.bodies[bk].is_area),
                            ),
                            colliders: mid.colliders.insert(g_ck, collider_for(mid.bodies[bk], sk)),
                            ..mid
                        }));
                        assert(set_shape_change(pre, post, bk, shape_key, g_ck));
                    } else {
                        assert(post.bodies =~= mid.bodies);
                        assert(post.shapes =~= mid.shapes);
                        assert(post.colliders =~= mid.colliders);
                        assert(post =~= mid);
                        match shape_key {
                            Some(sk) => {
                                assert(!pre.shapes.dom().contains(sk));
                                assert(set_shape_change(pre, post, bk, shape_key, g_ck));
                            },
                            None => {
                                assert(set_shape_change(pre, post, bk, shape_key, g_ck));
                            },
                        }
                    }
                    assert forall|k2: StoreKey|
                        #[trigger] storages.shapes.view_map().dom().contains(k2) implies
                        storages.shapes.view_map()[k2].self_key_spec() == Some(k2) by {
                        let postm = shapes_model(storages.shapes);
                        let midm2 = shapes_model(mid_shapes);
                        let prem = shapes_model(old(storages).shapes);
                        assert(postm[k2] == storages.shapes.view_map()[k2].model());
                        assert(postm.dom().contains(k2));
                        assert(midm2.dom().contains(k2));
                        assert(midm2[k2] == mid_shapes.view_map()[k2].model());
                        assert(prem.dom().contains(k2));
                        assert(prem[k2] == old(storages).shapes.view_map()[k2].model());
                        assert(old(storages).shapes.view_map()[k2].self_key_spec() == Some(k2));
                        assert(midm2[k2].self_key == prem[k2].self_key);
                        assert(postm[k2].self_key == midm2[k2].self_key);
                    }
                }
            },
            None => {
                proof {
                    assert(storages.model() =~= pre);
                }
            },
        }
    }

    /// Attach, replace or clear the shape of a body.
    pub fn set_shape(storages: &mut ServersStorage, body_tag: PhysicsRigidBodyTag, shape_tag: Option<PhysicsShapeTag>)
        requires
            old(storages).wf(),
        ensures
            final(storages).wf(),
            counts_unchanged(*old(storages), *final(storages)),
            final(storages).worlds.issued() == old(storages).worlds.issued(),
            final(storages).bodies.issued() == old(storages).bodies.issued(),
            final(storages).shapes.issued() == old(storages).shapes.issued(),
            set_shape_model_rel(
                old(storages).model(),
                final(storages).model(),
                body_tag.0,
                tag_key_opt(shape_tag),
            ),
    {
        let shape_key = match shape_tag {
            Some(tag) => Some(tag.0),
            None => None,
        };
        Self::set_shape_key(storages, body_tag.0, shape_key);
    }

    /// Remove the body named by `body_key` outright: detach its shape, drop
    /// its collider, and free the storage slot.  A dead key is a no-op.
    pub fn drop_body(body_key: StoreKey, bodies: &mut Storage<Body>, colliders: &mut Storage<Collider>, shapes: &mut Storage<RigidShape>)
        requires
            old(bodies).wf(),
            old(colliders).wf(),
            old(shapes).wf(),
            forall|k: StoreKey|
                #[trigger] old(bodies).view_map().dom().contains(k)
                    ==> old(bodies).view_map()[k].self_key == Some(k),
        ensures
            final(bodies).wf(),
            final(colliders).wf(),
            final(shapes).wf(),
            final(bodies).issued() == old(bodies).issued(),
            final(colliders).issued() == old(colliders).issued(),
            final(shapes).issued() == old(shapes).issued(),
            bodies_model(*final(bodies)) == bodies_model(*old(bodies)).remove(body_key),
            forall|k: StoreKey|
                #[trigger] final(bodies).view_map().dom().contains(k)
                    ==> final(bodies).view_map()[k].self_key == Some(k),
            forall|k: StoreKey|
                #[trigger] final(shapes).view_map().dom().contains(k) ==> old(
                    shapes,
                ).view_map().dom().contains(k) && final(shapes).view_map()[k].self_key_spec()
                    == old(shapes).view_map()[k].self_key_spec(),
            ({
                let bm = bodies_model(*old(bodies));
                if bm.dom().contains(body_key) {
                    &&& shapes_model(*final(shapes)) == shapes_after_detach(
                        shapes_model(*old(shapes)),
                        bm[body_key],
                        body_key,
                    )
                    &&& final(colliders).view_map() == colliders_after_detach(
                        old(colliders).view_map(),
                        bm[body_key],
                    )
                } else {
                    &&& shapes_model(*final(shapes)) == shapes_model(*old(shapes))
                    &&& final(colliders).view_map() == old(colliders).view_map()
                }
            }),
    {
        match bodies.get_mut(body_key) {
            Some(body) => {
                Self::remove_shape(body, shapes, colliders);
            },
            None => {},
        }
        bodies.remove(body_key);
        proof {
            assert(bodies_model(*bodies) =~= bodies_model(*old(bodies)).remove(body_key));
            if bodies_model(*old(bodies)).dom().contains(body_key) {
                assert(bodies_model(*old(bodies))[body_key] == old(bodies).view_map()[
                    body_key].model());
                assert(shapes_model(*shapes) =~= shapes_after_detach(
                    shapes_model(*old(shapes)),
                    bodies_model(*old(bodies))[body_key],
                    body_key,
                ));
            }
        }
    }

    /// Set the transform of the body's dynamics object.
    pub fn set_body_transform(storages: &mut ServersStorage, body_tag: PhysicsRigidBodyTag, transf: &Isometry)
        requires
            old(storages).wf(),
        ensures
            final(storages).wf(),
            counts_unchanged(*old(storages), *final(storages)),
            issued_unchanged(*old(storages), *final(storages)),
            ({
                let pre = old(storages).model();
                let post = final(storages).model();
                let k = body_tag.0;
                if pre.bodies.dom().contains(k) {
                    post == with_body(pre, k, BodyModel { transform: *transf, ..pre.bodies[k] })
                } else {
                    post == pre
                }
            }),
    {
        match storages.bodies.get_mut(body_tag.0) {
            Some(body) => {
                body.transform = *transf;
            },
            None => {},
        }
        proof {
            let pre = old(storages).model();
            let k = body_tag.0;
            if pre.bodies.dom().contains(k) {
                assert(storages.model() =~= with_body(
                    pre,
                    k,
                    BodyModel { transform: *transf, ..pre.bodies[k] },
                ));
            } else {
                assert(storages.model() =~= pre);
            }
        }
    }

    /// The transform of the body's dynamics object; the identity if the tag
    /// is dead.
    pub fn body_transform(storages: &ServersStorage, body_tag: PhysicsRigidBodyTag) -> (t: Isometry)
        ensures
            t == (if storages.model().bodies.dom().contains(body_tag.0) {
                storages.model().bodies[body_tag.0].transform
            } else {
                crate::math::iso_identity_spec()
            }),
    {
        match storages.bodies.get(body_tag.0) {
            Some(body) => body.transform,
            None => Isometry::identity(),
        }
    }

    /// Zero all force and impulse accumulators of the body.
    pub fn clear_forces(storages: &mut ServersStorage, body_tag: PhysicsRigidBodyTag)
        requires
            old(storages).wf(),
        ensures
            final(storages).wf(),
            counts_unchanged(*old(storages), *final(storages)),
            issued_unchanged(*old(storages), *final(storages)),
            ({
                let pre = old(storages).model();
                let post = final(storages).model();
                let k = body_tag.0;
                if pre.bodies.dom().contains(k) {
                    post == with_body(
                        pre,
                        k,
                        BodyModel {
                            force: crate::math::vec3_zero_spec(),
                            torque: crate::math::vec3_zero_spec(),
                            impulse: crate::math::vec3_zero_spec(),
                            angular_impulse: crate::math::vec3_zero_spec(),
                            ..pre.bodies[k]
                        },
                    )
                } else {
                    post == pre
                }
            }),
    {
        match storages.bodies.get_mut(body_tag.0) {
            Some(body) => {
                body.force = Vec3::zero();
                body.torque = Vec3::zero();
                body.impulse = Vec3::zero();
                body.angular_impulse = Vec3::zero();
            },
            None => {},
        }
        proof {
            let pre = old(storages).model();
            let k = body_tag.0;
            if pre.bodies.dom().contains(k) {
                assert(storages.model() =~= with_body(
                    pre,
                    k,
                    BodyModel {
                        force: crate::math::vec3_zero_spec(),
                        torque: crate::math::vec3_zero_spec(),
                        impulse: crate::math::vec3_zero_spec(),
                        angular_impulse: crate::math::vec3_zero_spec(),
                        ..pre.bodies[k]
                    },
                ));
            } else {
                assert(storages.model() =~= pre);
            }
        }
    }

    /// Add a central force to the body's accumulator.
    pub fn apply_force(storages: &mut ServersStorage, body_tag: PhysicsRigidBodyTag, force: &Vec3)
        requires
            old(storages).wf(),
        ensures
            final(storages).wf(),
            counts_unchanged(*old(storages), *final(storages)),
            issued_unchanged(*old(storages), *final(storages)),
            ({
                let pre = old(storages).model();
                let post = final(storages).model();
                let k = body_tag.0;
                if pre.bodies.dom().contains(k) {
                    post == with_body(
                        pre,
                        k,
                        BodyModel {
                            force: vec3_add_spec(pre.bodies[k].force, *force),
                            ..pre.bodies[k]
                        },
                    )
                } else {
                    post == pre
                }
            }),
    {
        match storages.bodies.get_mut(body_tag.0) {
            Some(body) => {
                body.force = body.force.add_sat(*force);
            },
            None => {},
        }
        proof {
            let pre = old(storages).model();
            let k = body_tag.0;
            if pre.bodies.dom().contains(k) {
                assert(storages.model() =~= with_body(
                    pre,
                    k,
                    BodyModel {
                        force: vec3_add_spec(pre.bodies[k].force, *force),
                        ..pre.bodies[k]
                    },
                ));
            } else {
                assert(storages.model() =~= pre);
            }
        }
    }

    /// Add a torque to the body's accumulator.
    pub fn apply_torque(storages: &mut ServersStorage, body_tag: PhysicsRigidBodyTag, force: &Vec3)
        requires
            old(storages).wf(),
        ensures
            final(storages).wf(),
            counts_unchanged(*old(storages), *final(storages)),
            issued_unchanged(*old(storages), *final(storages)),
            ({
                let pre = old(storages).model();
                let post = final(storages).model();
                let k = body_tag.0;
                if pre.bodies.dom().contains(k) {
                    post == with_body(
                        pre,
                        k,
                        BodyModel {
                            torque: vec3_add_spec(pre.bodies[k].torque, *force),
                            ..pre.bodies[k]
                        },
                    )
                } else {
                    post == pre
                }
            }),
    {
        match storages.bodies.get_mut(body_tag.0) {
            Some(body) => {
                body.torque = body.torque.add_sat(*force);
            },
            None => {},
        }
        proof {
            let pre = old(storages).model();
            let k = body_tag.0;
            if pre.bodies.dom().contains(k) {
                assert(storages.model() =~= with_body(
                    pre,
                    k,
                    BodyModel {
                        torque: vec3_add_spec(pre.bodies[k].torque, *force),
                        ..pre.bodies[k]
                    },
                ));
            } else {
                assert(storages.model() =~= pre);
            }
        }
    }

    /// Add a force applied at a position relative to the center of mass:
    /// the force accumulates centrally and its lever arm adds torque.
    pub fn apply_force_at_position(storages: &mut ServersStorage, body_tag: PhysicsRigidBodyTag, force: &Vec3, position: &Vec3)
        requires
            old(storages).wf(),
        ensures
            final(storages).wf(),
            counts_unchanged(*old(storages), *final(storages)),
            issued_unchanged(*old(storages), *final(storages)),
            ({
                let pre = old(storages).model();
                let post = final(storages).model();
                let k = body_tag.0;
                if pre.bodies.dom().contains(k) {
                    post == with_body(
                        pre,
                        k,
                        BodyModel {
                            force: vec3_add_spec(pre.bodies[k].force, *force),
                            torque: vec3_add_spec(
                                pre.bodies[k].torque,
                                vec3_cross_spec(*position, *force),
                            ),
                            ..pre.bodies[k]
                        },
                    )
                } else {
                    post == pre
                }
            }),
    {
        match storages.bodies.get_mut(body_tag.0) {
            Some(body) => {
                body.force = body.force.add_sat(*force);
                body.torque = body.torque.add_sat(position.cross(*force));
            },
            None => {},
        }
        proof {
            let pre = old(storages).model();
            let k = body_tag.0;
            if pre.bodies.dom().contains(k) {
                assert(storages.model() =~= with_body(
                    pre,
                    k,
                    BodyModel {
                        force: vec3_add_spec(pre.bodies[k].force, *force),
                        torque: vec3_add_spec(
                            pre.bodies[k].torque,
                            vec3_cross_spec(*position, *force),
                        ),
                        ..pre.bodies[k]
                    },
                ));
            } else {
                assert(storages.model() =~= pre);
            }
        }
    }

    /// Add a central impulse, consumed by the next step.
    pub fn apply_impulse(storages: &mut ServersStorage, body_tag: PhysicsRigidBodyTag, impulse: &Vec3)
        requires
            old(storages).wf(),
        ensures
            final(storages).wf(),
            counts_unchanged(*old(storages), *final(storages)),
            issued_unchanged(*old(storages), *final(storages)),
            ({
                let pre = old(storages).model();
                let post = final(storages).model();
                let k = body_tag.0;
                if pre.bodies.dom().contains(k) {
                    post == with_body(
                        pre,
                        k,
                        BodyModel {
                            impulse: vec3_add_spec(pre.bodies[k].impulse, *impulse),
                            ..pre.bodies[k]
                        },
                    )
                } else {
                    post == pre
                }
            }),
    {
        match storages.bodies.get_mut(body_tag.0) {
            Some(body) => {
                body.impulse = body.impulse.add_sat(*impulse);
            },
            None => {},
        }
        proof {
            let pre = old(storages).model();
            let k = body_tag.0;
            if pre.bodies.dom().contains(k) {
                assert(storages.model() =~= with_body(
                    pre,
                    k,
                    BodyModel {
                        impulse: vec3_add_spec(pre.bodies[k].impulse, *impulse),
                        ..pre.bodies[k]
                    },
                ));
            } else {
                assert(storages.model() =~= pre);
            }
        }
    }

    /// Add an angular impulse, consumed by the next step.
    pub fn apply_angular_impulse(storages: &mut ServersStorage, body_tag: PhysicsRigidBodyTag, impulse: &Vec3)
        requires
            old(storages).wf(),
        ensures
            final(storages).wf(),
            counts_unchanged(*old(storages), *final(storages)),
            issued_unchanged(*old(storages), *final(storages)),
            ({
                let pre = old(storages).model();
                let post = final(storages).model();
                let k = body_tag.0;
                if pre.bodies.dom().contains(k) {
                    post == with_body(
                        pre,
                        k,
                        BodyModel {
                            angular_impulse: vec3_add_spec(
                                pre.bodies[k].angular_impulse,
                                *impulse,
                            ),
                            ..pre.bodies[k]
                        },
                    )
                } else {
                    post == pre
                }
            }),
    {
        match storages.bodies.get_mut(body_tag.0) {
            Some(body) => {
                body.angular_impulse = body.angular_impulse.add_sat(*impulse);
            },
            None => {},
        }
        proof {
            let pre = old(storages).model();
            let k = body_tag.0;
            if pre.bodies.dom().contains(k) {
                assert(storages.model() =~= with_body(
                    pre,
                    k,
                    BodyModel {
                        angular_impulse: vec3_add_spec(pre.bodies[k].angular_impulse, *impulse),
                        ..pre.bodies[k]
                    },
                ));
            } else {
                assert(storages.model() =~= pre);
            }
        }
    }

    /// Add an impulse applied at a position relative to the center of mass.
    pub fn apply_impulse_at_position(storages: &mut ServersStorage, body_tag: PhysicsRigidBodyTag, impulse: &Vec3, position: &Vec3)
        requires
            old(storages).wf(),
        ensures
            final(storages).wf(),
            counts_unchanged(*old(storages), *final(storages)),
            issued_unchanged(*old(storages), *final(storages)),
            ({
                let pre = old(storages).model();
                let post = final(storages).model();
                let k = body_tag.0;
                if pre.bodies.dom().contains(k) {
                    post == with_body(
                        pre,
                        k,
                        BodyModel {
                            impulse: vec3_add_spec(pre.bodies[k].impulse, *impulse),
                            angular_impulse: vec3_add_spec(
                                pre.bodies[k].angular_impulse,
                                vec3_cross_spec(*position, *impulse),
                            ),
                            ..pre.bodies[k]
                        },
                    )
                } else {
                    post == pre
                }
            }),
    {
        match storages.bodies.get_mut(body_tag.0) {
            Some(body) => {
                body.impulse = body.impulse.add_sat(*impulse);
                body.angular_impulse = body.angular_impulse.add_sat(position.cross(*impulse));
            },
            None => {},
        }
        proof {
            let pre = old(storages).model();
            let k = body_tag.0;
            if pre.bodies.dom().contains(k) {
                assert(storages.model() =~= with_body(
                    pre,
                    k,
                    BodyModel {
                        impulse: vec3_add_spec(pre.bodies[k].impulse, *impulse),
                        angular_impulse: vec3_add_spec(
                            pre.bodies[k].angular_impulse,
                            vec3_cross_spec(*position, *impulse),
                        ),
                        ..pre.bodies[k]
                    },
                ));
            } else {
                assert(storages.model() =~= pre);
            }
        }
    }

    /// Set the linear velocity of the body.
    pub fn set_linear_velocity(storages: &mut ServersStorage, body_tag: PhysicsRigidBodyTag, velocity: &Vec3)
        requires
            old(storages).wf(),
        ensures
            final(storages).wf(),
            counts_unchanged(*old(storages), *final(storages)),
            issued_unchanged(*old(storages), *final(storages)),
            ({
                let pre = old(storages).model();
                let post = final(storages).model();
                let k = body_tag.0;
                if pre.bodies.dom().contains(k) {
                    post == with_body(
                        pre,
                        k,
                        BodyModel { linear_velocity: *velocity, ..pre.bodies[k] },
                    )
                } else {
                    post == pre
                }
            }),
    {
        match storages.bodies.get_mut(body_tag.0) {
            Some(body) => {
                body.linear_velocity = *velocity;
            },
            None => {},
        }
        proof {
            let pre = old(storages).model();
            let k = body_tag.0;
            if pre.bodies.dom().contains(k) {
                assert(storages.model() =~= with_body(
                    pre,
                    k,
                    BodyModel { linear_velocity: *velocity, ..pre.bodies[k] },
                ));
            } else {
                assert(storages.model() =~= pre);
            }
        }
    }

    /// The linear velocity of the body; zero if the tag is dead.
    pub fn linear_velocity(storages: &ServersStorage, body_tag: PhysicsRigidBodyTag) -> (v: Vec3)
        ensures
            v == (if storages.model().bodies.dom().contains(body_tag.0) {
                storages.model().bodies[body_tag.0].linear_velocity
            } else {
                crate::math::vec3_zero_spec()
            }),
    {
        match storages.bodies.get(body_tag.0) {
            Some(body) => body.linear_velocity,
            None => Vec3::zero(),
        }
    }

    /// Set the angular velocity of the body.
    pub fn set_angular_velocity(storages: &mut ServersStorage, body_tag: PhysicsRigidBodyTag, velocity: &Vec3)
        requires
            old(storages).wf(),
        ensures
            final(storages).wf(),
            counts_unchanged(*old(storages), *final(storages)),
            issued_unchanged(*old(storages), *final(storages)),
            ({
                let pre = old(storages).model();
                let post = final(storages).model();
                let k = body_tag.0;
                if pre.bodies.dom().contains(k) {
                    post == with_body(
                        pre,
                        k,
                        BodyModel { angular_velocity: *velocity, ..pre.bodies[k] },
                    )
                } else {
                    post == pre
                }
            }),
    {
        match storages.bodies.get_mut(body_tag.0) {
            Some(body) => {
                body.angular_velocity = *velocity;
            },
            None => {},
        }
        proof {
            let pre = old(storages).model();
            let k = body_tag.0;
            if pre.bodies.dom().contains(k) {
                assert(storages.model() =~= with_body(
                    pre,
                    k,
                    BodyModel { angular_velocity: *velocity, ..pre.bodies[k] },
                ));
            } else {
                assert(storages.model() =~= pre);
            }
        }
    }

    /// The angular velocity of the body; zero if the tag is dead.
    pub fn angular_velocity(storages: &ServersStorage, body_tag: PhysicsRigidBodyTag) -> (v: Vec3)
        ensures
            v == (if storages.model().bodies.dom().contains(body_tag.0) {
                storages.model().bodies[body_tag.0].angular_velocity
            } else {
                crate::math::vec3_zero_spec()
            }),
    {
        match storages.bodies.get(body_tag.0) {
            Some(body) => body.angular_velocity,
            None => Vec3::zero(),
        }
    }

    /// The shape currently attached to the body, if any.
    pub fn shape(storages: &ServersStorage, body_tag: PhysicsRigidBodyTag) -> (t: Option<PhysicsShapeTag>)
        ensures
            tag_key_opt(t) == (if storages.model().bodies.dom().contains(body_tag.0) {
                storages.model().bodies[body_tag.0].shape_key
            } else {
                None
            }),
    {
        match storages.bodies.get(body_tag.0) {
            Some(body) => match body.shape_key {
                Some(sk) => Some(PhysicsShapeTag(sk)),
                None => None,
            },
            None => None,
        }
    }
}

} // verus!
