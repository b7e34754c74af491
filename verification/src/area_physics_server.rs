//! The area server: sensor bodies that report overlap events.

use vstd::prelude::*;
use crate::body::{Body, BodyData, BodyModel};
use crate::collider::Collider;
use crate::ecs::Entity;
use crate::math::Isometry;
use crate::objects::{KindedKey, PhysicsAreaTag, PhysicsHandle, PhysicsTag, PhysicsWorldTag};
use crate::rigid_body_physics_server::{RBodyNpServer, collider_for, set_shape_model_rel,
    with_body};
use crate::servers::{AreaDesc, BodyMode, OverlapEvent};
use crate::servers_storage::{ServersStorage, PhysicsModel, counts_unchanged, issued_unchanged};
use crate::shape::RigidShape;
use crate::storage::{StoreKey, Storage};

verus! {

/// The model value of a freshly created area: a static sensor body with an
/// empty event queue.
pub open spec fn new_area_model(self_key: StoreKey, world_key: StoreKey) -> BodyModel {
    BodyModel {
        self_key: Some(self_key),
        is_area: true,
        overlap_events: Seq::empty(),
        world_key,
        collider_key: None,
        shape_key: None,
        entity: None,
        mode: BodyMode::Static,
        mass: 0,
        transform: crate::math::iso_identity_spec(),
        linear_velocity: crate::math::vec3_zero_spec(),
        angular_velocity: crate::math::vec3_zero_spec(),
        force: crate::math::vec3_zero_spec(),
        torque: crate::math::vec3_zero_spec(),
        impulse: crate::math::vec3_zero_spec(),
        angular_impulse: crate::math::vec3_zero_spec(),
    }
}

/// Stateless collection of area operations.
pub struct AreaNpServer;

impl AreaNpServer {
    /// Create an area in `world_tag`'s world with the shape of `area_desc`
    /// attached, and hand back the owning handle.
    pub fn create_area(storages: &mut ServersStorage, world_tag: PhysicsWorldTag, area_desc: &AreaDesc) -> (h: PhysicsHandle<PhysicsAreaTag>)
        requires
            old(storages).wf(),
        ensures
            final(storages).wf(),
            !old(storages).model().bodies.dom().contains(h.tag_spec().0),
            set_shape_model_rel(
                with_body(
                    old(storages).model(),
                    h.tag_spec().0,
                    new_area_model(h.tag_spec().0, world_tag.0),
                ),
                final(storages).model(),
                h.tag_spec().0,
                Some(area_desc.shape.0),
            ),
            final(storages).gc.count_of(h.tag_spec().kinded_spec()) == 1,
            forall|kk: KindedKey|
                kk != h.tag_spec().kinded_spec() ==> final(storages).gc.count_of(kk) == old(
                    storages,
                ).gc.count_of(kk),
    {
        let body = Body::new_area(world_tag.0);
        let a_key = storages.bodies.insert(body);
        match storages.bodies.get_mut(a_key) {
            Some(area) => {
                area.self_key = Some(a_key);
            },
            None => {
                proof {
                    assert(false);
                }
            },
        }
        let tag = PhysicsAreaTag(a_key);
        proof {
            let kk = tag.kinded_spec();
            if old(storages).gc.count_of(kk) > 0 {
                assert(old(storages).key_issued(kk));
            }
            if old(storages).gc.queued(kk) {
                assert(old(storages).key_issued(kk));
            }
            assert(storages.model().bodies =~= old(storages).model().bodies.insert(
                a_key,
                new_area_model(a_key, world_tag.0),
            ));
        }
        let h = PhysicsHandle::new(tag, &mut storages.gc);
        proof {
            assert forall|kk: KindedKey| #[trigger] storages.gc.count_of(kk) > 0 implies
                storages.key_issued(kk) by {
                if kk != tag.kinded_spec() {
                    assert(old(storages).gc.count_of(kk) > 0);
                    assert(old(storages).key_issued(kk));
                }
            }
            assert forall|kk: KindedKey| #[trigger] storages.gc.queued(kk) implies
                storages.key_issued(kk) by {
                assert(storages.gc.queue_of(kk.kind) == old(storages).gc.queue_of(kk.kind));
                assert(old(storages).gc.queued(kk));
                assert(old(storages).key_issued(kk));
            }
            assert(storages.model() =~= with_body(
                old(storages).model(),
                a_key,
                new_area_model(a_key, world_tag.0),
            ));
        }
        RBodyNpServer::set_shape_key(storages, a_key, Some(area_desc.shape.0));
        h
    }

    /// Remove the area named by `area_key` outright: detach its shape, drop
    /// its collider, and free the storage slot.
    pub fn drop_area(area_key: StoreKey, bodies: &mut Storage<Body>, colliders: &mut Storage<Collider>, shapes: &mut Storage<RigidShape>)
        requires
            old(bodies).wf(),
            old(colliders).wf(),
            old(shapes).wf(),
            forall|k: StoreKey|
                #[trigger] old(bodies).view_map().dom().contains(k)
                    ==> old(bodies).view_map()[k].self_key == Some(k),
        ensures
            final(bodies).wf(),
            final(colliders).wf(),
            final(shapes).wf(),
            final(bodies).issued() == old(bodies).issued(),
            final(colliders).issued() == old(colliders).issued(),
            final(shapes).issued() == old(shapes).issued(),
            crate::servers_storage::bodies_model(*final(bodies))
                == crate::servers_storage::bodies_model(*old(bodies)).remove(area_key),
            forall|k: StoreKey|
                #[trigger] final(bodies).view_map().dom().contains(k)
                    ==> final(bodies).view_map()[k].self_key == Some(k),
            forall|k: StoreKey|
                #[trigger] final(shapes).view_map().dom().contains(k) ==> old(
                    shapes,
                ).view_map().dom().contains(k) && final(shapes).view_map()[k].self_key_spec()
                    == old(shapes).view_map()[k].self_key_spec(),
            ({
                let bm = crate::servers_storage::bodies_model(*old(bodies));
                if bm.dom().contains(area_key) {
                    &&& crate::servers_storage::shapes_model(*final(shapes))
                        == crate::rigid_body_physics_server::shapes_after_detach(
                        crate::servers_storage::shapes_model(*old(shapes)),
                        bm[area_key],
                        area_key,
                    )
                    &&& final(colliders).view_map()
                        == crate::rigid_body_physics_server::colliders_after_detach(
                        old(colliders).view_map(),
                        bm[area_key],
                    )
                } else {
                    &&& crate::servers_storage::shapes_model(*final(shapes))
                        == crate::servers_storage::shapes_model(*old(shapes))
                    &&& final(colliders).view_map() == old(colliders).view_map()
                }
            }),
    {
        RBodyNpServer::drop_body(area_key, bodies, colliders, shapes);
    }

    /// Associate the ECS entity owning this area, refreshing the collider's
    /// user data.  A tag naming a rigid body is refused.
    pub fn set_entity(storages: &mut ServersStorage, area_tag: PhysicsAreaTag, entity: Option<Entity>)
        requires
            old(storages).wf(),
        ensures
            final(storages).wf(),
            counts_unchanged(*old(storages), *final(storages)),
            issued_unchanged(*old(storages), *final(storages)),
            ({
                let pre = old(storages).model();
                let post = final(storages).model();
                let k = area_tag.0;
                if pre.bodies.dom().contains(k) && pre.bodies[k].is_area {
                    let b2 = BodyModel { entity, ..pre.bodies[k] };
                    let m1 = with_body(pre, k, b2);
                    post == (match pre.bodies[k].collider_key {
                        Some(ck) => if pre.colliders.dom().contains(ck) {
                            PhysicsModel {
                                colliders: m1.colliders.insert(
                                    ck,
                                    Collider {
                                        user_data: (collider_for(b2, pre.colliders[ck].shape_key)).user_data,
                                        ..pre.colliders[ck]
                                    },
                                ),
                                ..m1
                            }
                        } else {
                            m1
                        },
                        None => m1,
                    })
                } else {
                    post == pre
                }
            }),
    {
        let area_key = area_tag.0;
        match storages.bodies.get_mut(area_key) {
            Some(area) => {
                let is_area = match &area.body_data {
                    BodyData::Area(_) => true,
                    BodyData::Rigid => false,
                };
                if !is_area {
                    return ;
                }
                area.entity = entity;
                match area.collider_key {
                    Some(collider_key) => {
                        match storages.colliders.get_mut(collider_key) {
                            Some(collider) => {
                                RBodyNpServer::update_user_data(collider, area);
                            },
                            None => {},
                        }
                    },
                    None => {},
                }
            },
            None => {},
        }
        proof {
            assert(counts_unchanged(*old(storages), *storages));
            let pre = old(storages).model();
            let post = storages.model();
            let k = area_tag.0;
            if pre.bodies.dom().contains(k) && pre.bodies[k].is_area {
                let b2 = BodyModel { entity, ..pre.bodies[k] };
                let m1 = with_body(pre, k, b2);
                assert(post.bodies =~= m1.bodies);
                match pre.bodies[k].collider_key {
                    Some(ck) => {
                        if pre.colliders.dom().contains(ck) {
                            assert(post.colliders =~= m1.colliders.insert(
                                ck,
                                Collider {
                                    user_data: (collider_for(b2, pre.colliders[ck].shape_key)).user_data,
                                    ..pre.colliders[ck]
                                },
                            ));
                        } else {
                            assert(post.colliders =~= m1.colliders);
                        }
                    },
                    None => {
                        assert(post.colliders =~= m1.colliders);
                    },
                }
            } else {
                assert(post.bodies =~= pre.bodies);
                assert(post.colliders =~= pre.colliders);
            }
        }
    }

    /// The ECS entity associated with this area, if one was set.
    pub fn entity(storages: &ServersStorage, area_tag: PhysicsAreaTag) -> (e: Option<Entity>)
        ensures
            e == (if storages.model().bodies.dom().contains(area_tag.0) {
                storages.model().bodies[area_tag.0].entity
            } else {
                None
            }),
    {
        match storages.bodies.get(area_tag.0) {
            Some(area) => area.entity,
            None => None,
        }
    }

    /// Set the transform of the area's dynamics object.
    pub fn set_body_transform(storages: &mut ServersStorage, area_tag: PhysicsAreaTag, transf: &Isometry)
        requires
            old(storages).wf(),
        ensures
            final(storages).wf(),
            counts_unchanged(*old(storages), *final(storages)),
            issued_unchanged(*old(storages), *final(storages)),
            ({
                let pre = old(storages).model();
                let post = final(storages).model();
                let k = area_tag.0;
                if pre.bodies.dom().contains(k) {
                    post == with_body(pre, k, BodyModel { transform: *transf, ..pre.bodies[k] })
                } else {
                    post == pre
                }
            }),
    {
        match storages.bodies.get_mut(area_tag.0) {
            Some(area) => {
                area.transform = *transf;
            },
            None => {},
        }
        proof {
            let pre = old(storages).model();
            let k = area_tag.0;
            if pre.bodies.dom().contains(k) {
                assert(storages.model() =~= with_body(
                    pre,
                    k,
                    BodyModel { transform: *transf, ..pre.bodies[k] },
                ));
            } else {
                assert(storages.model() =~= pre);
            }
        }
    }

    /// The overlap transitions detected for this area in the most recent
    /// step.  The queue never accumulates across steps: it is cleared at the
    /// start of every event harvest.
    pub fn overlap_events(storages: &ServersStorage, area_tag: PhysicsAreaTag) -> (evs: Vec<OverlapEvent>)
        ensures
            evs@ == (if storages.model().bodies.dom().contains(area_tag.0) {
                storages.model().bodies[area_tag.0].overlap_events
            } else {
                Seq::<OverlapEvent>::empty()
            }),
    {
        match storages.bodies.get(area_tag.0) {
            Some(area) => {
                match &area.body_data {
                    BodyData::Area(queue) => {
                        let mut out: Vec<OverlapEvent> = Vec::new();
                        let mut i: usize = 0;
                        while i < queue.len()
                            invariant
                                i <= queue@.len(),
                                out@ == queue@.subrange(0, i as int),
                            decreases queue@.len() - i,
                        {
                            out.push(queue[i]);
                            proof {
                                assert(out@ =~= queue@.subrange(0, i + 1));
                            }
                            i = i + 1;
                        }
                        proof {
                            assert(queue@.subrange(0, queue@.len() as int) =~= queue@);
                        }
                        out
                    },
                    BodyData::Rigid => Vec::new(),
                }
            },
            None => Vec::new(),
        }
    }
}

} // verus!
