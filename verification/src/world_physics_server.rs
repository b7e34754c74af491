//! The world server: world lifecycle, the per-step garbage-collection drain,
//! and the step pipeline (drain, advance, harvest events).
//!
//! The dynamics and collision solving themselves belong to the simulation
//! backend; one step of a world is therefore split around it.  The drain runs
//! first, then the backend advances the mechanical world, and what it
//! reported — which bodies moved and which proximity transitions happened —
//! comes back as plain values in a `SimOutcome` that the harvest turns into
//! per-area overlap events.

use vstd::prelude::*;
use crate::body::{Body, BodyData, BodyModel};
use crate::collider::Collider;
use crate::ecs::Entity;
use crate::math::Isometry;
use crate::objects::{KindedKey, ObjectKind, PhysicsHandle, PhysicsRigidBodyTag, PhysicsShapeTag,
    PhysicsTag, PhysicsWorldTag};
use crate::rigid_body_physics_server::{RBodyNpServer, colliders_after_detach, shapes_after_detach};
use crate::servers::OverlapEvent;
use crate::servers_storage::{ServersStorage, PhysicsModel, bodies_model, shapes_model,
    counts_unchanged, issued_unchanged};
use crate::shape::{RigidShape, ShapeModel};
use crate::shape_physics_server::ShapeNpServer;
use crate::storage::{StoreKey, Storage};
use crate::utils::ObjectType;
use crate::world::World;

verus! {

/// A proximity status reported by the collision pipeline.
#[derive(Copy, Clone, Debug, PartialEq, Eq, Structural)]
pub enum Proximity {
    Intersecting,
    WithinMargin,
    Disjoint,
}

/// One proximity transition reported for a pair of colliders.
#[derive(Copy, Clone, Debug, PartialEq, Eq, Structural)]
pub struct ProximityRecord {
    pub collider1: StoreKey,
    pub collider2: StoreKey,
    pub prev_status: Proximity,
    pub new_status: Proximity,
}

/// A body the simulation moved, with its new transform.
#[derive(Copy, Clone, Debug, PartialEq, Eq, Structural)]
pub struct MovedBody {
    pub key: StoreKey,
    pub transform: Isometry,
}

/// Everything the simulation backend reported for one step of a world.
#[derive(Debug)]
pub struct SimOutcome {
    pub moved: Vec<MovedBody>,
    pub proximity_events: Vec<ProximityRecord>,
}

/// Classifies a transition: `Some(true)` is a genuine entry into
/// intersection, `Some(false)` a genuine exit, `None` no crossing of the
/// intersection boundary.
pub open spec fn transition_kind(prev: Proximity, new: Proximity) -> Option<bool> {
    if new is Intersecting && !(prev is Intersecting) {
        Some(true)
    } else if prev is Intersecting && !(new is Intersecting) {
        Some(false)
    } else {
        None
    }
}

/// Resolve the two colliders of a record to `(area key, body key, body
/// entity)` via their user data; `None` if either collider or its user data
/// is missing.  Exactly one side of a reported overlap is expected to be an
/// area; when the first collider belongs to a rigid body the second is taken
/// as the area, and the other way round.
pub open spec fn resolve_record(colliders: Map<StoreKey, Collider>, r: ProximityRecord) -> Option<
    (StoreKey, StoreKey, Option<Entity>),
> {
    if colliders.dom().contains(r.collider1) && colliders.dom().contains(r.collider2)
        && colliders[r.collider1].user_data is Some && colliders[r.collider2].user_data is Some {
        let ud1 = colliders[r.collider1].user_data->0;
        let ud2 = colliders[r.collider2].user_data->0;
        match ud1.object_type {
            ObjectType::RigidBody => Some((ud2.store_tag, ud1.store_tag, ud1.entity)),
            ObjectType::Area => Some((ud1.store_tag, ud2.store_tag, ud2.entity)),
        }
    } else {
        None
    }
}

/// Push the overlap event of one record onto the owning area's queue.  A
/// record that is not a genuine transition, cannot be resolved, or does not
/// lead to an area is skipped.
pub open spec fn apply_record(bodies: Map<StoreKey, BodyModel>, colliders: Map<StoreKey, Collider>, r: ProximityRecord) -> Map<StoreKey, BodyModel> {
    match transition_kind(r.prev_status, r.new_status) {
        None => bodies,
        Some(enter) => match resolve_record(colliders, r) {
            None => bodies,
            Some(resolved) => {
                let area_key = resolved.0;
                let body_key = resolved.1;
                let body_entity = resolved.2;
                if bodies.dom().contains(area_key) && bodies[area_key].is_area {
                    let ev = if enter {
                        OverlapEvent::Enter(PhysicsRigidBodyTag(body_key), body_entity)
                    } else {
                        OverlapEvent::Exit(PhysicsRigidBodyTag(body_key), body_entity)
                    };
                    bodies.insert(
                        area_key,
                        BodyModel {
                            overlap_events: bodies[area_key].overlap_events.push(ev),
                            ..bodies[area_key]
                        },
                    )
                } else {
                    bodies
                }
            },
        },
    }
}

/// Fold `apply_record` over a list of reported transitions.
pub open spec fn harvest_records(bodies: Map<StoreKey, BodyModel>, colliders: Map<StoreKey, Collider>, rs: Seq<ProximityRecord>) -> Map<StoreKey, BodyModel>
    decreases rs.len(),
{
    if rs.len() == 0 {
        bodies
    } else {
        harvest_records(
            apply_record(bodies, colliders, rs[0]),
            colliders,
            rs.subrange(1, rs.len() as int),
        )
    }
}

/// A body with its event queue emptied.
pub open spec fn cleared_body(b: BodyModel) -> BodyModel {
    BodyModel { overlap_events: Seq::empty(), ..b }
}

/// Every area's previous-frame event queue is cleared: an area's events
/// reflect exactly the most recent step, never an accumulation.
pub open spec fn clear_area_events(bodies: Map<StoreKey, BodyModel>) -> Map<StoreKey, BodyModel> {
    bodies.map_values(|b: BodyModel| cleared_body(b))
}

/// The whole event harvest: clear every queue, then fold the reported
/// transitions.
pub open spec fn fetch_events_model(m: PhysicsModel, rs: Seq<ProximityRecord>) -> PhysicsModel {
    PhysicsModel { bodies: harvest_records(clear_area_events(m.bodies), m.colliders, rs), ..m }
}

/// One moved body applied to the body map.
pub open spec fn apply_move(bodies: Map<StoreKey, BodyModel>, mv: MovedBody) -> Map<StoreKey, BodyModel> {
    if bodies.dom().contains(mv.key) {
        bodies.insert(mv.key, BodyModel { transform: mv.transform, ..bodies[mv.key] })
    } else {
        bodies
    }
}

/// The simulation's transform results written back into the body map.
pub open spec fn apply_moves(bodies: Map<StoreKey, BodyModel>, moves: Seq<MovedBody>) -> Map<StoreKey, BodyModel>
    decreases moves.len(),
{
    if moves.len() == 0 {
        bodies
    } else {
        apply_moves(apply_move(bodies, moves[0]), moves.subrange(1, moves.len() as int))
    }
}

/// Dropping one queued body or area: detach its shape, drop its collider,
/// free the slot.
pub open spec fn drop_body_maps(bodies: Map<StoreKey, BodyModel>, colliders: Map<StoreKey, Collider>, shapes: Map<StoreKey, ShapeModel>, k: StoreKey) -> (
    Map<StoreKey, BodyModel>,
    Map<StoreKey, Collider>,
    Map<StoreKey, ShapeModel>,
) {
    if bodies.dom().contains(k) {
        let b = bodies[k];
        (bodies.remove(k), colliders_after_detach(colliders, b), shapes_after_detach(shapes, b, k))
    } else {
        (bodies, colliders, shapes)
    }
}

/// Fold `drop_body_maps` over a removal queue.
pub open spec fn drain_bodies_maps(bodies: Map<StoreKey, BodyModel>, colliders: Map<StoreKey, Collider>, shapes: Map<StoreKey, ShapeModel>, q: Seq<StoreKey>) -> (
    Map<StoreKey, BodyModel>,
    Map<StoreKey, Collider>,
    Map<StoreKey, ShapeModel>,
)
    decreases q.len(),
{
    if q.len() == 0 {
        (bodies, colliders, shapes)
    } else {
        let t = drop_body_maps(bodies, colliders, shapes, q[0]);
        drain_bodies_maps(t.0, t.1, t.2, q.subrange(1, q.len() as int))
    }
}

/// Draining the shape queue: a queued shape still in use is marked and stays
/// queued for a later pass; one no longer referenced is removed.  Returns
/// the shape map and the keys that stay queued, in order.
pub open spec fn drain_shapes_maps(shapes: Map<StoreKey, ShapeModel>, q: Seq<StoreKey>) -> (
    Map<StoreKey, ShapeModel>,
    Seq<StoreKey>,
)
    decreases q.len(),
{
    if q.len() == 0 {
        (shapes, Seq::empty())
    } else {
        let k = q[0];
        if shapes.dom().contains(k) && shapes[k].in_use() {
            let r = drain_shapes_maps(
                shapes.insert(k, ShapeModel { marked_for_drop: true, ..shapes[k] }),
                q.subrange(1, q.len() as int),
            );
            (r.0, seq![k] + r.1)
        } else {
            drain_shapes_maps(shapes.remove(k), q.subrange(1, q.len() as int))
        }
    }
}

/// Draining the world queue: every queued world is removed.
pub open spec fn drain_worlds_map(worlds: Map<StoreKey, World>, q: Seq<StoreKey>) -> Map<StoreKey, World>
    decreases q.len(),
{
    if q.len() == 0 {
        worlds
    } else {
        drain_worlds_map(worlds.remove(q[0]), q.subrange(1, q.len() as int))
    }
}

/// The whole garbage-collection drain, in dependency order: queued bodies
/// and areas first, then shapes, then worlds.  All queues end empty except
/// the shape queue, which keeps the shapes whose removal was deferred.
pub open spec fn gc_drain_model(m: PhysicsModel) -> PhysicsModel {
    let t1 = drain_bodies_maps(m.bodies, m.colliders, m.shapes, m.body_queue);
    let t2 = drain_bodies_maps(t1.0, t1.1, t1.2, m.area_queue);
    let s = drain_shapes_maps(t2.2, m.shape_queue);
    PhysicsModel {
        worlds: drain_worlds_map(m.worlds, m.world_queue),
        bodies: t2.0,
        colliders: t2.1,
        shapes: s.0,
        world_queue: Seq::empty(),
        body_queue: Seq::empty(),
        area_queue: Seq::empty(),
        shape_queue: s.1,
    }
}

/// One full step of a world: drain the garbage collector, write back the
/// transforms the simulation produced, then harvest the reported proximity
/// transitions.  A dead world tag stops after the drain.
pub open spec fn step_model(m: PhysicsModel, world_key: StoreKey, moves: Seq<MovedBody>, rs: Seq<ProximityRecord>) -> PhysicsModel {
    let m1 = gc_drain_model(m);
    if m1.worlds.dom().contains(world_key) {
        let m2 = PhysicsModel { bodies: apply_moves(m1.bodies, moves), ..m1 };
        fetch_events_model(m2, rs)
    } else {
        m1
    }
}

/// Draining the shape queue never adds a shape.
proof fn lemma_drain_shapes_no_new(shapes: Map<StoreKey, ShapeModel>, q: Seq<StoreKey>, k: StoreKey)
    requires
        !shapes.dom().contains(k),
    ensures
        !drain_shapes_maps(shapes, q).0.dom().contains(k),
    decreases q.len(),
{
    if q.len() > 0 {
        let k0 = q[0];
        if shapes.dom().contains(k0) && shapes[k0].in_use() {
            lemma_drain_shapes_no_new(
                shapes.insert(k0, ShapeModel { marked_for_drop: true, ..shapes[k0] }),
                q.subrange(1, q.len() as int),
                k,
            );
        } else {
            lemma_drain_shapes_no_new(shapes.remove(k0), q.subrange(1, q.len() as int), k);
        }
    }
}

/// A shape still referenced by a body or an area survives a whole drain of
/// the shape queue, with its back-reference lists untouched.
pub proof fn lemma_drain_keeps_used_shape(shapes: Map<StoreKey, ShapeModel>, q: Seq<StoreKey>, k: StoreKey)
    requires
        shapes.dom().contains(k),
        shapes[k].in_use(),
    ensures
        drain_shapes_maps(shapes, q).0.dom().contains(k),
        drain_shapes_maps(shapes, q).0[k].bodies == shapes[k].bodies,
        drain_shapes_maps(shapes, q).0[k].areas == shapes[k].areas,
    decreases q.len(),
{
    if q.len() > 0 {
        let k0 = q[0];
        if shapes.dom().contains(k0) && shapes[k0].in_use() {
            lemma_drain_keeps_used_shape(
                shapes.insert(k0, ShapeModel { marked_for_drop: true, ..shapes[k0] }),
                q.subrange(1, q.len() as int),
                k,
            );
        } else {
            assert(k0 != k);
            lemma_drain_keeps_used_shape(shapes.remove(k0), q.subrange(1, q.len() as int), k);
        }
    }
}

/// Once nothing references a queued shape, the drain removes it.
pub proof fn lemma_drain_removes_free_shape(shapes: Map<StoreKey, ShapeModel>, q: Seq<StoreKey>, k: StoreKey)
    requires
        q.contains(k),
        shapes.dom().contains(k) ==> !shapes[k].in_use(),
    ensures
        !drain_shapes_maps(shapes, q).0.dom().contains(k),
    decreases q.len(),
{
    let k0 = q[0];
    let rest = q.subrange(1, q.len() as int);
    if k0 == k {
        lemma_drain_shapes_no_new(shapes.remove(k), rest, k);
    } else {
        let idx = choose|idx: int| 0 <= idx < q.len() && q[idx] == k;
        assert(rest[idx - 1] == k);
        assert(rest.contains(k));
        if shapes.dom().contains(k0) && shapes[k0].in_use() {
            lemma_drain_removes_free_shape(
                shapes.insert(k0, ShapeModel { marked_for_drop: true, ..shapes[k0] }),
                rest,
                k,
            );
        } else {
            lemma_drain_removes_free_shape(shapes.remove(k0), rest, k);
        }
    }
}

/// Harvesting overlap events never changes which bodies exist, nor any
/// body's transform.
proof fn lemma_harvest_keeps_transforms(bodies: Map<StoreKey, BodyModel>, colliders: Map<StoreKey, Collider>, rs: Seq<ProximityRecord>)
    ensures
        harvest_records(bodies, colliders, rs).dom() == bodies.dom(),
        forall|k: StoreKey|
            bodies.dom().contains(k) ==> #[trigger] harvest_records(bodies, colliders, rs)[k].transform
                == bodies[k].transform,
    decreases rs.len(),
{
    if rs.len() > 0 {
        let b1 = apply_record(bodies, colliders, rs[0]);
        assert(b1.dom() =~= bodies.dom());
        lemma_harvest_keeps_transforms(b1, colliders, rs.subrange(1, rs.len() as int));
    }
}

/// Stepping a world with no queued removals and no transform results from
/// the simulation leaves every stored body and its transform unchanged —
/// only bodies the simulation actually moved can change.
pub proof fn lemma_step_keeps_transforms(m: PhysicsModel, world_key: StoreKey, rs: Seq<ProximityRecord>)
    requires
        m.body_queue.len() == 0,
        m.area_queue.len() == 0,
        m.shape_queue.len() == 0,
        m.world_queue.len() == 0,
    ensures
        step_model(m, world_key, Seq::empty(), rs).bodies.dom() == m.bodies.dom(),
        forall|k: StoreKey|
            m.bodies.dom().contains(k) ==> #[trigger] step_model(
                m,
                world_key,
                Seq::empty(),
                rs,
            ).bodies[k].transform == m.bodies[k].transform,
{
    let m1 = gc_drain_model(m);
    assert(m1.bodies == m.bodies);
    assert(m1.colliders == m.colliders);
    if m1.worlds.dom().contains(world_key) {
        let m2 = PhysicsModel { bodies: apply_moves(m1.bodies, Seq::empty()), ..m1 };
        assert(m2.bodies == m.bodies);
        let cleared = clear_area_events(m2.bodies);
        assert(cleared.dom() =~= m.bodies.dom());
        lemma_harvest_keeps_transforms(cleared, m2.colliders, rs);
        assert(step_model(m, world_key, Seq::empty(), rs).bodies == harvest_records(
            cleared,
            m2.colliders,
            rs,
        ));
    }
}

/// A record that does not cross the intersection boundary produces no
/// event.
pub proof fn lemma_overlap_no_crossing_no_event(bodies: Map<StoreKey, BodyModel>, colliders: Map<StoreKey, Collider>, r: ProximityRecord)
    requires
        transition_kind(r.prev_status, r.new_status) is None,
    ensures
        apply_record(bodies, colliders, r) == bodies,
{
}

/// A pair of colliders crossing from non-intersecting to intersecting
/// produces exactly one `Enter` event on the owning area, and nothing else
/// changes.
pub proof fn lemma_overlap_enter_exactly_once(bodies: Map<StoreKey, BodyModel>, colliders: Map<StoreKey, Collider>, r: ProximityRecord, area_key: StoreKey, body_key: StoreKey, body_entity: Option<Entity>)
    requires
        !(r.prev_status is Intersecting),
        r.new_status is Intersecting,
        resolve_record(colliders, r) == Some((area_key, body_key, body_entity)),
        bodies.dom().contains(area_key),
        bodies[area_key].is_area,
    ensures
        apply_record(bodies, colliders, r) == bodies.insert(
            area_key,
            BodyModel {
                overlap_events: bodies[area_key].overlap_events.push(
                    OverlapEvent::Enter(PhysicsRigidBodyTag(body_key), body_entity),
                ),
                ..bodies[area_key]
            },
        ),
        forall|k: StoreKey|
            k != area_key ==> #[trigger] apply_record(bodies, colliders, r)[k] == bodies[k],
{
}

/// A pair of colliders crossing from intersecting to non-intersecting
/// produces exactly one `Exit` event on the owning area, and nothing else
/// changes.
pub proof fn lemma_overlap_exit_exactly_once(bodies: Map<StoreKey, BodyModel>, colliders: Map<StoreKey, Collider>, r: ProximityRecord, area_key: StoreKey, body_key: StoreKey, body_entity: Option<Entity>)
    requires
        r.prev_status is Intersecting,
        !(r.new_status is Intersecting),
        resolve_record(colliders, r) == Some((area_key, body_key, body_entity)),
        bodies.dom().contains(area_key),
        bodies[area_key].is_area,
    ensures
        apply_record(bodies, colliders, r) == bodies.insert(
            area_key,
            BodyModel {
                overlap_events: bodies[area_key].overlap_events.push(
                    OverlapEvent::Exit(PhysicsRigidBodyTag(body_key), body_entity),
                ),
                ..bodies[area_key]
            },
        ),
        forall|k: StoreKey|
            k != area_key ==> #[trigger] apply_record(bodies, colliders, r)[k] == bodies[k],
{
}

/// Stateless collection of world operations.
pub struct WorldNpServer;

impl WorldNpServer {
    /// Create a world and hand back the owning handle.
    pub fn create_world(storages: &mut ServersStorage) -> (h: PhysicsHandle<PhysicsWorldTag>)
        requires
            old(storages).wf(),
        ensures
            final(storages).wf(),
            !old(storages).model().worlds.dom().contains(h.tag_spec().0),
            final(storages).model() == (PhysicsModel {
                worlds: old(storages).model().worlds.insert(h.tag_spec().0, World::new_spec()),
                ..old(storages).model()
            }),
            final(storages).gc.count_of(h.tag_spec().kinded_spec()) == 1,
            forall|kk: KindedKey|
                kk != h.tag_spec().kinded_spec() ==> final(storages).gc.count_of(kk) == old(
                    storages,
                ).gc.count_of(kk),
    {
        let world = World::new();
        let w_key = storages.worlds.insert(world);
        let tag = PhysicsWorldTag(w_key);
        proof {
            let kk = tag.kinded_spec();
            if old(storages).gc.count_of(kk) > 0 {
                assert(old(storages).key_issued(kk));
            }
            if old(storages).gc.queued(kk) {
                assert(old(storages).key_issued(kk));
            }
        }
        let h = PhysicsHandle::new(tag, &mut storages.gc);
        proof {
            assert forall|kk: KindedKey| #[trigger] storages.gc.count_of(kk) > 0 implies
                storages.key_issued(kk) by {
                if kk != tag.kinded_spec() {
                    assert(old(storages).gc.count_of(kk) > 0);
                    assert(old(storages).key_issued(kk));
                }
            }
            assert forall|kk: KindedKey| #[trigger] storages.gc.queued(kk) implies
                storages.key_issued(kk) by {
                assert(storages.gc.queue_of(kk.kind) == old(storages).gc.queue_of(kk.kind));
                assert(old(storages).gc.queued(kk));
                assert(old(storages).key_issued(kk));
            }
            assert(storages.model().bodies =~= old(storages).model().bodies);
            assert(storages.model().shapes =~= old(storages).model().shapes);
        }
        h
    }

    /// Drain the garbage collector: turn every queued removal request into
    /// the actual storage mutations, in dependency order — bodies and areas
    /// first, then shapes, then worlds.  A shape still referenced is marked
    /// and stays queued; everything else leaves its queue.
    pub fn garbage_collect(storages: &mut ServersStorage)
        requires
            old(storages).wf(),
        ensures
            final(storages).wf(),
            counts_unchanged(*old(storages), *final(storages)),
            issued_unchanged(*old(storages), *final(storages)),
            final(storages).model() == gc_drain_model(old(storages).model()),
    {
        let ghost m0 = old(storages).model();

        // Queued bodies.
        let bq = storages.gc.take_queue(ObjectKind::RigidBody);
        let ghost gc1 = storages.gc;
        let ghost worlds1 = storages.worlds;
        proof {
            assert(bq@.subrange(0, bq@.len() as int) =~= bq@);
        }
        let mut i: usize = 0;
        while i < bq.len()
            invariant
                i <= bq@.len(),
                storages.gc == gc1,
                storages.worlds == worlds1,
                storages.bodies.wf(),
                storages.colliders.wf(),
                storages.shapes.wf(),
                storages.bodies.issued() == old(storages).bodies.issued(),
                storages.colliders.issued() == old(storages).colliders.issued(),
                storages.shapes.issued() == old(storages).shapes.issued(),
                forall|k: StoreKey|
                    #[trigger] storages.bodies.view_map().dom().contains(k)
                        ==> storages.bodies.view_map()[k].self_key == Some(k),
                forall|k: StoreKey|
                    #[trigger] storages.shapes.view_map().dom().contains(k)
                        ==> storages.shapes.view_map()[k].self_key_spec() == Some(k),
                drain_bodies_maps(m0.bodies, m0.colliders, m0.shapes, bq@) == drain_bodies_maps(
                    bodies_model(storages.bodies),
                    storages.colliders.view_map(),
                    shapes_model(storages.shapes),
                    bq@.subrange(i as int, bq@.len() as int),
                ),
            decreases bq@.len() - i,
        {
            let ghost bcur = bodies_model(storages.bodies);
            let ghost ccur = storages.colliders.view_map();
            let ghost scur = shapes_model(storages.shapes);
            RBodyNpServer::drop_body(
                bq[i],
                &mut storages.bodies,
                &mut storages.colliders,
                &mut storages.shapes,
            );
            i = i + 1;
            proof {
                let rest = bq@.subrange(i - 1, bq@.len() as int);
                assert(rest[0] == bq@[i - 1]);
                assert(rest.subrange(1, rest.len() as int) =~= bq@.subrange(
                    i as int,
                    bq@.len() as int,
                ));
                let t = drop_body_maps(bcur, ccur, scur, bq@[i - 1]);
                assert(bodies_model(storages.bodies) =~= t.0);
                assert(storages.colliders.view_map() =~= t.1);
                assert(shapes_model(storages.shapes) =~= t.2);
            }
        }
        proof {
            assert(bq@.subrange(bq@.len() as int, bq@.len() as int) =~= Seq::<StoreKey>::empty());
        }

        // Queued areas; areas are bodies, so the same removal applies.
        let aq = storages.gc.take_queue(ObjectKind::Area);
        let ghost gc2 = storages.gc;
        let ghost t1 = drain_bodies_maps(m0.bodies, m0.colliders, m0.shapes, m0.body_queue);
        proof {
            assert(aq@.subrange(0, aq@.len() as int) =~= aq@);
            assert(t1.0 =~= bodies_model(storages.bodies));
            assert(t1.1 =~= storages.colliders.view_map());
            assert(t1.2 =~= shapes_model(storages.shapes));
        }
        let mut i2: usize = 0;
        while i2 < aq.len()
            invariant
                i2 <= aq@.len(),
                storages.gc == gc2,
                storages.worlds == worlds1,
                storages.bodies.wf(),
                storages.colliders.wf(),
                storages.shapes.wf(),
                storages.bodies.issued() == old(storages).bodies.issued(),
                storages.colliders.issued() == old(storages).colliders.issued(),
                storages.shapes.issued() == old(storages).shapes.issued(),
                forall|k: StoreKey|
                    #[trigger] storages.bodies.view_map().dom().contains(k)
                        ==> storages.bodies.view_map()[k].self_key == Some(k),
                forall|k: StoreKey|
                    #[trigger] storages.shapes.view_map().dom().contains(k)
                        ==> storages.shapes.view_map()[k].self_key_spec() == Some(k),
                drain_bodies_maps(t1.0, t1.1, t1.2, aq@) == drain_bodies_maps(
                    bodies_model(storages.bodies),
                    storages.colliders.view_map(),
                    shapes_model(storages.shapes),
                    aq@.subrange(i2 as int, aq@.len() as int),
                ),
            decreases aq@.len() - i2,
        {
            let ghost bcur = bodies_model(storages.bodies);
            let ghost ccur = storages.colliders.view_map();
            let ghost scur = shapes_model(storages.shapes);
            RBodyNpServer::drop_body(
                aq[i2],
                &mut storages.bodies,
                &mut storages.colliders,
                &mut storages.shapes,
            );
            i2 = i2 + 1;
            proof {
                let rest = aq@.subrange(i2 - 1, aq@.len() as int);
                assert(rest[0] == aq@[i2 - 1]);
                assert(rest.subrange(1, rest.len() as int) =~= aq@.subrange(
                    i2 as int,
                    aq@.len() as int,
                ));
                let t = drop_body_maps(bcur, ccur, scur, aq@[i2 - 1]);
                assert(bodies_model(storages.bodies) =~= t.0);
                assert(storages.colliders.view_map() =~= t.1);
                assert(shapes_model(storages.shapes) =~= t.2);
            }
        }
        proof {
            assert(aq@.subrange(aq@.len() as int, aq@.len() as int) =~= Seq::<StoreKey>::empty());
        }

        // Queued shapes: remove the unreferenced ones, keep the rest queued.
        let sq = storages.gc.take_queue(ObjectKind::Shape);
        let ghost bodies3 = storages.bodies;
        let ghost colliders3 = storages.colliders;
        let ghost s3 = shapes_model(storages.shapes);
        let ghost full = drain_shapes_maps(s3, sq@);
        proof {
            assert(sq@.subrange(0, sq@.len() as int) =~= sq@);
            assert(storages.gc.queue_of(ObjectKind::Shape) + drain_shapes_maps(
                shapes_model(storages.shapes),
                sq@,
            ).1 =~= drain_shapes_maps(shapes_model(storages.shapes), sq@).1);
        }
        let mut j: usize = 0;
        while j < sq.len()
            invariant
                j <= sq@.len(),
                old(storages).wf(),
                m0 == old(storages).model(),
                sq@ == m0.shape_queue,
                storages.bodies == bodies3,
                storages.colliders == colliders3,
                storages.worlds == worlds1,
                storages.gc.wf(),
                storages.shapes.wf(),
                storages.shapes.issued() == old(storages).shapes.issued(),
                forall|k: StoreKey|
                    #[trigger] storages.shapes.view_map().dom().contains(k)
                        ==> storages.shapes.view_map()[k].self_key_spec() == Some(k),
                forall|kk: KindedKey|
                    #[trigger] storages.gc.count_of(kk) == old(storages).gc.count_of(kk),
                storages.gc.queue_of(ObjectKind::RigidBody) == Seq::<StoreKey>::empty(),
                storages.gc.queue_of(ObjectKind::Area) == Seq::<StoreKey>::empty(),
                storages.gc.queue_of(ObjectKind::World) == m0.world_queue,
                full == ({
                    let r = drain_shapes_maps(
                        shapes_model(storages.shapes),
                        sq@.subrange(j as int, sq@.len() as int),
                    );
                    (r.0, storages.gc.queue_of(ObjectKind::Shape) + r.1)
                }),
                forall|x: StoreKey|
                    #[trigger] storages.gc.queue_of(ObjectKind::Shape).contains(x) ==> sq@.subrange(
                        0,
                        j as int,
                    ).contains(x),
            decreases sq@.len() - j,
        {
            let key = sq[j];
            let tag = PhysicsShapeTag(key);
            let ghost scur = shapes_model(storages.shapes);
            let ghost qcur = storages.gc.queue_of(ObjectKind::Shape);
            let removed = ShapeNpServer::drop_shape(tag, &mut storages.shapes);
            if !removed {
                proof {
                    let kk = KindedKey { kind: ObjectKind::Shape, key };
                    assert(old(storages).gc.queue_of(ObjectKind::Shape)[j as int] == key);
                    assert(old(storages).gc.queued(kk));
                    old(storages).gc.lemma_queued_not_counted(kk);
                    if storages.gc.queued(kk) {
                        let j2 = choose|j2: int|
                            0 <= j2 < sq@.subrange(0, j as int).len() && sq@.subrange(
                                0,
                                j as int,
                            )[j2] == key;
                        old(storages).gc.lemma_queue_holds_key_once(ObjectKind::Shape, j2, j as int);
                        assert(false);
                    }
                }
                tag.request_resource_removal(&mut storages.gc);
            }
            j = j + 1;
            proof {
                let rest = sq@.subrange(j - 1, sq@.len() as int);
                assert(rest[0] == key);
                assert(rest.subrange(1, rest.len() as int) =~= sq@.subrange(
                    j as int,
                    sq@.len() as int,
                ));
                if !removed {
                    assert(shapes_model(storages.shapes) =~= scur.insert(
                        key,
                        ShapeModel { marked_for_drop: true, ..scur[key] },
                    ));
                    let r2 = drain_shapes_maps(
                        shapes_model(storages.shapes),
                        sq@.subrange(j as int, sq@.len() as int),
                    );
                    assert(qcur + (seq![key] + r2.1) =~= (qcur + seq![key]) + r2.1);
                    assert(storages.gc.queue_of(ObjectKind::Shape) =~= qcur + seq![key]);
                } else {
                    assert(shapes_model(storages.shapes) =~= scur.remove(key));
                }
                assert forall|x: StoreKey|
                    #[trigger] storages.gc.queue_of(ObjectKind::Shape).contains(x) implies
                    sq@.subrange(0, j as int).contains(x) by {
                    if qcur.contains(x) {
                        let prefix = sq@.subrange(0, j - 1);
                        assert(prefix.contains(x));
                        let j2 = choose|j2: int| 0 <= j2 < prefix.len() && prefix[j2] == x;
                        assert(sq@.subrange(0, j as int)[j2] == x);
                    } else {
                        let q2 = storages.gc.queue_of(ObjectKind::Shape);
                        let idx = choose|idx: int| 0 <= idx < q2.len() && q2[idx] == x;
                        assert(!removed);
                        assert(q2 =~= qcur + seq![key]);
                        if idx < qcur.len() {
                            assert(qcur[idx] == x);
                        }
                        assert(x == key);
                        assert(sq@.subrange(0, j as int)[j - 1] == x);
                    }
                }
            }
        }
        proof {
            assert(sq@.subrange(sq@.len() as int, sq@.len() as int) =~= Seq::<StoreKey>::empty());
        }

        // Queued worlds.
        let wq = storages.gc.take_queue(ObjectKind::World);
        let ghost gc4 = storages.gc;
        let ghost bodies4 = storages.bodies;
        let ghost colliders4 = storages.colliders;
        let ghost shapes4 = storages.shapes;
        let ghost w4 = worlds1.view_map();
        proof {
            assert(wq@.subrange(0, wq@.len() as int) =~= wq@);
        }
        let mut l: usize = 0;
        while l < wq.len()
            invariant
                l <= wq@.len(),
                storages.gc == gc4,
                storages.bodies == bodies4,
                storages.colliders == colliders4,
                storages.shapes == shapes4,
                storages.worlds.wf(),
                storages.worlds.issued() == old(storages).worlds.issued(),
                drain_worlds_map(w4, wq@) == drain_worlds_map(
                    storages.worlds.view_map(),
                    wq@.subrange(l as int, wq@.len() as int),
                ),
            decreases wq@.len() - l,
        {
            let ghost wcur = storages.worlds.view_map();
            Self::drop_world(wq[l], &mut storages.worlds);
            l = l + 1;
            proof {
                let rest = wq@.subrange(l - 1, wq@.len() as int);
                assert(rest[0] == wq@[l - 1]);
                assert(rest.subrange(1, rest.len() as int) =~= wq@.subrange(
                    l as int,
                    wq@.len() as int,
                ));
            }
        }
        proof {
            assert(wq@.subrange(wq@.len() as int, wq@.len() as int) =~= Seq::<StoreKey>::empty());
            let spec = gc_drain_model(m0);
            assert(storages.model().worlds =~= spec.worlds);
            assert(storages.model().bodies =~= spec.bodies);
            assert(storages.model().colliders =~= spec.colliders);
            assert(storages.model().shapes =~= spec.shapes);
            assert(storages.model().shape_queue =~= spec.shape_queue);
            assert(storages.model() =~= spec);
            assert forall|kk: KindedKey| #[trigger] storages.gc.count_of(kk) > 0 implies
                storages.key_issued(kk) by {
                assert(old(storages).gc.count_of(kk) > 0);
                assert(old(storages).key_issued(kk));
            }
            assert forall|kk: KindedKey| #[trigger] storages.gc.queued(kk) implies
                storages.key_issued(kk) by {
                if kk.kind == ObjectKind::Shape {
                    assert(m0.shape_queue.contains(kk.key));
                    assert(old(storages).gc.queued(kk));
                    assert(old(storages).key_issued(kk));
                }
            }
        }
    }

    /// Harvest the collision pipeline's proximity reports: first clear every
    /// area's previous-frame event queue, then, for each genuine transition,
    /// resolve the two colliders' owners and push one `Enter` or `Exit`
    /// event onto the owning area.  Records that cannot be resolved, or
    /// whose resolved owner is not an area, are skipped.
    pub fn fetch_events(storages: &mut ServersStorage, records: &Vec<ProximityRecord>)
        requires
            old(storages).wf(),
        ensures
            final(storages).wf(),
            counts_unchanged(*old(storages), *final(storages)),
            issued_unchanged(*old(storages), *final(storages)),
            final(storages).model() == fetch_events_model(old(storages).model(), records@),
    {
        let ghost m0 = old(storages).model();
        let ghost gc0 = storages.gc;
        let ghost colliders0 = storages.colliders;
        let ghost shapes0 = storages.shapes;
        let ghost worlds0 = storages.worlds;

        // Clear the previous frame's events.
        let keys = storages.bodies.keys();
        let ghost b0 = bodies_model(storages.bodies);
        let mut i: usize = 0;
        while i < keys.len()
            invariant
                i <= keys@.len(),
                forall|t: int| 0 <= t < keys@.len() ==> b0.dom().contains(#[trigger] keys@[t]),
                forall|k: StoreKey| #[trigger] b0.dom().contains(k) ==> keys@.contains(k),
                storages.gc == gc0,
                storages.colliders == colliders0,
                storages.shapes == shapes0,
                storages.worlds == worlds0,
                storages.bodies.wf(),
                storages.bodies.issued() == old(storages).bodies.issued(),
                forall|k: StoreKey|
                    #[trigger] storages.bodies.view_map().dom().contains(k)
                        ==> storages.bodies.view_map()[k].self_key == Some(k),
                forall|k: StoreKey|
                    #[trigger] b0.dom().contains(k) ==> bodies_model(
                        storages.bodies,
                    ).dom().contains(k) && bodies_model(storages.bodies)[k] == (
                    if keys@.subrange(0, i as int).contains(k) {
                        cleared_body(b0[k])
                    } else {
                        b0[k]
                    }),
                forall|k: StoreKey|
                    #[trigger] bodies_model(storages.bodies).dom().contains(k) ==> b0.dom().contains(
                        k,
                    ),
            decreases keys@.len() - i,
        {
            let k = keys[i];
            let ghost bcur = bodies_model(storages.bodies);
            match storages.bodies.get_mut(k) {
                Some(body) => {
                    match &mut body.body_data {
                        BodyData::Area(queue) => {
                            queue.clear();
                        },
                        BodyData::Rigid => {},
                    }
                },
                None => {
                    proof {
                        assert(false);
                    }
                },
            }
            i = i + 1;
            proof {
                assert(b0.dom().contains(keys@[i - 1]));
                assert forall|k2: StoreKey|
                    #[trigger] bodies_model(storages.bodies).dom().contains(k2) implies
                    b0.dom().contains(k2) by {
                    if k2 != keys@[i - 1] {
                        assert(bcur.dom().contains(k2));
                    }
                }
                assert forall|k2: StoreKey| #[trigger] b0.dom().contains(k2) implies bodies_model(
                    storages.bodies,
                ).dom().contains(k2) && bodies_model(storages.bodies)[k2] == (
                if keys@.subrange(0, i as int).contains(k2) {
                    cleared_body(b0[k2])
                } else {
                    b0[k2]
                }) by {
                    let prefix = keys@.subrange(0, i - 1);
                    let now = keys@.subrange(0, i as int);
                    if k2 == keys@[i - 1] {
                        assert(now[i - 1] == k2);
                        assert(now.contains(k2));
                        assert(bodies_model(storages.bodies)[k2] =~= cleared_body(b0[k2]));
                    } else {
                        if prefix.contains(k2) {
                            let j2 = choose|j2: int|
                                0 <= j2 < prefix.len() && prefix[j2] == k2;
                            assert(now[j2] == k2);
                            assert(now.contains(k2));
                        } else {
                            if now.contains(k2) {
                                let j2 = choose|j2: int| 0 <= j2 < now.len() && now[j2] == k2;
                                if j2 < i - 1 {
                                    assert(prefix[j2] == k2);
                                }
                                assert(false);
                            }
                        }
                    }
                }
            }
        }
        proof {
            assert(keys@.subrange(0, keys@.len() as int) =~= keys@);
            assert(bodies_model(storages.bodies) =~= clear_area_events(b0));
        }

        // Push one event per genuine transition.
        let ghost bc = bodies_model(storages.bodies);
        let ghost cm = storages.colliders.view_map();
        proof {
            assert(records@.subrange(0, records@.len() as int) =~= records@);
        }
        let mut r: usize = 0;
        while r < records.len()
            invariant
                r <= records@.len(),
                storages.gc == gc0,
                storages.colliders == colliders0,
                storages.shapes == shapes0,
                storages.worlds == worlds0,
                cm == storages.colliders.view_map(),
                storages.bodies.wf(),
                storages.bodies.issued() == old(storages).bodies.issued(),
                forall|k: StoreKey|
                    #[trigger] storages.bodies.view_map().dom().contains(k)
                        ==> storages.bodies.view_map()[k].self_key == Some(k),
                harvest_records(bc, cm, records@) == harvest_records(
                    bodies_model(storages.bodies),
                    cm,
                    records@.subrange(r as int, records@.len() as int),
                ),
            decreases records@.len() - r,
        {
            let ghost bcur = bodies_model(storages.bodies);
            let rec = records[r];
            let kind: Option<bool> = if matches!(rec.new_status, Proximity::Intersecting)
                && !matches!(rec.prev_status, Proximity::Intersecting) {
                Some(true)
            } else if matches!(rec.prev_status, Proximity::Intersecting)
                && !matches!(rec.new_status, Proximity::Intersecting) {
                Some(false)
            } else {
                None
            };
            proof {
                assert(kind == transition_kind(rec.prev_status, rec.new_status));
            }
            match kind {
                Some(enter) => {
                    let ud1 = match storages.colliders.get(rec.collider1) {
                        Some(c) => *c.user_data(),
                        None => None,
                    };
                    let ud2 = match storages.colliders.get(rec.collider2) {
                        Some(c) => *c.user_data(),
                        None => None,
                    };
                    match (ud1, ud2) {
                        (Some(u1), Some(u2)) => {
                            let (area_key, body_key, body_entity) = match u1.object_type() {
                                ObjectType::RigidBody => (u2.store_tag(), u1.store_tag(), u1.entity()),
                                ObjectType::Area => (u1.store_tag(), u2.store_tag(), u2.entity()),
                            };
                            match storages.bodies.get_mut(area_key) {
                                Some(area) => {
                                    match &mut area.body_data {
                                        BodyData::Area(queue) => {
                                            let ev = if enter {
                                                OverlapEvent::Enter(
                                                    PhysicsRigidBodyTag(body_key),
                                                    body_entity,
                                                )
                                            } else {
                                                OverlapEvent::Exit(
                                                    PhysicsRigidBodyTag(body_key),
                                                    body_entity,
                                                )
                                            };
                                            queue.push(ev);
                                        },
                                        BodyData::Rigid => {},
                                    }
                                },
                                None => {},
                            }
                        },
                        _ => {},
                    }
                },
                None => {},
            }
            r = r + 1;
            proof {
                let rest = records@.subrange(r - 1, records@.len() as int);
                assert(rest[0] == records@[r - 1]);
                assert(rest.subrange(1, rest.len() as int) =~= records@.subrange(
                    r as int,
                    records@.len() as int,
                ));
                assert(bodies_model(storages.bodies) =~= apply_record(bcur, cm, records@[r - 1]));
            }
        }
        proof {
            assert(records@.subrange(records@.len() as int, records@.len() as int)
                =~= Seq::<ProximityRecord>::empty());
            assert(storages.model() =~= fetch_events_model(m0, records@));
        }
    }

    /// One full step of `world_tag`'s world.  The drain runs first, so the
    /// step never touches a resource whose handles were all released; then
    /// the transforms the simulation produced for this step are written
    /// back, and its proximity reports become per-area overlap events.
    /// `delta_time` is the fixed time step the outcome was computed with.
    /// A dead world tag stops after the drain.
    #[allow(unused_variables)]
    pub fn step(storages: &mut ServersStorage, world_tag: PhysicsWorldTag, delta_time: i64, outcome: &SimOutcome)
        requires
            old(storages).wf(),
        ensures
            final(storages).wf(),
            counts_unchanged(*old(storages), *final(storages)),
            issued_unchanged(*old(storages), *final(storages)),
            final(storages).model() == step_model(
                old(storages).model(),
                world_tag.0,
                outcome.moved@,
                outcome.proximity_events@,
            ),
    {
        Self::garbage_collect(storages);
        let ghost m1 = storages.model();
        if !storages.worlds.has(world_tag.0) {
            // The world vanished between enqueue and drain; skip the step.
            return ;
        }
        let ghost gc1 = storages.gc;
        let ghost colliders1 = storages.colliders;
        let ghost shapes1 = storages.shapes;
        let ghost worlds1 = storages.worlds;
        proof {
            assert(outcome.moved@.subrange(0, outcome.moved@.len() as int) =~= outcome.moved@);
        }
        let mut i: usize = 0;
        while i < outcome.moved.len()
            invariant
                i <= outcome.moved@.len(),
                storages.gc == gc1,
                storages.colliders == colliders1,
                storages.shapes == shapes1,
                storages.worlds == worlds1,
                storages.bodies.wf(),
                storages.bodies.issued() == old(storages).bodies.issued(),
                forall|k: StoreKey|
                    #[trigger] storages.bodies.view_map().dom().contains(k)
                        ==> storages.bodies.view_map()[k].self_key == Some(k),
                apply_moves(m1.bodies, outcome.moved@) == apply_moves(
                    bodies_model(storages.bodies),
                    outcome.moved@.subrange(i as int, outcome.moved@.len() as int),
                ),
            decreases outcome.moved@.len() - i,
        {
            let ghost bcur = bodies_model(storages.bodies);
            let mv = outcome.moved[i];
            match storages.bodies.get_mut(mv.key) {
                Some(body) => {
                    body.transform = mv.transform;
                },
                None => {},
            }
            i = i + 1;
            proof {
                let rest = outcome.moved@.subrange(i - 1, outcome.moved@.len() as int);
                assert(rest[0] == outcome.moved@[i - 1]);
                assert(rest.subrange(1, rest.len() as int) =~= outcome.moved@.subrange(
                    i as int,
                    outcome.moved@.len() as int,
                ));
                assert(bodies_model(storages.bodies) =~= apply_move(bcur, outcome.moved@[i - 1]));
            }
        }
        proof {
            assert(outcome.moved@.subrange(outcome.moved@.len() as int, outcome.moved@.len() as int)
                =~= Seq::<MovedBody>::empty());
            assert(storages.model() =~= (PhysicsModel {
                bodies: apply_moves(m1.bodies, outcome.moved@),
                ..m1
            }));
        }
        Self::fetch_events(storages, &outcome.proximity_events);
    }

    /// Remove the world named by `world_key`; bodies still registered to it
    /// are not touched (they are reclaimed by their own removal requests).
    pub fn drop_world(world_key: StoreKey, worlds: &mut Storage<World>)
        requires
            old(worlds).wf(),
        ensures
            final(worlds).wf(),
            final(worlds).issued() == old(worlds).issued(),
            final(worlds).view_map() == old(worlds).view_map().remove(world_key),
    {
        worlds.remove(world_key);
        proof {
            if !old(worlds).view_map().dom().contains(world_key) {
                assert(worlds.view_map() =~= old(worlds).view_map().remove(world_key));
            }
        }
    }
}

} // verus!
