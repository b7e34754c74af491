//! End-to-end tests of the lifecycle, synchronization and math layers.

use phythyst::NPhysicsBackend;
use phythyst::area_physics_server::AreaNpServer;
use phythyst::ecs::{ComponentEvent, ComponentTable, Entity};
use phythyst::math::{FX_ONE, Isometry, Quat, Vec3, fx_add, fx_mul, fx_sub};
use phythyst::physics_stepper_system::PhysicsStepperSystem;
use phythyst::physics_sync_shape_system::PhysicsSyncShapeSystem;
use phythyst::physics_sync_transform_system::{PhysicsSyncTransformSystem, compute_transform};
use phythyst::physics_time::PhysicsTime;
use phythyst::rigid_body_physics_server::RBodyNpServer;
use phythyst::servers::{AreaDesc, BodyMode, OverlapEvent, RigidBodyDesc, ShapeDesc};
use phythyst::servers_storage::ServersStorage;
use phythyst::shape_physics_server::ShapeNpServer;
use phythyst::storage::Storage;
use phythyst::world::World;
use phythyst::world_physics_server::{MovedBody, Proximity, ProximityRecord, SimOutcome,
    WorldNpServer};

fn translation(x: i64, y: i64, z: i64) -> Isometry {
    let mut t = Isometry::identity();
    t.translation = Vec3 { x, y, z };
    t
}

fn empty_outcome() -> SimOutcome {
    SimOutcome { moved: Vec::new(), proximity_events: Vec::new() }
}

#[test]
fn storage_issues_fresh_keys_and_detects_stale_ones() {
    let mut storage: Storage<World> = Storage::new(4, 4);
    let k1 = storage.insert(World::new());
    assert!(storage.has(k1));
    assert!(storage.get(k1).is_some());

    let removed = storage.remove(k1);
    assert!(removed.is_some());
    assert!(!storage.has(k1));
    assert!(storage.get(k1).is_none());
    assert!(storage.remove(k1).is_none());

    // The slot may be reused, but never under the old key.
    let k2 = storage.insert(World::new());
    assert_ne!(k1, k2);
    assert!(!storage.has(k1));
    assert!(storage.has(k2));
}

#[test]
fn fixed_point_arithmetic_exact_values() {
    assert_eq!(fx_mul(FX_ONE, FX_ONE), FX_ONE);
    assert_eq!(fx_mul(2 * FX_ONE, 3 * FX_ONE), 6 * FX_ONE);
    assert_eq!(fx_mul(-2 * FX_ONE, 3 * FX_ONE), -6 * FX_ONE);
    assert_eq!(fx_mul(FX_ONE / 2, FX_ONE / 2), FX_ONE / 4);
    assert_eq!(fx_add(i64::MAX, 1), i64::MAX);
    assert_eq!(fx_sub(i64::MIN, 1), i64::MIN);
    assert_eq!(fx_add(5, -7), -2);
}

#[test]
fn isometry_identity_is_neutral() {
    let t = Isometry {
        translation: Vec3 { x: 3 * FX_ONE, y: -2 * FX_ONE, z: FX_ONE },
        rotation: Quat { x: 0, y: 0, z: 0, w: FX_ONE },
    };
    assert_eq!(Isometry::identity().compose(t), t);
    assert_eq!(t.compose(Isometry::identity()), t);
}

#[test]
fn pure_translations_compose_by_addition() {
    let a = translation(FX_ONE, 0, 0);
    let b = translation(0, 2 * FX_ONE, 0);
    let c = a.compose(b);
    assert_eq!(c.translation, Vec3 { x: FX_ONE, y: 2 * FX_ONE, z: 0 });
    assert_eq!(c.rotation, Quat { x: 0, y: 0, z: 0, w: FX_ONE });
}

#[test]
fn physics_time_exact_sub_step() {
    let t = PhysicsTime::new();
    assert_eq!(t.sub_step_seconds(), FX_ONE / 60);
    assert_eq!(t.sub_max_sub_steps(), 8);
    let t2 = t.with_frames_per_second(30).with_max_sub_steps(4);
    assert_eq!(t2.sub_step_seconds(), FX_ONE / 30);
    assert_eq!(t2.sub_max_sub_steps(), 4);
}

#[test]
fn last_handle_release_reclaims_the_body_on_the_next_drain() {
    let mut st = NPhysicsBackend::create_world();
    let wh = WorldNpServer::create_world(&mut st);
    let bh = RBodyNpServer::create_body(&mut st, wh.get(), &RigidBodyDesc::default());
    let btag = bh.get();

    let v = Vec3 { x: FX_ONE, y: 2 * FX_ONE, z: 3 * FX_ONE };
    RBodyNpServer::set_linear_velocity(&mut st, btag, &v);
    assert_eq!(RBodyNpServer::linear_velocity(&st, btag), v);

    // A second clone keeps the body alive across a drain.
    let bh2 = bh.duplicate(&mut st.gc);
    bh.release(&mut st.gc);
    WorldNpServer::garbage_collect(&mut st);
    assert_eq!(RBodyNpServer::linear_velocity(&st, btag), v);

    // Releasing the last clone queues the removal; the next drain frees it.
    bh2.release(&mut st.gc);
    assert_eq!(RBodyNpServer::linear_velocity(&st, btag), v);
    WorldNpServer::garbage_collect(&mut st);
    assert_eq!(RBodyNpServer::linear_velocity(&st, btag), Vec3 { x: 0, y: 0, z: 0 });
    assert!(!st.bodies.has(btag.0));
    wh.release(&mut st.gc);
}

#[test]
fn setting_the_same_shape_twice_keeps_one_back_reference() {
    let mut st = NPhysicsBackend::create_world();
    let wh = WorldNpServer::create_world(&mut st);
    let sh = ShapeNpServer::create_shape(&mut st, &ShapeDesc::Sphere { radius: FX_ONE });
    let bh = RBodyNpServer::create_body(&mut st, wh.get(), &RigidBodyDesc::default());

    RBodyNpServer::set_shape(&mut st, bh.get(), Some(sh.get()));
    assert_eq!(st.shapes.get(sh.get().0).unwrap().bodies().len(), 1);
    let first_collider = st.bodies.get(bh.get().0).unwrap().collider_key;
    assert!(first_collider.is_some());

    // Same shape again: a no-op, the back-reference count stays one.
    RBodyNpServer::set_shape(&mut st, bh.get(), Some(sh.get()));
    assert_eq!(st.shapes.get(sh.get().0).unwrap().bodies().len(), 1);
    assert_eq!(st.bodies.get(bh.get().0).unwrap().collider_key, first_collider);

    // Clearing the shape unregisters and drops the collider.
    RBodyNpServer::set_shape(&mut st, bh.get(), None);
    assert_eq!(st.shapes.get(sh.get().0).unwrap().bodies().len(), 0);
    assert!(st.bodies.get(bh.get().0).unwrap().collider_key.is_none());
}

#[test]
fn referenced_shape_survives_drains_until_free() {
    let mut st = NPhysicsBackend::create_world();
    let wh = WorldNpServer::create_world(&mut st);
    let sh = ShapeNpServer::create_shape(&mut st, &ShapeDesc::Sphere { radius: FX_ONE });
    let bh = RBodyNpServer::create_body(&mut st, wh.get(), &RigidBodyDesc::default());
    let stag = sh.get();
    let btag = bh.get();
    RBodyNpServer::set_shape(&mut st, btag, Some(stag));

    // All shape handles gone while the body still uses the shape: the drain
    // must not remove it.
    sh.release(&mut st.gc);
    WorldNpServer::garbage_collect(&mut st);
    assert!(ShapeNpServer::has_dependency(stag.0, &st.shapes));
    assert!(st.shapes.has(stag.0));
    assert!(st.shapes.get(stag.0).unwrap().is_marked_for_drop());

    // Dropping the body frees the shape; the next drain reclaims both.
    bh.release(&mut st.gc);
    WorldNpServer::garbage_collect(&mut st);
    assert!(!st.bodies.has(btag.0));
    assert!(!st.shapes.has(stag.0));
}

#[test]
fn overlap_enter_and_exit_are_reported_once_and_not_retained() {
    let mut st = NPhysicsBackend::create_world();
    let wh = WorldNpServer::create_world(&mut st);
    let sh = ShapeNpServer::create_shape(&mut st, &ShapeDesc::Sphere { radius: FX_ONE });
    let bh = RBodyNpServer::create_body(&mut st, wh.get(), &RigidBodyDesc::default());
    let ah = AreaNpServer::create_area(&mut st, wh.get(), &AreaDesc { shape: sh.get() });
    let btag = bh.get();
    let atag = ah.get();
    RBodyNpServer::set_shape(&mut st, btag, Some(sh.get()));
    RBodyNpServer::set_entity(&mut st, btag, Some(Entity(7)));
    AreaNpServer::set_entity(&mut st, atag, Some(Entity(9)));

    let body_collider = st.bodies.get(btag.0).unwrap().collider_key.unwrap();
    let area_collider = st.bodies.get(atag.0).unwrap().collider_key.unwrap();

    // The collision pipeline reports the pair crossing into intersection.
    let outcome = SimOutcome {
        moved: Vec::new(),
        proximity_events: vec![ProximityRecord {
            collider1: body_collider,
            collider2: area_collider,
            prev_status: Proximity::Disjoint,
            new_status: Proximity::Intersecting,
        }],
    };
    WorldNpServer::step(&mut st, wh.get(), FX_ONE / 60, &outcome);
    let events = AreaNpServer::overlap_events(&st, atag);
    assert_eq!(events.len(), 1);
    assert_eq!(events[0], OverlapEvent::Enter(btag, Some(Entity(7))));

    // A step with no transitions reports nothing, and the previous frame's
    // entry is not retained.
    WorldNpServer::step(&mut st, wh.get(), FX_ONE / 60, &empty_outcome());
    assert_eq!(AreaNpServer::overlap_events(&st, atag).len(), 0);

    // The pair separating is reported exactly once, as an exit.
    let outcome_exit = SimOutcome {
        moved: Vec::new(),
        proximity_events: vec![ProximityRecord {
            collider1: area_collider,
            collider2: body_collider,
            prev_status: Proximity::Intersecting,
            new_status: Proximity::Disjoint,
        }],
    };
    WorldNpServer::step(&mut st, wh.get(), FX_ONE / 60, &outcome_exit);
    let events = AreaNpServer::overlap_events(&st, atag);
    assert_eq!(events.len(), 1);
    assert_eq!(events[0], OverlapEvent::Exit(btag, Some(Entity(7))));
}

#[test]
fn step_without_removals_or_motion_keeps_transforms() {
    let mut st = NPhysicsBackend::create_world();
    let wh = WorldNpServer::create_world(&mut st);
    let bh = RBodyNpServer::create_body(&mut st, wh.get(), &RigidBodyDesc::default());
    let btag = bh.get();
    let placed = translation(5 * FX_ONE, 0, -FX_ONE);
    RBodyNpServer::set_body_transform(&mut st, btag, &placed);

    WorldNpServer::step(&mut st, wh.get(), FX_ONE / 60, &empty_outcome());
    assert_eq!(RBodyNpServer::body_transform(&st, btag), placed);

    // A body the simulation moved takes the reported transform.
    let moved_to = translation(6 * FX_ONE, 0, -FX_ONE);
    let outcome = SimOutcome {
        moved: vec![MovedBody { key: btag.0, transform: moved_to }],
        proximity_events: Vec::new(),
    };
    WorldNpServer::step(&mut st, wh.get(), FX_ONE / 60, &outcome);
    assert_eq!(RBodyNpServer::body_transform(&st, btag), moved_to);
}

#[test]
fn parent_chain_composes_child_then_parent() {
    let mut transforms: ComponentTable<Isometry> = ComponentTable::new();
    let mut parents: ComponentTable<Entity> = ComponentTable::new();
    let ta = translation(FX_ONE, 0, 0);
    let tb = translation(0, 2 * FX_ONE, 0);
    transforms.insert(0, ta);
    transforms.insert(1, tb);
    parents.insert(0, Entity(1));

    let effective = compute_transform(&transforms, &parents, 0, 4);
    assert_eq!(effective, ta.compose(tb));
    assert_eq!(
        effective.translation,
        Vec3 { x: FX_ONE, y: 2 * FX_ONE, z: 0 },
    );
}

#[test]
fn shape_sync_attaches_and_detaches_by_events() {
    let mut st = NPhysicsBackend::create_world();
    let wh = WorldNpServer::create_world(&mut st);
    let sh = ShapeNpServer::create_shape(&mut st, &ShapeDesc::Cube {
        half_extents: Vec3 { x: FX_ONE, y: FX_ONE, z: FX_ONE },
    });
    let bh = RBodyNpServer::create_body(&mut st, wh.get(), &RigidBodyDesc::default());

    let mut bodies: ComponentTable<_> = ComponentTable::new();
    let mut shapes: ComponentTable<_> = ComponentTable::new();
    bodies.insert(3, bh.get());
    shapes.insert(3, sh.get());

    let sync = PhysicsSyncShapeSystem::new();
    sync.run(
        &mut st,
        &vec![ComponentEvent::Inserted(3)],
        &vec![ComponentEvent::Inserted(3)],
        &bodies,
        &shapes,
    );
    assert_eq!(RBodyNpServer::shape(&st, bh.get()), Some(sh.get()));

    // The shape component is removed: the next pass detaches it.
    shapes.remove(3);
    sync.run(&mut st, &Vec::new(), &vec![ComponentEvent::Removed(3)], &bodies, &shapes);
    assert_eq!(RBodyNpServer::shape(&st, bh.get()), None);
}

#[test]
fn transform_sync_pushes_dirty_and_pulls_simulated() {
    let mut st = NPhysicsBackend::create_world();
    let wh = WorldNpServer::create_world(&mut st);
    let bh = RBodyNpServer::create_body(&mut st, wh.get(), &RigidBodyDesc::default());
    let b2h = RBodyNpServer::create_body(&mut st, wh.get(), &RigidBodyDesc::default());

    let mut transforms: ComponentTable<Isometry> = ComponentTable::new();
    let mut bodies: ComponentTable<_> = ComponentTable::new();
    let areas: ComponentTable<_> = ComponentTable::new();
    let parents: ComponentTable<Entity> = ComponentTable::new();

    let authored = translation(4 * FX_ONE, 0, 0);
    transforms.insert(0, authored);
    bodies.insert(0, bh.get());

    let simulated = translation(0, -3 * FX_ONE, 0);
    transforms.insert(1, Isometry::identity());
    bodies.insert(1, b2h.get());
    RBodyNpServer::set_body_transform(&mut st, b2h.get(), &simulated);

    // Entity 0 is dirty (its transform was edited); entity 1 is not and is
    // overwritten from the simulation.
    let sync = PhysicsSyncTransformSystem::new();
    sync.run(
        &mut st,
        &mut transforms,
        &bodies,
        &areas,
        &parents,
        &vec![ComponentEvent::Modified(0)],
        &Vec::new(),
        &Vec::new(),
    );
    assert_eq!(RBodyNpServer::body_transform(&st, bh.get()), authored);
    assert_eq!(*transforms.get(0).unwrap(), authored);
    assert_eq!(*transforms.get(1).unwrap(), simulated);
}

#[test]
fn stepper_steps_at_the_clock_rate() {
    let mut st = NPhysicsBackend::create_world();
    let wh = WorldNpServer::create_world(&mut st);
    let bh = RBodyNpServer::create_body(&mut st, wh.get(), &RigidBodyDesc::default());
    let placed = translation(FX_ONE, FX_ONE, FX_ONE);
    RBodyNpServer::set_body_transform(&mut st, bh.get(), &placed);

    let time = PhysicsTime::new();
    let stepper = PhysicsStepperSystem::new();
    stepper.run(&mut st, &time, wh.get(), &empty_outcome());
    assert_eq!(RBodyNpServer::body_transform(&st, bh.get()), placed);
}

#[test]
fn dead_tags_answer_with_defaults() {
    let mut st = ServersStorage::new();
    let wh = WorldNpServer::create_world(&mut st);
    let bh = RBodyNpServer::create_body(&mut st, wh.get(), &RigidBodyDesc::default());
    let btag = bh.get();
    bh.release(&mut st.gc);
    WorldNpServer::garbage_collect(&mut st);

    assert_eq!(RBodyNpServer::body_transform(&st, btag), Isometry::identity());
    assert_eq!(RBodyNpServer::linear_velocity(&st, btag), Vec3 { x: 0, y: 0, z: 0 });
    assert_eq!(RBodyNpServer::entity(&st, btag), None);
    assert_eq!(RBodyNpServer::shape(&st, btag), None);
    assert_eq!(AreaNpServer::overlap_events(&st, phythyst::objects::PhysicsAreaTag(btag.0)).len(), 0);
}

#[test]
fn area_bodies_reject_rigid_entity_updates() {
    let mut st = NPhysicsBackend::create_world();
    let wh = WorldNpServer::create_world(&mut st);
    let sh = ShapeNpServer::create_shape(&mut st, &ShapeDesc::Plane);
    let ah = AreaNpServer::create_area(&mut st, wh.get(), &AreaDesc { shape: sh.get() });

    // The rigid-body server refuses a tag that names an area.
    RBodyNpServer::set_entity(
        &mut st,
        phythyst::objects::PhysicsRigidBodyTag(ah.get().0),
        Some(Entity(1)),
    );
    assert_eq!(AreaNpServer::entity(&st, ah.get()), None);

    AreaNpServer::set_entity(&mut st, ah.get(), Some(Entity(2)));
    assert_eq!(AreaNpServer::entity(&st, ah.get()), Some(Entity(2)));
}

#[test]
fn shape_update_keeps_registrations() {
    let mut st = NPhysicsBackend::create_world();
    let wh = WorldNpServer::create_world(&mut st);
    let sh = ShapeNpServer::create_shape(&mut st, &ShapeDesc::Sphere { radius: FX_ONE });
    let bh = RBodyNpServer::create_body(&mut st, wh.get(), &RigidBodyDesc::default());
    RBodyNpServer::set_shape(&mut st, bh.get(), Some(sh.get()));

    let bigger = ShapeDesc::Sphere { radius: 2 * FX_ONE };
    ShapeNpServer::update_shape(&mut st, sh.get(), &bigger);
    assert_eq!(*st.shapes.get(sh.get().0).unwrap().shape_desc(), bigger);
    assert_eq!(st.shapes.get(sh.get().0).unwrap().bodies().len(), 1);
}

#[test]
fn body_modes_default_to_dynamic() {
    let desc = RigidBodyDesc::default();
    assert_eq!(desc.mode, BodyMode::Dynamic);
    assert_eq!(desc.mass, 0);
    assert!(desc.shape.is_none());
}
