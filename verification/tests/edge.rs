//! Edge cases: saturation, boundary transitions, and back-references held
//! by areas rather than bodies.

use phythyst::NPhysicsBackend;
use phythyst::area_physics_server::AreaNpServer;
use phythyst::ecs::Entity;
use phythyst::math::{FX_ONE, Vec3, fx_mul};
use phythyst::rigid_body_physics_server::RBodyNpServer;
use phythyst::servers::{AreaDesc, RigidBodyDesc, ShapeDesc};
use phythyst::shape_physics_server::ShapeNpServer;
use phythyst::utils::ObjectType;
use phythyst::world_physics_server::{Proximity, ProximityRecord, SimOutcome, WorldNpServer};

#[test]
fn fixed_point_multiplication_saturates() {
    assert_eq!(fx_mul(i64::MAX, 2 * FX_ONE), i64::MAX);
    assert_eq!(fx_mul(i64::MAX, -2 * FX_ONE), i64::MIN);
    assert_eq!(fx_mul(i64::MIN, FX_ONE), i64::MIN);
    assert_eq!(fx_mul(0, i64::MAX), 0);
}

#[test]
fn area_back_reference_also_defers_shape_removal() {
    let mut st = NPhysicsBackend::create_world();
    let wh = WorldNpServer::create_world(&mut st);
    let sh = ShapeNpServer::create_shape(&mut st, &ShapeDesc::Sphere { radius: FX_ONE });
    let ah = AreaNpServer::create_area(&mut st, wh.get(), &AreaDesc { shape: sh.get() });
    let stag = sh.get();

    assert_eq!(st.shapes.get(stag.0).unwrap().areas().len(), 1);
    assert_eq!(st.shapes.get(stag.0).unwrap().bodies().len(), 0);

    sh.release(&mut st.gc);
    WorldNpServer::garbage_collect(&mut st);
    assert!(st.shapes.has(stag.0));

    ah.release(&mut st.gc);
    WorldNpServer::garbage_collect(&mut st);
    assert!(!st.shapes.has(stag.0));
}

#[test]
fn transitions_within_the_margin_report_nothing() {
    let mut st = NPhysicsBackend::create_world();
    let wh = WorldNpServer::create_world(&mut st);
    let sh = ShapeNpServer::create_shape(&mut st, &ShapeDesc::Sphere { radius: FX_ONE });
    let bh = RBodyNpServer::create_body(&mut st, wh.get(), &RigidBodyDesc::default());
    let ah = AreaNpServer::create_area(&mut st, wh.get(), &AreaDesc { shape: sh.get() });
    RBodyNpServer::set_shape(&mut st, bh.get(), Some(sh.get()));

    let body_collider = st.bodies.get(bh.get().0).unwrap().collider_key.unwrap();
    let area_collider = st.bodies.get(ah.get().0).unwrap().collider_key.unwrap();

    // Approaching within the margin is not a crossing of the intersection
    // boundary, so no event may be produced.
    let outcome = SimOutcome {
        moved: Vec::new(),
        proximity_events: vec![ProximityRecord {
            collider1: body_collider,
            collider2: area_collider,
            prev_status: Proximity::Disjoint,
            new_status: Proximity::WithinMargin,
        }],
    };
    WorldNpServer::step(&mut st, wh.get(), FX_ONE / 60, &outcome);
    assert_eq!(AreaNpServer::overlap_events(&st, ah.get()).len(), 0);
}

#[test]
fn events_between_two_rigid_bodies_are_skipped() {
    let mut st = NPhysicsBackend::create_world();
    let wh = WorldNpServer::create_world(&mut st);
    let sh = ShapeNpServer::create_shape(&mut st, &ShapeDesc::Sphere { radius: FX_ONE });
    let b1 = RBodyNpServer::create_body(&mut st, wh.get(), &RigidBodyDesc::default());
    let b2 = RBodyNpServer::create_body(&mut st, wh.get(), &RigidBodyDesc::default());
    RBodyNpServer::set_shape(&mut st, b1.get(), Some(sh.get()));
    RBodyNpServer::set_shape(&mut st, b2.get(), Some(sh.get()));

    let c1 = st.bodies.get(b1.get().0).unwrap().collider_key.unwrap();
    let c2 = st.bodies.get(b2.get().0).unwrap().collider_key.unwrap();

    // Neither collider belongs to an area: the transition degrades to a
    // skipped record instead of failing the step.
    let outcome = SimOutcome {
        moved: Vec::new(),
        proximity_events: vec![ProximityRecord {
            collider1: c1,
            collider2: c2,
            prev_status: Proximity::Disjoint,
            new_status: Proximity::Intersecting,
        }],
    };
    WorldNpServer::step(&mut st, wh.get(), FX_ONE / 60, &outcome);
    assert!(st.bodies.has(b1.get().0));
    assert!(st.bodies.has(b2.get().0));
}

#[test]
fn set_entity_refreshes_collider_user_data() {
    let mut st = NPhysicsBackend::create_world();
    let wh = WorldNpServer::create_world(&mut st);
    let sh = ShapeNpServer::create_shape(&mut st, &ShapeDesc::Sphere { radius: FX_ONE });
    let bh = RBodyNpServer::create_body(&mut st, wh.get(), &RigidBodyDesc::default());
    RBodyNpServer::set_shape(&mut st, bh.get(), Some(sh.get()));

    let ck = st.bodies.get(bh.get().0).unwrap().collider_key.unwrap();
    let before = st.colliders.get(ck).unwrap().user_data.unwrap();
    assert_eq!(before.object_type(), ObjectType::RigidBody);
    assert_eq!(before.store_tag(), bh.get().0);
    assert_eq!(before.entity(), None);

    RBodyNpServer::set_entity(&mut st, bh.get(), Some(Entity(42)));
    let after = st.colliders.get(ck).unwrap().user_data.unwrap();
    assert_eq!(after.entity(), Some(Entity(42)));
    assert_eq!(RBodyNpServer::entity(&st, bh.get()), Some(Entity(42)));
}

#[test]
fn forces_accumulate_and_clear() {
    let mut st = NPhysicsBackend::create_world();
    let wh = WorldNpServer::create_world(&mut st);
    let bh = RBodyNpServer::create_body(&mut st, wh.get(), &RigidBodyDesc::default());
    let btag = bh.get();

    let f = Vec3 { x: FX_ONE, y: 0, z: 0 };
    RBodyNpServer::apply_force(&mut st, btag, &f);
    RBodyNpServer::apply_force(&mut st, btag, &f);
    assert_eq!(st.bodies.get(btag.0).unwrap().force, Vec3 { x: 2 * FX_ONE, y: 0, z: 0 });

    // A force applied off-center also adds the lever-arm torque.
    let arm = Vec3 { x: 0, y: FX_ONE, z: 0 };
    let push = Vec3 { x: FX_ONE, y: 0, z: 0 };
    RBodyNpServer::apply_force_at_position(&mut st, btag, &push, &arm);
    assert_eq!(
        st.bodies.get(btag.0).unwrap().torque,
        Vec3 { x: 0, y: 0, z: -FX_ONE },
    );

    RBodyNpServer::clear_forces(&mut st, btag);
    assert_eq!(st.bodies.get(btag.0).unwrap().force, Vec3 { x: 0, y: 0, z: 0 });
    assert_eq!(st.bodies.get(btag.0).unwrap().torque, Vec3 { x: 0, y: 0, z: 0 });
}
