//! Bodies: one dynamics object carrying either rigid-body or area semantics.

use vstd::prelude::*;
use crate::ecs::Entity;
use crate::math::{Isometry, Vec3, iso_identity_spec, vec3_zero_spec};
use crate::servers::{BodyMode, OverlapEvent};
use crate::storage::StoreKey;

verus! {

/// Extra state depending on the body type: an area keeps the overlap events
/// of the most recent step.
#[derive(Debug)]
pub enum BodyData {
    Rigid,
    Area(Vec<OverlapEvent>),
}

/// A body registered to a world.
///
/// A body is either a rigid body proper or an area (a sensor that reports
/// overlaps instead of resolving contacts); both are carried by the same
/// dynamics object.  The numeric state the engine simulates — transform,
/// velocities, force accumulators — is held here in fixed-point form.
#[derive(Debug)]
pub struct Body {
    pub self_key: Option<StoreKey>,
    pub body_data: BodyData,
    pub world_key: StoreKey,
    pub collider_key: Option<StoreKey>,
    pub shape_key: Option<StoreKey>,
    pub entity: Option<Entity>,
    pub mode: BodyMode,
    /// Fixed-point mass.
    pub mass: i64,
    pub transform: Isometry,
    pub linear_velocity: Vec3,
    pub angular_velocity: Vec3,
    /// Accumulated force, cleared by `clear_forces`.
    pub force: Vec3,
    /// Accumulated torque, cleared by `clear_forces`.
    pub torque: Vec3,
    /// Accumulated linear impulse, consumed by the next step.
    pub impulse: Vec3,
    /// Accumulated angular impulse, consumed by the next step.
    pub angular_impulse: Vec3,
}

impl Body {
    /// Is this body an area?
    pub open spec fn is_area(self) -> bool {
        self.body_data is Area
    }

    /// Creates a rigid-body `Body`.
    pub fn new_rigid_body(world_key: StoreKey, mode: BodyMode, mass: i64) -> (b: Body)
        ensures
            b.self_key is None,
            b.body_data is Rigid,
            b.world_key == world_key,
            b.collider_key is None,
            b.shape_key is None,
            b.entity is None,
            b.mode == mode,
            b.mass == mass,
            b.transform == iso_identity_spec(),
            b.linear_velocity == vec3_zero_spec(),
            b.angular_velocity == vec3_zero_spec(),
            b.force == vec3_zero_spec(),
            b.torque == vec3_zero_spec(),
            b.impulse == vec3_zero_spec(),
            b.angular_impulse == vec3_zero_spec(),
    {
        Body {
            self_key: None,
            body_data: BodyData::Rigid,
            world_key,
            collider_key: None,
            shape_key: None,
            entity: None,
            mode,
            mass,
            transform: Isometry::identity(),
            linear_velocity: Vec3::zero(),
            angular_velocity: Vec3::zero(),
            force: Vec3::zero(),
            torque: Vec3::zero(),
            impulse: Vec3::zero(),
            angular_impulse: Vec3::zero(),
        }
    }

    /// Creates an area `Body`: a static sensor with an empty event queue.
    pub fn new_area(world_key: StoreKey) -> (b: Body)
        ensures
            b.self_key is None,
            b.body_data matches BodyData::Area(q) && q@ == Seq::<OverlapEvent>::empty(),
            b.world_key == world_key,
            b.collider_key is None,
            b.shape_key is None,
            b.entity is None,
            b.mode == BodyMode::Static,
            b.mass == 0,
            b.transform == iso_identity_spec(),
            b.linear_velocity == vec3_zero_spec(),
            b.angular_velocity == vec3_zero_spec(),
            b.force == vec3_zero_spec(),
            b.torque == vec3_zero_spec(),
            b.impulse == vec3_zero_spec(),
            b.angular_impulse == vec3_zero_spec(),
    {
        Body {
            self_key: None,
            body_data: BodyData::Area(Vec::new()),
            world_key,
            collider_key: None,
            shape_key: None,
            entity: None,
            mode: BodyMode::Static,
            mass: 0,
            transform: Isometry::identity(),
            linear_velocity: Vec3::zero(),
            angular_velocity: Vec3::zero(),
            force: Vec3::zero(),
            torque: Vec3::zero(),
            impulse: Vec3::zero(),
            angular_impulse: Vec3::zero(),
        }
    }

    /// The overlap events gathered for an area during the last step; empty
    /// for a rigid body.
    pub open spec fn overlap_events_spec(self) -> Seq<OverlapEvent> {
        match self.body_data {
            BodyData::Area(q) => q@,
            BodyData::Rigid => Seq::empty(),
        }
    }

    /// The mathematical value of this body.
    pub open spec fn model(self) -> BodyModel {
        BodyModel {
            self_key: self.self_key,
            is_area: self.is_area(),
            overlap_events: self.overlap_events_spec(),
            world_key: self.world_key,
            collider_key: self.collider_key,
            shape_key: self.shape_key,
            entity: self.entity,
            mode: self.mode,
            mass: self.mass,
            transform: self.transform,
            linear_velocity: self.linear_velocity,
            angular_velocity: self.angular_velocity,
            force: self.force,
            torque: self.torque,
            impulse: self.impulse,
            angular_impulse: self.angular_impulse,
        }
    }
}

/// The mathematical value of a `Body`: the same fields, with the area event
/// queue as a sequence.
#[verifier::ext_equal]
pub struct BodyModel {
    pub self_key: Option<StoreKey>,
    pub is_area: bool,
    pub overlap_events: Seq<OverlapEvent>,
    pub world_key: StoreKey,
    pub collider_key: Option<StoreKey>,
    pub shape_key: Option<StoreKey>,
    pub entity: Option<Entity>,
    pub mode: BodyMode,
    pub mass: i64,
    pub transform: Isometry,
    pub linear_velocity: Vec3,
    pub angular_velocity: Vec3,
    pub force: Vec3,
    pub torque: Vec3,
    pub impulse: Vec3,
    pub angular_impulse: Vec3,
}

} // verus!
