//! Colliders: the bridge between a body and its collision representation.

use vstd::prelude::*;
use crate::storage::StoreKey;
use crate::utils::UserData;

verus! {

/// A collision object attached to one body part.  It remembers the geometry
/// it was built from and carries the user data later used to resolve
/// collision-event participants.
#[derive(Debug)]
pub struct Collider {
    pub self_key: Option<StoreKey>,
    /// The body this collider is attached to.
    pub body_key: StoreKey,
    pub world_key: StoreKey,
    /// The shape the collision geometry was built from.
    pub shape_key: StoreKey,
    /// A sensor reports overlaps instead of resolving contact forces; areas
    /// are built as sensors.
    pub sensor: bool,
    /// Fixed-point density; rigid-body colliders are built with density one.
    pub density: i64,
    pub user_data: Option<UserData>,
}

impl Collider {
    pub fn new(body_key: StoreKey, world_key: StoreKey, shape_key: StoreKey, sensor: bool, density: i64) -> (c: Collider)
        ensures
            c.self_key is None,
            c.body_key == body_key,
            c.world_key == world_key,
            c.shape_key == shape_key,
            c.sensor == sensor,
            c.density == density,
            c.user_data is None,
    {
        Collider {
            self_key: None,
            body_key,
            world_key,
            shape_key,
            sensor,
            density,
            user_data: None,
        }
    }

    pub fn set_user_data(&mut self, user_data: Option<UserData>)
        ensures
            final(self).user_data == user_data,
            final(self).self_key == old(self).self_key,
            final(self).body_key == old(self).body_key,
            final(self).world_key == old(self).world_key,
            final(self).shape_key == old(self).shape_key,
            final(self).sensor == old(self).sensor,
            final(self).density == old(self).density,
    {
        self.user_data = user_data;
    }

    pub fn user_data(&self) -> (u: &Option<UserData>)
        ensures
            *u == self.user_data,
    {
        &self.user_data
    }
}

} // verus!
