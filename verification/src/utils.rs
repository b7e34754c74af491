//! Collider user data: how a collision object remembers its owner.

use vstd::prelude::*;
use crate::ecs::Entity;
use crate::storage::StoreKey;

verus! {

/// Which kind of owner a collider belongs to.
#[derive(Copy, Clone, Debug, PartialEq, Eq, Structural)]
pub enum ObjectType {
    RigidBody,
    Area,
}

/// Payload carried by a collider so that collision events can be resolved
/// back to the owning body or area and its ECS entity.
#[derive(Copy, Clone, Debug, PartialEq, Eq, Structural)]
pub struct UserData {
    pub object_type: ObjectType,
    pub store_tag: StoreKey,
    pub entity: Option<Entity>,
}

impl UserData {
    pub fn new(object_type: ObjectType, store_tag: StoreKey, entity: Option<Entity>) -> (u:
        UserData)
        ensures
            u == (UserData { object_type, store_tag, entity }),
    {
        UserData { object_type, store_tag, entity }
    }

    pub fn object_type(&self) -> (t: ObjectType)
        ensures
            t == self.object_type,
    {
        self.object_type
    }

    pub fn store_tag(&self) -> (k: StoreKey)
        ensures
            k == self.store_tag,
    {
        self.store_tag
    }

    pub fn entity(&self) -> (e: Option<Entity>)
        ensures
            e == self.entity,
    {
        self.entity
    }
}

} // verus!
