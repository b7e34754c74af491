//! The stepper system: advances the physics once per fixed sub-step.

use vstd::prelude::*;
use crate::objects::PhysicsWorldTag;
use crate::physics_time::PhysicsTime;
use crate::servers_storage::{ServersStorage, counts_unchanged, issued_unchanged};
use crate::world_physics_server::{SimOutcome, WorldNpServer, step_model};

verus! {

/// Runs one physics step per invocation, at the clock's fixed sub-step.
pub struct PhysicsStepperSystem;

impl PhysicsStepperSystem {
    pub fn new() -> PhysicsStepperSystem {
        PhysicsStepperSystem
    }

    /// Step the world by the clock's sub-step, with `outcome` holding what
    /// the simulation backend reported for that step.
    pub fn run(&self, storages: &mut ServersStorage, physics_time: &PhysicsTime, world_tag: PhysicsWorldTag, outcome: &SimOutcome)
        requires
            old(storages).wf(),
        ensures
            final(storages).wf(),
            counts_unchanged(*old(storages), *final(storages)),
            issued_unchanged(*old(storages), *final(storages)),
            final(storages).model() == step_model(
                old(storages).model(),
                world_tag.0,
                outcome.moved@,
                outcome.proximity_events@,
            ),
    {
        WorldNpServer::step(storages, world_tag, physics_time.sub_step_seconds(), outcome);
    }
}

} // verus!
