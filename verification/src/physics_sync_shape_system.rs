//! The shape synchronization pass: attaching a shape component to an entity
//! that has a body component attaches that shape to the body, and removing
//! it detaches the shape again.
//!
//! The pass reads the change events of the body-handle and shape-handle
//! component stores, unions their indices into a dirty set, and calls
//! `set_shape` only for the dirty entities — never a full-table scan.

use vstd::prelude::*;
use crate::ecs::{ComponentEvent, ComponentTable, DirtySet, dirty_of_events, gather_dirty};
use crate::objects::{PhysicsRigidBodyTag, PhysicsShapeTag};
use crate::rigid_body_physics_server::{RBodyNpServer, set_shape_model_rel};
use crate::servers_storage::{ServersStorage, PhysicsModel, counts_unchanged};

verus! {

/// One entity of one pass: a dirty entity with a body component has
/// `set_shape` called for it — with its shape when `want_shape` and the
/// shape component is present, with `None` when `!want_shape` and the shape
/// component is absent.  Every other entity leaves the state unchanged.
pub open spec fn shape_sync_step_rel(pre: PhysicsModel, post: PhysicsModel, bodies: ComponentTable<PhysicsRigidBodyTag>, shapes: ComponentTable<PhysicsShapeTag>, dirty: spec_fn(int) -> bool, want_shape: bool, i: int) -> bool {
    if dirty(i) && bodies.at(i) is Some && (shapes.at(i) is Some) == want_shape {
        set_shape_model_rel(
            pre,
            post,
            (bodies.at(i)->0).0,
            match shapes.at(i) {
                Some(t) => Some(t.0),
                None => None,
            },
        )
    } else {
        post == pre
    }
}

/// One pass over the entities `s..n`, in order.
pub open spec fn shape_sync_pass_rel(pre: PhysicsModel, post: PhysicsModel, bodies: ComponentTable<PhysicsRigidBodyTag>, shapes: ComponentTable<PhysicsShapeTag>, dirty: spec_fn(int) -> bool, want_shape: bool, s: int, n: int) -> bool
    decreases n - s,
{
    if s >= n {
        post == pre
    } else {
        exists|mid: PhysicsModel|
            #[trigger] shape_sync_step_rel(pre, mid, bodies, shapes, dirty, want_shape, s)
                && shape_sync_pass_rel(mid, post, bodies, shapes, dirty, want_shape, s + 1, n)
    }
}

/// A pass extends on the right by one more entity.
proof fn lemma_pass_rel_snoc(pre: PhysicsModel, mid: PhysicsModel, post: PhysicsModel, bodies: ComponentTable<PhysicsRigidBodyTag>, shapes: ComponentTable<PhysicsShapeTag>, dirty: spec_fn(int) -> bool, want_shape: bool, s: int, i: int)
    requires
        s <= i,
        shape_sync_pass_rel(pre, mid, bodies, shapes, dirty, want_shape, s, i),
        shape_sync_step_rel(mid, post, bodies, shapes, dirty, want_shape, i),
    ensures
        shape_sync_pass_rel(pre, post, bodies, shapes, dirty, want_shape, s, i + 1),
    decreases i - s,
{
    if s == i {
        assert(mid == pre);
        assert(shape_sync_step_rel(pre, post, bodies, shapes, dirty, want_shape, s));
        assert(shape_sync_pass_rel(post, post, bodies, shapes, dirty, want_shape, s + 1, i + 1));
    } else {
        let mid1 = choose|mid1: PhysicsModel|
            #[trigger] shape_sync_step_rel(pre, mid1, bodies, shapes, dirty, want_shape, s)
                && shape_sync_pass_rel(mid1, mid, bodies, shapes, dirty, want_shape, s + 1, i);
        lemma_pass_rel_snoc(mid1, mid, post, bodies, shapes, dirty, want_shape, s + 1, i);
    }
}

/// Entities on which nothing is dirty extend a pass for free.
proof fn lemma_pass_rel_noop_tail(pre: PhysicsModel, post: PhysicsModel, bodies: ComponentTable<PhysicsRigidBodyTag>, shapes: ComponentTable<PhysicsShapeTag>, dirty: spec_fn(int) -> bool, want_shape: bool, s: int, i: int, n: int)
    requires
        s <= i <= n,
        shape_sync_pass_rel(pre, post, bodies, shapes, dirty, want_shape, s, i),
        forall|j: int| i <= j < n ==> !(#[trigger] dirty(j)),
    ensures
        shape_sync_pass_rel(pre, post, bodies, shapes, dirty, want_shape, s, n),
    decreases n - i,
{
    if i < n {
        assert(shape_sync_step_rel(post, post, bodies, shapes, dirty, want_shape, i));
        lemma_pass_rel_snoc(pre, post, post, bodies, shapes, dirty, want_shape, s, i);
        lemma_pass_rel_noop_tail(pre, post, bodies, shapes, dirty, want_shape, s, i + 1, n);
    }
}

/// The dirty predicate of the shape pass: any change event, from either
/// store, marks the entity.
pub open spec fn shape_sync_dirty(bodies_events: Seq<ComponentEvent>, shapes_events: Seq<ComponentEvent>) -> spec_fn(int) -> bool {
    |i: int| dirty_of_events(bodies_events, i) || dirty_of_events(shapes_events, i)
}

/// The entity bound that covers both passes.
pub open spec fn entity_index_bound() -> int {
    0x1_0000_0000
}

/// The shape synchronization pass.
pub struct PhysicsSyncShapeSystem;

impl PhysicsSyncShapeSystem {
    pub fn new() -> PhysicsSyncShapeSystem {
        PhysicsSyncShapeSystem
    }

    /// Run one frame of shape synchronization: first every dirty entity
    /// with both a body and a shape component gets the shape attached, then
    /// every dirty entity with a body but no shape component gets its shape
    /// detached.
    pub fn run(&self, storages: &mut ServersStorage, bodies_events: &Vec<ComponentEvent>, shapes_events: &Vec<ComponentEvent>, bodies: &ComponentTable<PhysicsRigidBodyTag>, shapes: &ComponentTable<PhysicsShapeTag>)
        requires
            old(storages).wf(),
        ensures
            final(storages).wf(),
            counts_unchanged(*old(storages), *final(storages)),
            exists|mid: PhysicsModel|
                #[trigger] shape_sync_pass_rel(
                    old(storages).model(),
                    mid,
                    *bodies,
                    *shapes,
                    shape_sync_dirty(bodies_events@, shapes_events@),
                    true,
                    0,
                    entity_index_bound(),
                ) && shape_sync_pass_rel(
                    mid,
                    final(storages).model(),
                    *bodies,
                    *shapes,
                    shape_sync_dirty(bodies_events@, shapes_events@),
                    false,
                    0,
                    entity_index_bound(),
                ),
    {
        let ghost m0 = old(storages).model();
        let ghost dirty_spec = shape_sync_dirty(bodies_events@, shapes_events@);
        let mut dirty = DirtySet::new();
        gather_dirty(&mut dirty, bodies_events);
        gather_dirty(&mut dirty, shapes_events);
        proof {
            assert forall|i: int| #[trigger] dirty.has(i) <==> dirty_spec(i) by {}
        }
        let bound = dirty.len_bound();
        proof {
            assert forall|j: int| bound <= j < entity_index_bound() implies !(#[trigger] dirty_spec(j)) by {
                if dirty_spec(j) {
                    assert(dirty.has(j));
                }
            }
        }

        // Attach or replace shapes on dirty entities that have both
        // components.
        let mut i: usize = 0;
        while i < bound
            invariant
                i <= bound,
                bound <= 0x1_0000_0000,
                storages.wf(),
                counts_unchanged(*old(storages), *storages),
                m0 == old(storages).model(),
                forall|j: int| #[trigger] dirty.has(j) <==> dirty_spec(j),
                forall|j: int| #[trigger] dirty.has(j) ==> j < bound,
                shape_sync_pass_rel(
                    m0,
                    storages.model(),
                    *bodies,
                    *shapes,
                    dirty_spec,
                    true,
                    0,
                    i as int,
                ),
            decreases bound - i,
        {
            let ghost mcur = storages.model();
            if dirty.contains(i as u32) {
                match bodies.get(i as u32) {
                    Some(body_tag) => {
                        match shapes.get(i as u32) {
                            Some(shape_tag) => {
                                RBodyNpServer::set_shape(storages, *body_tag, Some(*shape_tag));
                            },
                            None => {},
                        }
                    },
                    None => {},
                }
            }
            i = i + 1;
            proof {
                assert(shape_sync_step_rel(
                    mcur,
                    storages.model(),
                    *bodies,
                    *shapes,
                    dirty_spec,
                    true,
                    i - 1,
                ));
                lemma_pass_rel_snoc(
                    m0,
                    mcur,
                    storages.model(),
                    *bodies,
                    *shapes,
                    dirty_spec,
                    true,
                    0,
                    i - 1,
                );
            }
        }
        let ghost m_mid = storages.model();
        proof {
            lemma_pass_rel_noop_tail(
                m0,
                m_mid,
                *bodies,
                *shapes,
                dirty_spec,
                true,
                0,
                bound as int,
                entity_index_bound(),
            );
        }

        // Detach shapes on dirty entities whose shape component is gone.
        let mut i2: usize = 0;
        while i2 < bound
            invariant
                i2 <= bound,
                bound <= 0x1_0000_0000,
                storages.wf(),
                counts_unchanged(*old(storages), *storages),
                forall|j: int| #[trigger] dirty.has(j) <==> dirty_spec(j),
                forall|j: int| #[trigger] dirty.has(j) ==> j < bound,
                shape_sync_pass_rel(
                    m_mid,
                    storages.model(),
                    *bodies,
                    *shapes,
                    dirty_spec,
                    false,
                    0,
                    i2 as int,
                ),
            decreases bound - i2,
        {
            let ghost mcur = storages.model();
            if dirty.contains(i2 as u32) {
                match bodies.get(i2 as u32) {
                    Some(body_tag) => {
                        match shapes.get(i2 as u32) {
                            Some(_shape_tag) => {},
                            None => {
                                RBodyNpServer::set_shape(storages, *body_tag, None);
                            },
                        }
                    },
                    None => {},
                }
            }
            i2 = i2 + 1;
            proof {
                assert(shape_sync_step_rel(
                    mcur,
                    storages.model(),
                    *bodies,
                    *shapes,
                    dirty_spec,
                    false,
                    i2 - 1,
                ));
                lemma_pass_rel_snoc(
                    m_mid,
                    mcur,
                    storages.model(),
                    *bodies,
                    *shapes,
                    dirty_spec,
                    false,
                    0,
                    i2 - 1,
                );
            }
        }
        proof {
            lemma_pass_rel_noop_tail(
                m_mid,
                storages.model(),
                *bodies,
                *shapes,
                dirty_spec,
                false,
                0,
                bound as int,
                entity_index_bound(),
            );
        }
    }
}

} // verus!
