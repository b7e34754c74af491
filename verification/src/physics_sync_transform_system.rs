//! The transform synchronization pass: dirty ECS transforms are pushed into
//! the physics state, simulated transforms are pulled back for everything
//! that was not authoritatively pushed this frame.
//!
//! An entity under a parent is pushed with the composition of its own
//! isometry and its ancestors' — the parent chain is walked on the spot, so
//! no global-transform cache is needed.  Pulling only the non-dirty entities
//! keeps a just-pushed transform from being clobbered by a stale read in the
//! same frame; the change events produced by the pull itself must be drained
//! by the host and never fed back into the next frame's dirty set.

use vstd::prelude::*;
use crate::ecs::{ComponentEvent, ComponentTable, DirtySet, Entity};
use crate::math::{Isometry, iso_compose_spec, iso_identity_spec};
use crate::objects::{PhysicsAreaTag, PhysicsRigidBodyTag};
use crate::area_physics_server::AreaNpServer;
use crate::rigid_body_physics_server::RBodyNpServer;
use crate::body::BodyModel;
use crate::servers_storage::{ServersStorage, PhysicsModel, bodies_model, counts_unchanged,
    issued_unchanged};
use crate::storage::StoreKey;

verus! {

/// Does this event mark its entity dirty for the transform pass?  Edited and
/// fresh transforms count; so do newly attached body or area handles.
pub open spec fn marks_transform(e: ComponentEvent) -> bool {
    e is Inserted || e is Modified
}

pub open spec fn marks_inserted(e: ComponentEvent) -> bool {
    e is Inserted
}

pub open spec fn dirty_of_marked(events: Seq<ComponentEvent>, accept: spec_fn(ComponentEvent) -> bool, i: int) -> bool {
    exists|j: int|
        0 <= j < events.len() && accept(#[trigger] events[j]) && events[j].index_spec() == i
}

/// The dirty predicate of the transform pass.
pub open spec fn transform_sync_dirty(transf_events: Seq<ComponentEvent>, bodies_events: Seq<ComponentEvent>, areas_events: Seq<ComponentEvent>) -> spec_fn(int) -> bool {
    |i: int|
        dirty_of_marked(transf_events, |e: ComponentEvent| marks_transform(e), i)
            || dirty_of_marked(bodies_events, |e: ComponentEvent| marks_inserted(e), i)
            || dirty_of_marked(areas_events, |e: ComponentEvent| marks_inserted(e), i)
}

/// Gather the indices of the accepted events into the dirty set.
fn gather_marked(dirty: &mut DirtySet, events: &Vec<ComponentEvent>, transform_marks: bool)
    requires
        old(dirty).wf(),
    ensures
        final(dirty).wf(),
        forall|i: int|
            #[trigger] final(dirty).has(i) <==> (old(dirty).has(i) || dirty_of_marked(
                events@,
                if transform_marks {
                    (|e: ComponentEvent| marks_transform(e))
                } else {
                    (|e: ComponentEvent| marks_inserted(e))
                },
                i,
            )),
{
    let ghost accept: spec_fn(ComponentEvent) -> bool = if transform_marks {
        (|e: ComponentEvent| marks_transform(e))
    } else {
        (|e: ComponentEvent| marks_inserted(e))
    };
    let mut k: usize = 0;
    while k < events.len()
        invariant
            k <= events@.len(),
            dirty.wf(),
            accept == (if transform_marks {
                (|e: ComponentEvent| marks_transform(e))
            } else {
                (|e: ComponentEvent| marks_inserted(e))
            }),
            forall|i: int|
                #[trigger] dirty.has(i) <==> (old(dirty).has(i) || exists|j: int|
                    0 <= j < k && accept(#[trigger] events@[j]) && events@[j].index_spec() == i),
        decreases events@.len() - k,
    {
        let e = events[k];
        let take = match e {
            ComponentEvent::Inserted(_) => true,
            ComponentEvent::Modified(_) => transform_marks,
            ComponentEvent::Removed(_) => false,
        };
        if take {
            dirty.add(e.index());
        }
        k = k + 1;
    }
}

/// The effective isometry of entity `e`: its own transform composed with
/// its ancestors' along the parent chain, walking at most `fuel` parents.
pub open spec fn chain_transform(transforms: ComponentTable<Isometry>, parents: ComponentTable<Entity>, e: int, fuel: nat) -> Isometry
    decreases fuel,
{
    let own = match transforms.at(e) {
        Some(t) => t,
        None => iso_identity_spec(),
    };
    match parents.at(e) {
        Some(p) => if fuel == 0 {
            own
        } else {
            iso_compose_spec(own, chain_transform(transforms, parents, p.0 as int, (fuel - 1) as nat))
        },
        None => own,
    }
}

/// Walk the parent chain of entity `e` and return its effective isometry.
pub fn compute_transform(transforms: &ComponentTable<Isometry>, parents: &ComponentTable<Entity>, e: u32, fuel: usize) -> (r: Isometry)
    ensures
        r == chain_transform(*transforms, *parents, e as int, fuel as nat),
    decreases fuel,
{
    let own = match transforms.get(e) {
        Some(t) => *t,
        None => Isometry::identity(),
    };
    match parents.get(e) {
        Some(p) => {
            if fuel == 0 {
                own
            } else {
                let parent_index = p.0;
                own.compose(compute_transform(transforms, parents, parent_index, fuel - 1))
            }
        },
        None => own,
    }
}

/// Write `iso` into the body entry of `k`, if it is live.
pub open spec fn set_transform_map(m: Map<StoreKey, BodyModel>, k: StoreKey, iso: Isometry) -> Map<StoreKey, BodyModel> {
    if m.dom().contains(k) {
        m.insert(k, BodyModel { transform: iso, ..m[k] })
    } else {
        m
    }
}

/// The push of one entity: a dirty entity's effective isometry goes into
/// its body and its area, whichever it has.
pub open spec fn push_one(m: Map<StoreKey, BodyModel>, tt: ComponentTable<Isometry>, pt: ComponentTable<Entity>, bt: ComponentTable<PhysicsRigidBodyTag>, at: ComponentTable<PhysicsAreaTag>, dirty: spec_fn(int) -> bool, fuel: nat, i: int) -> Map<StoreKey, BodyModel> {
    if !dirty(i) {
        m
    } else {
        let iso = chain_transform(tt, pt, i, fuel);
        let m1 = match bt.at(i) {
            Some(tag) => set_transform_map(m, tag.0, iso),
            None => m,
        };
        match at.at(i) {
            Some(tag) => set_transform_map(m1, tag.0, iso),
            None => m1,
        }
    }
}

/// The push phase over the entities `i..n`, in order.
pub open spec fn push_transforms(m: Map<StoreKey, BodyModel>, tt: ComponentTable<Isometry>, pt: ComponentTable<Entity>, bt: ComponentTable<PhysicsRigidBodyTag>, at: ComponentTable<PhysicsAreaTag>, dirty: spec_fn(int) -> bool, fuel: nat, i: int, n: int) -> Map<StoreKey, BodyModel>
    decreases n - i,
{
    if i >= n {
        m
    } else {
        push_transforms(push_one(m, tt, pt, bt, at, dirty, fuel, i), tt, pt, bt, at, dirty, fuel, i + 1, n)
    }
}

/// Entities on which nothing is dirty push nothing.
proof fn lemma_push_noop_tail(m: Map<StoreKey, BodyModel>, tt: ComponentTable<Isometry>, pt: ComponentTable<Entity>, bt: ComponentTable<PhysicsRigidBodyTag>, at: ComponentTable<PhysicsAreaTag>, dirty: spec_fn(int) -> bool, fuel: nat, i: int, n: int)
    requires
        i <= n,
        forall|j: int| i <= j < n ==> !(#[trigger] dirty(j)),
    ensures
        push_transforms(m, tt, pt, bt, at, dirty, fuel, i, n) == m,
    decreases n - i,
{
    if i < n {
        lemma_push_noop_tail(m, tt, pt, bt, at, dirty, fuel, i + 1, n);
    }
}

/// The value pulled back for a body tag: its simulated transform, or the
/// identity when the tag is dead.
pub open spec fn pulled_transform(bodies: Map<StoreKey, BodyModel>, tag: PhysicsRigidBodyTag) -> Isometry {
    if bodies.dom().contains(tag.0) {
        bodies[tag.0].transform
    } else {
        iso_identity_spec()
    }
}

/// The entity bound that covers the push phase.
pub open spec fn push_index_bound() -> int {
    0x1_0000_0000
}

/// An entity with isometry `ta` whose parent has isometry `tb` and no
/// parent of its own is pushed with exactly the composition of the two.
pub proof fn lemma_parent_chain_composition(transforms: ComponentTable<Isometry>, parents: ComponentTable<Entity>, a: int, b: Entity, ta: Isometry, tb: Isometry, fuel: nat)
    requires
        transforms.at(a) == Some(ta),
        parents.at(a) == Some(b),
        transforms.at(b.0 as int) == Some(tb),
        parents.at(b.0 as int) is None,
        fuel >= 1,
    ensures
        chain_transform(transforms, parents, a, fuel) == iso_compose_spec(ta, tb),
{
    assert(chain_transform(transforms, parents, b.0 as int, (fuel - 1) as nat) == tb);
}

/// The transform synchronization pass.
pub struct PhysicsSyncTransformSystem;

impl PhysicsSyncTransformSystem {
    pub fn new() -> PhysicsSyncTransformSystem {
        PhysicsSyncTransformSystem
    }

    /// Run one frame of transform synchronization: push the dirty entities'
    /// effective isometries into their bodies and areas, then pull the
    /// simulated transform back into every non-dirty entity that has both a
    /// transform and a body component.
    pub fn run(&self, storages: &mut ServersStorage, transforms: &mut ComponentTable<Isometry>, bodies: &ComponentTable<PhysicsRigidBodyTag>, areas: &ComponentTable<PhysicsAreaTag>, parents: &ComponentTable<Entity>, transf_events: &Vec<ComponentEvent>, bodies_events: &Vec<ComponentEvent>, areas_events: &Vec<ComponentEvent>)
        requires
            old(storages).wf(),
            old(transforms).wf(),
            parents.wf(),
        ensures
            final(storages).wf(),
            final(transforms).wf(),
            counts_unchanged(*old(storages), *final(storages)),
            issued_unchanged(*old(storages), *final(storages)),
            final(storages).model() == (PhysicsModel {
                bodies: push_transforms(
                    old(storages).model().bodies,
                    *old(transforms),
                    *parents,
                    *bodies,
                    *areas,
                    transform_sync_dirty(transf_events@, bodies_events@, areas_events@),
                    parents.table_len(),
                    0,
                    push_index_bound(),
                ),
                ..old(storages).model()
            }),
            forall|i: int|
                #[trigger] final(transforms).at(i) == (if old(transforms).at(i) is Some
                    && !(transform_sync_dirty(transf_events@, bodies_events@, areas_events@)(i))
                    && bodies.at(i) is Some {
                    Some(pulled_transform(final(storages).model().bodies, bodies.at(i)->0))
                } else {
                    old(transforms).at(i)
                }),
    {
        let ghost dirty_spec = transform_sync_dirty(transf_events@, bodies_events@, areas_events@);
        let ghost m0 = old(storages).model();
        let ghost tt0 = *transforms;
        let ghost fuel: nat = parents.table_len();

        let mut dirty = DirtySet::new();
        gather_marked(&mut dirty, transf_events, true);
        gather_marked(&mut dirty, bodies_events, false);
        gather_marked(&mut dirty, areas_events, false);
        proof {
            assert forall|i: int| #[trigger] dirty.has(i) <==> dirty_spec(i) by {}
        }
        let bound = dirty.len_bound();
        proof {
            assert forall|j: int|
                bound <= j < push_index_bound() implies !(#[trigger] dirty_spec(j)) by {
                if dirty_spec(j) {
                    assert(dirty.has(j));
                }
            }
        }
        let chain_fuel = parents.len();

        // Push phase.
        let mut i: usize = 0;
        while i < bound
            invariant
                i <= bound,
                bound <= 0x1_0000_0000,
                chain_fuel == parents.table_len(),
                fuel == parents.table_len(),
                tt0 == *transforms,
                storages.wf(),
                counts_unchanged(*old(storages), *storages),
                issued_unchanged(*old(storages), *storages),
                storages.model().worlds == m0.worlds,
                storages.model().colliders == m0.colliders,
                storages.model().shapes == m0.shapes,
                storages.model().world_queue == m0.world_queue,
                storages.model().body_queue == m0.body_queue,
                storages.model().area_queue == m0.area_queue,
                storages.model().shape_queue == m0.shape_queue,
                m0 == old(storages).model(),
                forall|j: int| #[trigger] dirty.has(j) <==> dirty_spec(j),
                forall|j: int| #[trigger] dirty.has(j) ==> j < bound,
                push_transforms(
                    m0.bodies,
                    tt0,
                    *parents,
                    *bodies,
                    *areas,
                    dirty_spec,
                    fuel,
                    0,
                    push_index_bound(),
                ) == push_transforms(
                    bodies_model(storages.bodies),
                    tt0,
                    *parents,
                    *bodies,
                    *areas,
                    dirty_spec,
                    fuel,
                    i as int,
                    push_index_bound(),
                ),
            decreases bound - i,
        {
            let ghost bcur = bodies_model(storages.bodies);
            if dirty.contains(i as u32) {
                let iso = compute_transform(transforms, parents, i as u32, chain_fuel);
                match bodies.get(i as u32) {
                    Some(tag) => {
                        RBodyNpServer::set_body_transform(storages, *tag, &iso);
                    },
                    None => {},
                }
                match areas.get(i as u32) {
                    Some(tag) => {
                        AreaNpServer::set_body_transform(storages, *tag, &iso);
                    },
                    None => {},
                }
            }
            i = i + 1;
            proof {
                assert(bodies_model(storages.bodies) =~= push_one(
                    bcur,
                    tt0,
                    *parents,
                    *bodies,
                    *areas,
                    dirty_spec,
                    fuel,
                    i - 1,
                ));
            }
        }
        proof {
            lemma_push_noop_tail(
                bodies_model(storages.bodies),
                tt0,
                *parents,
                *bodies,
                *areas,
                dirty_spec,
                fuel,
                bound as int,
                push_index_bound(),
            );
            assert(storages.model() =~= (PhysicsModel {
                bodies: push_transforms(
                    m0.bodies,
                    tt0,
                    *parents,
                    *bodies,
                    *areas,
                    dirty_spec,
                    fuel,
                    0,
                    push_index_bound(),
                ),
                ..m0
            }));
        }

        // Pull phase: write the simulation's transforms back into the
        // entities that were not pushed this frame.
        let ghost storages1 = *storages;
        let n = transforms.len();
        let mut p: usize = 0;
        while p < n
            invariant
                p <= n,
                n <= 0x1_0000_0000,
                *storages == storages1,
                transforms.wf(),
                forall|j: int| #[trigger] dirty.has(j) <==> dirty_spec(j),
                forall|j: int|
                    !(0 <= j < p) ==> #[trigger] transforms.at(j) == old(transforms).at(j),
                forall|j: int|
                    0 <= j < p ==> #[trigger] transforms.at(j) == (if old(transforms).at(j) is Some
                        && !dirty_spec(j) && bodies.at(j) is Some {
                        Some(pulled_transform(bodies_model(storages.bodies), bodies.at(j)->0))
                    } else {
                        old(transforms).at(j)
                    }),
            decreases n - p,
        {
            let has_transform = match transforms.get(p as u32) {
                Some(_) => true,
                None => false,
            };
            if has_transform && !dirty.contains(p as u32) {
                match bodies.get(p as u32) {
                    Some(tag) => {
                        let iso = RBodyNpServer::body_transform(storages, *tag);
                        transforms.insert(p as u32, iso);
                    },
                    None => {},
                }
            }
            p = p + 1;
        }
        proof {
            assert forall|j: int| #[trigger] transforms.at(j) == (
            if old(transforms).at(j) is Some && !dirty_spec(j) && bodies.at(j) is Some {
                Some(pulled_transform(bodies_model(storages.bodies), bodies.at(j)->0))
            } else {
                old(transforms).at(j)
            }) by {
                if !(0 <= j < n) {
                    assert(old(transforms).at(j) is None);
                }
            }
        }
    }
}

} // verus!
