//! The shape server: creation, geometry updates, and guarded removal.

use vstd::prelude::*;
use crate::objects::{KindedKey, PhysicsHandle, PhysicsShapeTag, PhysicsTag};
use crate::servers::ShapeDesc;
use crate::servers_storage::{ServersStorage, PhysicsModel, shapes_model, counts_unchanged,
    issued_unchanged};
use crate::shape::{RigidShape, ShapeModel};
use crate::storage::{StoreKey, Storage};

verus! {

/// The model value of a freshly created shape.
pub open spec fn new_shape_model(self_key: StoreKey, desc: ShapeDesc) -> ShapeModel {
    ShapeModel {
        self_key: Some(self_key),
        desc,
        bodies: Seq::empty(),
        areas: Seq::empty(),
        marked_for_drop: false,
    }
}

/// `m` with the shape entry of `k` replaced by `s`.
pub open spec fn with_shape(m: PhysicsModel, k: StoreKey, s: ShapeModel) -> PhysicsModel {
    PhysicsModel { shapes: m.shapes.insert(k, s), ..m }
}

/// Stateless collection of shape operations.
pub struct ShapeNpServer;

impl ShapeNpServer {
    /// Create a shape from its description and hand back the owning handle.
    pub fn create_shape(storages: &mut ServersStorage, shape_desc: &ShapeDesc) -> (h: PhysicsHandle<PhysicsShapeTag>)
        requires
            old(storages).wf(),
        ensures
            final(storages).wf(),
            !old(storages).model().shapes.dom().contains(h.tag_spec().0),
            final(storages).model() == with_shape(
                old(storages).model(),
                h.tag_spec().0,
                new_shape_model(h.tag_spec().0, *shape_desc),
            ),
            final(storages).gc.count_of(h.tag_spec().kinded_spec()) == 1,
            forall|kk: KindedKey|
                kk != h.tag_spec().kinded_spec() ==> final(storages).gc.count_of(kk) == old(
                    storages,
                ).gc.count_of(kk),
    {
        let shape = RigidShape::new(shape_desc);
        let s_key = storages.shapes.insert(shape);
        match storages.shapes.get_mut(s_key) {
            Some(shape) => {
                shape.set_self_key(Some(s_key));
            },
            None => {
                proof {
                    assert(false);
                }
            },
        }
        let tag = PhysicsShapeTag(s_key);
        proof {
            let kk = tag.kinded_spec();
            if old(storages).gc.count_of(kk) > 0 {
                assert(old(storages).key_issued(kk));
            }
            if old(storages).gc.queued(kk) {
                assert(old(storages).key_issued(kk));
            }
            assert(storages.model().shapes =~= old(storages).model().shapes.insert(
                s_key,
                new_shape_model(s_key, *shape_desc),
            ));
        }
        let h = PhysicsHandle::new(tag, &mut storages.gc);
        proof {
            assert forall|kk: KindedKey| #[trigger] storages.gc.count_of(kk) > 0 implies
                storages.key_issued(kk) by {
                if kk != tag.kinded_spec() {
                    assert(old(storages).gc.count_of(kk) > 0);
                    assert(old(storages).key_issued(kk));
                }
            }
            assert forall|kk: KindedKey| #[trigger] storages.gc.queued(kk) implies
                storages.key_issued(kk) by {
                assert(storages.gc.queue_of(kk.kind) == old(storages).gc.queue_of(kk.kind));
                assert(old(storages).gc.queued(kk));
                assert(old(storages).key_issued(kk));
            }
        }
        h
    }

    /// Replace the geometry description of an existing shape; its
    /// registrations are kept.
    pub fn update_shape(storages: &mut ServersStorage, shape_tag: PhysicsShapeTag, shape_desc: &ShapeDesc)
        requires
            old(storages).wf(),
        ensures
            final(storages).wf(),
            counts_unchanged(*old(storages), *final(storages)),
            issued_unchanged(*old(storages), *final(storages)),
            ({
                let pre = old(storages).model();
                let post = final(storages).model();
                let k = shape_tag.0;
                if pre.shapes.dom().contains(k) {
                    post == with_shape(
                        pre,
                        k,
                        ShapeModel { desc: *shape_desc, ..pre.shapes[k] },
                    )
                } else {
                    post == pre
                }
            }),
    {
        match storages.shapes.get_mut(shape_tag.0) {
            Some(shape) => {
                shape.update(shape_desc);
            },
            None => {},
        }
        proof {
            let pre = old(storages).model();
            let k = shape_tag.0;
            if pre.shapes.dom().contains(k) {
                assert(storages.model().shapes =~= pre.shapes.insert(
                    k,
                    ShapeModel { desc: *shape_desc, ..pre.shapes[k] },
                ));
                assert(storages.model() =~= with_shape(
                    pre,
                    k,
                    ShapeModel { desc: *shape_desc, ..pre.shapes[k] },
                ));
            } else {
                assert(storages.model() =~= pre);
            }
        }
    }

    /// Try to reclaim a queued shape.  A shape still referenced by bodies or
    /// areas must not be removed: it is only marked, and the caller keeps it
    /// queued for a later pass.  Returns whether the shape is gone.
    pub fn drop_shape(shape_tag: PhysicsShapeTag, shapes: &mut Storage<RigidShape>) -> (removed: bool)
        requires
            old(shapes).wf(),
        ensures
            final(shapes).wf(),
            final(shapes).issued() == old(shapes).issued(),
            forall|k: StoreKey|
                #[trigger] final(shapes).view_map().dom().contains(k) ==> old(
                    shapes,
                ).view_map().dom().contains(k) && final(shapes).view_map()[k].self_key_spec()
                    == old(shapes).view_map()[k].self_key_spec(),
            ({
                let pre = shapes_model(*old(shapes));
                let post = shapes_model(*final(shapes));
                let k = shape_tag.0;
                if pre.dom().contains(k) && pre[k].in_use() {
                    &&& !removed
                    &&& post == pre.insert(k, ShapeModel { marked_for_drop: true, ..pre[k] })
                } else {
                    &&& removed
                    &&& post == pre.remove(k)
                }
            }),
    {
        let shape_key = shape_tag.0;
        let safe_to_drop = !Self::has_dependency(shape_key, shapes);
        if !safe_to_drop {
            match shapes.get_mut(shape_key) {
                Some(shape) => {
                    // The owning handles are gone while the shape is still
                    // attached somewhere; keep it and retry on a later
                    // drain.
                    shape.mark_for_drop();
                },
                None => {
                    proof {
                        assert(false);
                    }
                },
            }
            proof {
                let pre = shapes_model(*old(shapes));
                assert(shapes_model(*shapes) =~= pre.insert(
                    shape_key,
                    ShapeModel { marked_for_drop: true, ..pre[shape_key] },
                ));
            }
            false
        } else {
            shapes.remove(shape_key);
            proof {
                let pre = shapes_model(*old(shapes));
                assert(shapes_model(*shapes) =~= pre.remove(shape_key));
            }
            true
        }
    }

    /// Is this shape still referenced by a body or an area?
    pub fn has_dependency(shape_key: StoreKey, shapes: &Storage<RigidShape>) -> (r: bool)
        ensures
            r == (shapes_model(*shapes).dom().contains(shape_key)
                && shapes_model(*shapes)[shape_key].in_use()),
    {
        match shapes.get(shape_key) {
            Some(shape) => shape.bodies().len() > 0 || shape.areas().len() > 0,
            None => false,
        }
    }
}

} // verus!
