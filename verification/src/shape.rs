//! Shared collision shapes and their back-references.
//!
//! A shape can be attached to several bodies and areas at once, so it keeps a
//! list of the keys using it.  The garbage collector may only reclaim a shape
//! once both lists are empty; until then a requested removal is recorded in
//! `marked_for_drop` and retried on a later drain.

use vstd::prelude::*;
use crate::servers::ShapeDesc;
use crate::storage::StoreKey;

verus! {

/// `s` with every occurrence of `key` dropped.
pub open spec fn without_key(s: Seq<StoreKey>, key: StoreKey) -> Seq<StoreKey> {
    s.filter(|b: StoreKey| b != key)
}

fn remove_key(v: &mut Vec<StoreKey>, key: StoreKey)
    ensures
        final(v)@ == without_key(old(v)@, key),
{
    let mut kept: Vec<StoreKey> = Vec::new();
    let mut i: usize = 0;
    proof {
        assert(old(v)@.subrange(0, 0) =~= Seq::<StoreKey>::empty());
        reveal(Seq::filter);
    }
    while i < v.len()
        invariant
            i <= v@.len(),
            v@ == old(v)@,
            kept@ == without_key(v@.subrange(0, i as int), key),
        decreases v@.len() - i,
    {
        let ghost prefix = v@.subrange(0, i as int);
        if !(v[i] == key) {
            kept.push(v[i]);
        }
        i = i + 1;
        proof {
            reveal(Seq::filter);
            assert(v@.subrange(0, i as int) =~= prefix.push(v@[i - 1]));
            assert(prefix.push(v@[i - 1]).drop_last() =~= prefix);
        }
    }
    proof {
        assert(v@.subrange(0, v@.len() as int) =~= v@);
    }
    *v = kept;
}

/// A collision shape shared by reference among bodies and areas.
pub struct RigidShape {
    self_key: Option<StoreKey>,
    shape_desc: ShapeDesc,
    bodies: Vec<StoreKey>,
    areas: Vec<StoreKey>,
    marked_for_drop: bool,
}

impl RigidShape {
    pub closed spec fn desc_spec(self) -> ShapeDesc {
        self.shape_desc
    }

    pub closed spec fn self_key_spec(self) -> Option<StoreKey> {
        self.self_key
    }

    /// Set when a removal was requested while the shape was still in use;
    /// the removal is retried once nothing references the shape any more.
    pub closed spec fn marked_for_drop_spec(self) -> bool {
        self.marked_for_drop
    }

    /// Keys of the rigid bodies currently using this shape.
    pub closed spec fn bodies_spec(self) -> Seq<StoreKey> {
        self.bodies@
    }

    /// Keys of the areas currently using this shape.
    pub closed spec fn areas_spec(self) -> Seq<StoreKey> {
        self.areas@
    }

    /// A shape with a non-empty back-reference list must not be reclaimed.
    pub open spec fn in_use(self) -> bool {
        self.bodies_spec().len() > 0 || self.areas_spec().len() > 0
    }

    pub fn new(shape_desc: &ShapeDesc) -> (s: RigidShape)
        ensures
            s.desc_spec() == *shape_desc,
            s.bodies_spec() == Seq::<StoreKey>::empty(),
            s.areas_spec() == Seq::<StoreKey>::empty(),
            s.self_key_spec() is None,
            !s.marked_for_drop_spec(),
    {
        RigidShape {
            self_key: None,
            shape_desc: *shape_desc,
            bodies: Vec::new(),
            areas: Vec::new(),
            marked_for_drop: false,
        }
    }

    /// Replace the geometry description, keeping all registrations.
    pub fn update(&mut self, shape_desc: &ShapeDesc)
        ensures
            final(self).desc_spec() == *shape_desc,
            final(self).bodies_spec() == old(self).bodies_spec(),
            final(self).areas_spec() == old(self).areas_spec(),
            final(self).self_key_spec() == old(self).self_key_spec(),
            final(self).marked_for_drop_spec() == old(self).marked_for_drop_spec(),
    {
        self.shape_desc = *shape_desc;
    }

    pub fn shape_desc(&self) -> (d: &ShapeDesc)
        ensures
            *d == self.desc_spec(),
    {
        &self.shape_desc
    }

    pub fn register_body(&mut self, body: StoreKey)
        ensures
            final(self).bodies_spec() == old(self).bodies_spec().push(body),
            final(self).areas_spec() == old(self).areas_spec(),
            final(self).desc_spec() == old(self).desc_spec(),
            final(self).self_key_spec() == old(self).self_key_spec(),
            final(self).marked_for_drop_spec() == old(self).marked_for_drop_spec(),
    {
        self.bodies.push(body);
    }

    pub fn unregister_body(&mut self, body: StoreKey)
        ensures
            final(self).bodies_spec() == without_key(old(self).bodies_spec(), body),
            final(self).areas_spec() == old(self).areas_spec(),
            final(self).desc_spec() == old(self).desc_spec(),
            final(self).self_key_spec() == old(self).self_key_spec(),
            final(self).marked_for_drop_spec() == old(self).marked_for_drop_spec(),
    {
        remove_key(&mut self.bodies, body);
    }

    pub fn register_area(&mut self, area: StoreKey)
        ensures
            final(self).areas_spec() == old(self).areas_spec().push(area),
            final(self).bodies_spec() == old(self).bodies_spec(),
            final(self).desc_spec() == old(self).desc_spec(),
            final(self).self_key_spec() == old(self).self_key_spec(),
            final(self).marked_for_drop_spec() == old(self).marked_for_drop_spec(),
    {
        self.areas.push(area);
    }

    pub fn unregister_area(&mut self, area: StoreKey)
        ensures
            final(self).areas_spec() == without_key(old(self).areas_spec(), area),
            final(self).bodies_spec() == old(self).bodies_spec(),
            final(self).desc_spec() == old(self).desc_spec(),
            final(self).self_key_spec() == old(self).self_key_spec(),
            final(self).marked_for_drop_spec() == old(self).marked_for_drop_spec(),
    {
        remove_key(&mut self.areas, area);
    }

    pub fn self_key(&self) -> (k: Option<StoreKey>)
        ensures
            k == self.self_key_spec(),
    {
        self.self_key
    }

    pub fn set_self_key(&mut self, key: Option<StoreKey>)
        ensures
            final(self).self_key_spec() == key,
            final(self).bodies_spec() == old(self).bodies_spec(),
            final(self).areas_spec() == old(self).areas_spec(),
            final(self).desc_spec() == old(self).desc_spec(),
            final(self).marked_for_drop_spec() == old(self).marked_for_drop_spec(),
    {
        self.self_key = key;
    }

    pub fn is_marked_for_drop(&self) -> (m: bool)
        ensures
            m == self.marked_for_drop_spec(),
    {
        self.marked_for_drop
    }

    /// Record that a removal was requested while the shape was still in use.
    pub fn mark_for_drop(&mut self)
        ensures
            final(self).marked_for_drop_spec(),
            final(self).bodies_spec() == old(self).bodies_spec(),
            final(self).areas_spec() == old(self).areas_spec(),
            final(self).desc_spec() == old(self).desc_spec(),
            final(self).self_key_spec() == old(self).self_key_spec(),
    {
        self.marked_for_drop = true;
    }

    pub fn bodies(&self) -> (b: &Vec<StoreKey>)
        ensures
            b@ == self.bodies_spec(),
    {
        &self.bodies
    }

    pub fn areas(&self) -> (a: &Vec<StoreKey>)
        ensures
            a@ == self.areas_spec(),
    {
        &self.areas
    }

    /// The mathematical value of this shape.
    pub open spec fn model(self) -> ShapeModel {
        ShapeModel {
            self_key: self.self_key_spec(),
            desc: self.desc_spec(),
            bodies: self.bodies_spec(),
            areas: self.areas_spec(),
            marked_for_drop: self.marked_for_drop_spec(),
        }
    }
}

/// The mathematical value of a `RigidShape`.
#[verifier::ext_equal]
pub struct ShapeModel {
    pub self_key: Option<StoreKey>,
    pub desc: ShapeDesc,
    pub bodies: Seq<StoreKey>,
    pub areas: Seq<StoreKey>,
    pub marked_for_drop: bool,
}

impl ShapeModel {
    /// A shape with a non-empty back-reference list must not be reclaimed.
    pub open spec fn in_use(self) -> bool {
        self.bodies.len() > 0 || self.areas.len() > 0
    }
}

} // verus!
