//! Opaque resource tags, reference-counted handles, and the garbage collector.
//!
//! A tag is a copyable name for a physics resource; it carries no lifetime.
//! A `PhysicsHandle` pairs a tag with shared ownership bookkeeping: the
//! garbage collector keeps one reference count per tagged resource, and when
//! the count reaches zero the tag is pushed onto the removal queue of its
//! kind.  Destruction itself happens later, in the per-step drain, because it
//! needs ordered access to several storages at once.

use vstd::prelude::*;
use vstd::pervasive::VecAdditionalExecFns;
use crate::storage::StoreKey;

verus! {

/// The resource kinds the garbage collector keeps separate queues for.
#[derive(Copy, Clone, Debug, PartialEq, Eq, Structural)]
pub enum ObjectKind {
    World,
    RigidBody,
    Area,
    Shape,
}

/// A storage key together with the kind of resource it names.
#[derive(Copy, Clone, Debug, PartialEq, Eq, Structural)]
pub struct KindedKey {
    pub kind: ObjectKind,
    pub key: StoreKey,
}

/// Opaque identifier of a physics world.
#[derive(Copy, Clone, Debug, PartialEq, Eq, Structural)]
pub struct PhysicsWorldTag(pub StoreKey);

/// Opaque identifier of a rigid body.
#[derive(Copy, Clone, Debug, PartialEq, Eq, Structural)]
pub struct PhysicsRigidBodyTag(pub StoreKey);

/// Opaque identifier of an area (a sensor body).
#[derive(Copy, Clone, Debug, PartialEq, Eq, Structural)]
pub struct PhysicsAreaTag(pub StoreKey);

/// Opaque identifier of a shape.
#[derive(Copy, Clone, Debug, PartialEq, Eq, Structural)]
pub struct PhysicsShapeTag(pub StoreKey);

struct CountEntry {
    key: KindedKey,
    count: u64,
}

spec fn has_key(s: Seq<CountEntry>, k: KindedKey) -> bool {
    exists|i: int| 0 <= i < s.len() && s[i].key == k
}

spec fn key_idx(s: Seq<CountEntry>, k: KindedKey) -> int {
    choose|i: int| 0 <= i < s.len() && s[i].key == k
}

spec fn unique_keys(s: Seq<CountEntry>) -> bool {
    forall|i: int, j: int| 0 <= i < j < s.len() ==> (#[trigger] s[i].key) != (#[trigger] s[j].key)
}

/// Process-wide state that turns dropped handles into queued removal
/// requests: one reference count per live tagged resource, and one removal
/// queue per resource kind, drained once per world step.
pub struct PhysicsGarbageCollector {
    bodies: Vec<StoreKey>,
    areas: Vec<StoreKey>,
    shapes: Vec<StoreKey>,
    worlds: Vec<StoreKey>,
    counts: Vec<CountEntry>,
}

impl PhysicsGarbageCollector {
    /// The removal queue of one resource kind, oldest request first.
    pub closed spec fn queue_of(self, kind: ObjectKind) -> Seq<StoreKey> {
        match kind {
            ObjectKind::World => self.worlds@,
            ObjectKind::RigidBody => self.bodies@,
            ObjectKind::Area => self.areas@,
            ObjectKind::Shape => self.shapes@,
        }
    }

    pub open spec fn queued(self, kk: KindedKey) -> bool {
        self.queue_of(kk.kind).contains(kk.key)
    }

    /// The number of handles currently sharing ownership of `kk`.
    pub closed spec fn count_of(self, kk: KindedKey) -> nat {
        if has_key(self.counts@, kk) {
            self.counts@[key_idx(self.counts@, kk)].count as nat
        } else {
            0
        }
    }

    pub closed spec fn wf(self) -> bool {
        &&& unique_keys(self.counts@)
        &&& forall|i: int| 0 <= i < self.counts@.len() ==> (#[trigger] self.counts@[i]).count >= 1
        &&& forall|i: int|
            0 <= i < self.counts@.len() ==> !self.queued((#[trigger] self.counts@[i]).key)
        &&& forall|i: int, j: int|
            0 <= i < j < self.bodies@.len() ==> (#[trigger] self.bodies@[i]) != (#[trigger] self.bodies@[j])
        &&& forall|i: int, j: int|
            0 <= i < j < self.areas@.len() ==> (#[trigger] self.areas@[i]) != (#[trigger] self.areas@[j])
        &&& forall|i: int, j: int|
            0 <= i < j < self.shapes@.len() ==> (#[trigger] self.shapes@[i]) != (#[trigger] self.shapes@[j])
        &&& forall|i: int, j: int|
            0 <= i < j < self.worlds@.len() ==> (#[trigger] self.worlds@[i]) != (#[trigger] self.worlds@[j])
    }

    /// A queued tag has no live handles left.
    pub proof fn lemma_queued_not_counted(self, kk: KindedKey)
        requires
            self.wf(),
            self.queued(kk),
        ensures
            self.count_of(kk) == 0,
    {
        if has_key(self.counts@, kk) {
            let i = key_idx(self.counts@, kk);
            assert(!self.queued(self.counts@[i].key));
        }
    }

    pub fn new() -> (gc: PhysicsGarbageCollector)
        ensures
            gc.wf(),
            forall|kind: ObjectKind| #[trigger] gc.queue_of(kind) == Seq::<StoreKey>::empty(),
            forall|kk: KindedKey| #[trigger] gc.count_of(kk) == 0,
    {
        let gc = PhysicsGarbageCollector {
            bodies: Vec::new(),
            areas: Vec::new(),
            shapes: Vec::new(),
            worlds: Vec::new(),
            counts: Vec::new(),
        };
        proof {
            assert forall|kind: ObjectKind| #[trigger] gc.queue_of(kind) =~= Seq::<StoreKey>::empty() by {}
        }
        gc
    }

    fn find(&self, kk: KindedKey) -> (r: Option<usize>)
        ensures
            match r {
                Some(i) => i < self.counts@.len() && self.counts@[i as int].key == kk,
                None => !has_key(self.counts@, kk),
            },
    {
        let mut i: usize = 0;
        while i < self.counts.len()
            invariant
                i <= self.counts@.len(),
                forall|j: int| 0 <= j < i ==> (#[trigger] self.counts@[j].key) != kk,
            decreases self.counts@.len() - i,
        {
            if self.counts[i].key == kk {
                return Some(i);
            }
            i = i + 1;
        }
        None
    }

    proof fn lemma_count_at(s: Seq<CountEntry>, i: int, kk: KindedKey)
        requires
            unique_keys(s),
            0 <= i < s.len(),
            s[i].key == kk,
        ensures
            has_key(s, kk),
            key_idx(s, kk) == i,
    {
        assert(has_key(s, kk));
        let j = key_idx(s, kk);
        if j != i {
            if j < i {
                assert(s[j].key != s[i].key);
            } else {
                assert(s[i].key != s[j].key);
            }
        }
    }

    /// Start tracking `kk` with a reference count of one.
    fn register(&mut self, kk: KindedKey)
        requires
            old(self).wf(),
            old(self).count_of(kk) == 0,
            !old(self).queued(kk),
        ensures
            final(self).wf(),
            final(self).count_of(kk) == 1,
            forall|k2: KindedKey| k2 != kk ==> final(self).count_of(k2) == old(self).count_of(k2),
            forall|kind: ObjectKind| #[trigger] final(self).queue_of(kind) == old(self).queue_of(kind),
    {
        proof {
            if has_key(self.counts@, kk) {
                let i = key_idx(self.counts@, kk);
                assert(self.counts@[i].count >= 1);
            }
        }
        let ghost n = self.counts@.len() as int;
        self.counts.push(CountEntry { key: kk, count: 1 });
        proof {
            Self::lemma_count_at(self.counts@, n, kk);
            assert forall|k2: KindedKey| k2 != kk implies self.count_of(k2) == old(self).count_of(k2) by {
                if has_key(old(self).counts@, k2) {
                    let i = key_idx(old(self).counts@, k2);
                    Self::lemma_count_at(old(self).counts@, i, k2);
                    Self::lemma_count_at(self.counts@, i, k2);
                } else {
                    if has_key(self.counts@, k2) {
                        let i = key_idx(self.counts@, k2);
                        assert(0 <= i < self.counts@.len());
                        assert(i != n);
                        assert(old(self).counts@[i].key == k2);
                    }
                }
            }
        }
    }

    /// Add one to the reference count of `kk`.
    fn retain(&mut self, kk: KindedKey)
        requires
            old(self).wf(),
            1 <= old(self).count_of(kk) < u64::MAX,
        ensures
            final(self).wf(),
            final(self).count_of(kk) == old(self).count_of(kk) + 1,
            forall|k2: KindedKey| k2 != kk ==> final(self).count_of(k2) == old(self).count_of(k2),
            forall|kind: ObjectKind| #[trigger] final(self).queue_of(kind) == old(self).queue_of(kind),
    {
        let r = self.find(kk);
        match r {
            Some(i) => {
                proof {
                    Self::lemma_count_at(self.counts@, i as int, kk);
                }
                let c = self.counts[i].count;
                self.counts.set(i, CountEntry { key: kk, count: c + 1 });
                proof {
                    Self::lemma_count_at(self.counts@, i as int, kk);
                    assert forall|k2: KindedKey| k2 != kk implies self.count_of(k2) == old(
                        self,
                    ).count_of(k2) by {
                        if has_key(old(self).counts@, k2) {
                            let j = key_idx(old(self).counts@, k2);
                            Self::lemma_count_at(old(self).counts@, j, k2);
                            Self::lemma_count_at(self.counts@, j, k2);
                        } else {
                            if has_key(self.counts@, k2) {
                                let j = key_idx(self.counts@, k2);
                                assert(old(self).counts@[j].key == k2);
                            }
                        }
                    }
                }
            },
            None => {
                proof {
                    assert(false);
                }
            },
        }
    }

    /// Subtract one from the reference count of `kk`; when it reaches zero
    /// the entry is dropped and the new count, zero, is returned.
    fn release_count(&mut self, kk: KindedKey) -> (left: u64)
        requires
            old(self).wf(),
            old(self).count_of(kk) >= 1,
        ensures
            final(self).wf(),
            left == old(self).count_of(kk) - 1,
            final(self).count_of(kk) == left,
            forall|k2: KindedKey| k2 != kk ==> final(self).count_of(k2) == old(self).count_of(k2),
            forall|kind: ObjectKind| #[trigger] final(self).queue_of(kind) == old(self).queue_of(kind),
            !final(self).queued(kk),
    {
        let r = self.find(kk);
        match r {
            Some(i) => {
                proof {
                    Self::lemma_count_at(self.counts@, i as int, kk);
                    assert(!self.queued(self.counts@[i as int].key));
                }
                let c = self.counts[i].count;
                if c > 1 {
                    self.counts.set(i, CountEntry { key: kk, count: c - 1 });
                    proof {
                        Self::lemma_count_at(self.counts@, i as int, kk);
                        assert forall|k2: KindedKey| k2 != kk implies self.count_of(k2) == old(
                            self,
                        ).count_of(k2) by {
                            if has_key(old(self).counts@, k2) {
                                let j = key_idx(old(self).counts@, k2);
                                Self::lemma_count_at(old(self).counts@, j, k2);
                                Self::lemma_count_at(self.counts@, j, k2);
                            } else {
                                if has_key(self.counts@, k2) {
                                    let j = key_idx(self.counts@, k2);
                                    assert(old(self).counts@[j].key == k2);
                                }
                            }
                        }
                    }
                    c - 1
                } else {
                    let last = self.counts.len() - 1;
                    self.counts.swap_remove(i);
                    proof {
                        assert forall|k2: KindedKey| k2 != kk implies self.count_of(k2) == old(
                            self,
                        ).count_of(k2) by {
                            if has_key(old(self).counts@, k2) {
                                let j = key_idx(old(self).counts@, k2);
                                Self::lemma_count_at(old(self).counts@, j, k2);
                                if j == last as int {
                                    assert(j != i as int);
                                    Self::lemma_count_at(self.counts@, i as int, k2);
                                } else if j == i as int {
                                    assert(false);
                                } else {
                                    Self::lemma_count_at(self.counts@, j, k2);
                                }
                            } else {
                                if has_key(self.counts@, k2) {
                                    let j = key_idx(self.counts@, k2);
                                    if j == i as int && i as int != last as int {
                                        assert(old(self).counts@[last as int].key == k2);
                                    } else {
                                        assert(old(self).counts@[j].key == k2);
                                    }
                                }
                            }
                        }
                        if has_key(self.counts@, kk) {
                            let j = key_idx(self.counts@, kk);
                            if j == i as int && i as int != last as int {
                                assert(old(self).counts@[last as int].key == kk);
                                assert(old(self).counts@[i as int].key == kk);
                            } else {
                                assert(old(self).counts@[j].key == kk);
                                Self::lemma_count_at(old(self).counts@, j, kk);
                            }
                        }
                    }
                    0
                }
            },
            None => {
                proof {
                    assert(false);
                }
                0
            },
        }
    }

    /// Take the whole removal queue of one kind, leaving it empty.  Used by
    /// the per-step drain.
    pub fn take_queue(&mut self, kind: ObjectKind) -> (q: Vec<StoreKey>)
        requires
            old(self).wf(),
        ensures
            final(self).wf(),
            q@ == old(self).queue_of(kind),
            final(self).queue_of(kind) == Seq::<StoreKey>::empty(),
            forall|k2: ObjectKind|
                k2 != kind ==> #[trigger] final(self).queue_of(k2) == old(self).queue_of(k2),
            forall|kk: KindedKey| #[trigger] final(self).count_of(kk) == old(self).count_of(kk),
    {
        let mut q: Vec<StoreKey> = Vec::new();
        match kind {
            ObjectKind::World => core::mem::swap(&mut q, &mut self.worlds),
            ObjectKind::RigidBody => core::mem::swap(&mut q, &mut self.bodies),
            ObjectKind::Area => core::mem::swap(&mut q, &mut self.areas),
            ObjectKind::Shape => core::mem::swap(&mut q, &mut self.shapes),
        }
        proof {
            assert forall|i: int|
                0 <= i < self.counts@.len() implies !self.queued(
                (#[trigger] self.counts@[i]).key,
            ) by {
                assert(!old(self).queued(self.counts@[i].key));
            }
        }
        q
    }

    /// Push a removal request for `kk` onto the queue of its kind.
    fn push_removal(&mut self, kk: KindedKey)
        requires
            old(self).wf(),
            old(self).count_of(kk) == 0,
            !old(self).queued(kk),
        ensures
            final(self).wf(),
            final(self).queue_of(kk.kind) == old(self).queue_of(kk.kind).push(kk.key),
            forall|kind: ObjectKind|
                kind != kk.kind ==> #[trigger] final(self).queue_of(kind) == old(self).queue_of(kind),
            forall|k2: KindedKey| final(self).count_of(k2) == old(self).count_of(k2),
    {
        match kk.kind {
            ObjectKind::World => self.worlds.push(kk.key),
            ObjectKind::RigidBody => self.bodies.push(kk.key),
            ObjectKind::Area => self.areas.push(kk.key),
            ObjectKind::Shape => self.shapes.push(kk.key),
        }
        proof {
            assert forall|i: int|
                0 <= i < self.counts@.len() implies !self.queued(
                (#[trigger] self.counts@[i]).key,
            ) by {
                assert(!old(self).queued(self.counts@[i].key));
                if self.counts@[i].key.kind == kk.kind {
                    assert(self.counts@[i].key != kk);
                    let q = old(self).queue_of(kk.kind);
                    assert(self.queue_of(kk.kind) == q.push(kk.key));
                    if self.queued(self.counts@[i].key) {
                        let j = choose|j: int|
                            0 <= j < q.push(kk.key).len() && q.push(kk.key)[j]
                                == self.counts@[i].key.key;
                        assert(q.push(kk.key)[j] == self.counts@[i].key.key);
                        if j < q.len() {
                            assert(q.contains(self.counts@[i].key.key));
                        }
                    }
                }
            }
        }
    }
}

/// One step in the life of a handle: cloning it or dropping a clone.
pub enum HandleOp {
    Duplicate,
    Release,
}

/// Abstract run of a clone/drop history, mirroring the contracts of
/// `PhysicsHandle::duplicate` and `PhysicsHandle::release`: `count` is the
/// reference count kept by the garbage collector and `enqueued` the number of
/// removal requests pushed for the tag.  An operation on a dead handle
/// (count zero) is impossible, so such a history yields `None`.
pub open spec fn handle_history_result(count: nat, enqueued: nat, ops: Seq<HandleOp>) -> Option<
    (nat, nat),
>
    decreases ops.len(),
{
    if ops.len() == 0 {
        Some((count, enqueued))
    } else if count == 0 {
        None
    } else {
        let rest = ops.subrange(1, ops.len() as int);
        match ops[0] {
            HandleOp::Duplicate => handle_history_result((count + 1) as nat, enqueued, rest),
            HandleOp::Release => if count == 1 {
                handle_history_result(0, (enqueued + 1) as nat, rest)
            } else {
                handle_history_result((count - 1) as nat, enqueued, rest)
            },
        }
    }
}

/// For every sequence of handle clones and drops starting from a single
/// fresh handle, the tag is enqueued for removal exactly once if the
/// reference count has reached zero, and not at all otherwise: no
/// double-enqueue and no leak.
pub proof fn lemma_handle_enqueued_exactly_once(count: nat, enqueued: nat, ops: Seq<HandleOp>)
    requires
        enqueued == 0,
        count >= 1,
    ensures
        handle_history_result(count, enqueued, ops) matches Some(r) ==> r.1 == (
        if r.0 == 0 {
            1nat
        } else {
            0nat
        }),
    decreases ops.len(),
{
    if ops.len() == 0 {
    } else {
        let rest = ops.subrange(1, ops.len() as int);
        match ops[0] {
            HandleOp::Duplicate => {
                lemma_handle_enqueued_exactly_once((count + 1) as nat, enqueued, rest);
            },
            HandleOp::Release => {
                if count == 1 {
                    lemma_handle_history_stays_done(0, (enqueued + 1) as nat, rest);
                } else {
                    lemma_handle_enqueued_exactly_once((count - 1) as nat, enqueued, rest);
                }
            },
        }
    }
}

/// Once the count has reached zero no further operation is possible, so the
/// single removal request stays the only one.
proof fn lemma_handle_history_stays_done(count: nat, enqueued: nat, ops: Seq<HandleOp>)
    requires
        count == 0,
    ensures
        handle_history_result(count, enqueued, ops) matches Some(r) ==> r == (count, enqueued),
    decreases ops.len(),
{
}

impl PhysicsGarbageCollector {
    /// A removal queue never holds the same key twice.
    pub proof fn lemma_queue_holds_key_once(self, kind: ObjectKind, i: int, j: int)
        requires
            self.wf(),
            0 <= i < j < self.queue_of(kind).len(),
        ensures
            self.queue_of(kind)[i] != self.queue_of(kind)[j],
    {
    }
}

/// A tag type that the garbage collector can track: it knows its kinded key
/// and how to register a deferred removal request for itself.
pub trait PhysicsTag: Sized + Copy {
    spec fn kinded_spec(self) -> KindedKey;

    fn kinded(self) -> (kk: KindedKey)
        ensures
            kk == self.kinded_spec(),
    ;

    fn request_resource_removal(&self, gc: &mut PhysicsGarbageCollector)
        requires
            old(gc).wf(),
            old(gc).count_of(self.kinded_spec()) == 0,
            !old(gc).queued(self.kinded_spec()),
        ensures
            final(gc).wf(),
            final(gc).queue_of(self.kinded_spec().kind) == old(gc).queue_of(
                self.kinded_spec().kind,
            ).push(self.kinded_spec().key),
            forall|kind: ObjectKind|
                kind != self.kinded_spec().kind ==> #[trigger] final(gc).queue_of(kind) == old(
                    gc,
                ).queue_of(kind),
            forall|k2: KindedKey| final(gc).count_of(k2) == old(gc).count_of(k2),
    ;
}

impl PhysicsTag for PhysicsWorldTag {
    open spec fn kinded_spec(self) -> KindedKey {
        KindedKey { kind: ObjectKind::World, key: self.0 }
    }

    fn kinded(self) -> KindedKey {
        KindedKey { kind: ObjectKind::World, key: self.0 }
    }

    fn request_resource_removal(&self, gc: &mut PhysicsGarbageCollector) {
        gc.push_removal(self.kinded());
    }
}

impl PhysicsTag for PhysicsRigidBodyTag {
    open spec fn kinded_spec(self) -> KindedKey {
        KindedKey { kind: ObjectKind::RigidBody, key: self.0 }
    }

    fn kinded(self) -> KindedKey {
        KindedKey { kind: ObjectKind::RigidBody, key: self.0 }
    }

    fn request_resource_removal(&self, gc: &mut PhysicsGarbageCollector) {
        gc.push_removal(self.kinded());
    }
}

impl PhysicsTag for PhysicsAreaTag {
    open spec fn kinded_spec(self) -> KindedKey {
        KindedKey { kind: ObjectKind::Area, key: self.0 }
    }

    fn kinded(self) -> KindedKey {
        KindedKey { kind: ObjectKind::Area, key: self.0 }
    }

    fn request_resource_removal(&self, gc: &mut PhysicsGarbageCollector) {
        gc.push_removal(self.kinded());
    }
}

impl PhysicsTag for PhysicsShapeTag {
    open spec fn kinded_spec(self) -> KindedKey {
        KindedKey { kind: ObjectKind::Shape, key: self.0 }
    }

    fn kinded(self) -> KindedKey {
        KindedKey { kind: ObjectKind::Shape, key: self.0 }
    }

    fn request_resource_removal(&self, gc: &mut PhysicsGarbageCollector) {
        gc.push_removal(self.kinded());
    }
}

/// Shared-ownership wrapper around a tag.  While at least one handle for a
/// tag exists, the garbage collector keeps a positive reference count for it
/// and the resource is not reclaimed; releasing the last handle enqueues
/// exactly one removal request.
#[derive(Debug)]
pub struct PhysicsHandle<T> {
    tag: T,
}

impl<T: PhysicsTag> PhysicsHandle<T> {
    pub closed spec fn tag_spec(self) -> T {
        self.tag
    }

    /// Wrap a freshly issued tag, starting its reference count at one.
    pub fn new(tag: T, gc: &mut PhysicsGarbageCollector) -> (h: PhysicsHandle<T>)
        requires
            old(gc).wf(),
            old(gc).count_of(tag.kinded_spec()) == 0,
            !old(gc).queued(tag.kinded_spec()),
        ensures
            final(gc).wf(),
            h.tag_spec() == tag,
            final(gc).count_of(tag.kinded_spec()) == 1,
            forall|k2: KindedKey|
                k2 != tag.kinded_spec() ==> final(gc).count_of(k2) == old(gc).count_of(k2),
            forall|kind: ObjectKind| #[trigger] final(gc).queue_of(kind) == old(gc).queue_of(kind),
    {
        gc.register(tag.kinded());
        PhysicsHandle { tag }
    }

    /// The wrapped tag.  Reading it does not extend the resource's lifetime.
    pub fn get(&self) -> (t: T)
        ensures
            t == self.tag_spec(),
    {
        self.tag
    }

    /// Clone the handle, adding one to the reference count.
    pub fn duplicate(&self, gc: &mut PhysicsGarbageCollector) -> (h: PhysicsHandle<T>)
        requires
            old(gc).wf(),
            1 <= old(gc).count_of(self.tag_spec().kinded_spec()) < u64::MAX,
        ensures
            final(gc).wf(),
            h.tag_spec() == self.tag_spec(),
            final(gc).count_of(self.tag_spec().kinded_spec()) == old(gc).count_of(
                self.tag_spec().kinded_spec(),
            ) + 1,
            forall|k2: KindedKey|
                k2 != self.tag_spec().kinded_spec() ==> final(gc).count_of(k2) == old(gc).count_of(
                    k2,
                ),
            forall|kind: ObjectKind| #[trigger] final(gc).queue_of(kind) == old(gc).queue_of(kind),
    {
        gc.retain(self.tag.kinded());
        PhysicsHandle { tag: self.tag }
    }

    /// Drop the handle.  The reference count goes down by one; if this was
    /// the last handle, the tag is enqueued for removal — that is the only
    /// side effect, no storage is touched here.
    pub fn release(self, gc: &mut PhysicsGarbageCollector)
        requires
            old(gc).wf(),
            old(gc).count_of(self.tag_spec().kinded_spec()) >= 1,
        ensures
            final(gc).wf(),
            final(gc).count_of(self.tag_spec().kinded_spec()) == old(gc).count_of(
                self.tag_spec().kinded_spec(),
            ) - 1,
            forall|k2: KindedKey|
                k2 != self.tag_spec().kinded_spec() ==> final(gc).count_of(k2) == old(gc).count_of(
                    k2,
                ),
            old(gc).count_of(self.tag_spec().kinded_spec()) > 1 ==> forall|kind: ObjectKind|
                #[trigger] final(gc).queue_of(kind) == old(gc).queue_of(kind),
            old(gc).count_of(self.tag_spec().kinded_spec()) == 1 ==> {
                &&& final(gc).queue_of(self.tag_spec().kinded_spec().kind) == old(gc).queue_of(
                    self.tag_spec().kinded_spec().kind,
                ).push(self.tag_spec().kinded_spec().key)
                &&& forall|kind: ObjectKind|
                    kind != self.tag_spec().kinded_spec().kind ==> #[trigger] final(gc).queue_of(
                        kind,
                    ) == old(gc).queue_of(kind)
            },
    {
        let kk = self.tag.kinded();
        let left = gc.release_count(kk);
        if left == 0 {
            self.tag.request_resource_removal(gc);
        }
    }
}

} // verus!
