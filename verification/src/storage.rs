//! Generational-arena storage for physics resources.
//!
//! A `Storage<T>` hands out opaque `StoreKey`s.  A key stays valid until the
//! entry it names is removed; after that every lookup with the stale key
//! fails, and the key is never issued again (the slot's generation counter is
//! bumped, and a slot whose counter would wrap is retired instead of reused).

use vstd::prelude::*;
use vstd::pervasive::VecAdditionalExecFns;

verus! {

/// Opaque identifier of a slot in a `Storage`: the slot index paired with the
/// generation the slot had when the entry was inserted.
#[derive(Copy, Clone, Debug, PartialEq, Eq, Hash, Structural)]
pub struct StoreKey {
    pub index: usize,
    pub generation: u64,
}

struct Slot<T> {
    generation: u64,
    value: Option<T>,
}

/// Growable generational arena owning values of type `T`.
pub struct Storage<T> {
    slots: Vec<Slot<T>>,
    free: Vec<usize>,
    growing_size: usize,
}

impl<T> Storage<T> {
    /// The live entries: a key maps to a value exactly when the slot it names
    /// is occupied and still carries the key's generation.
    pub closed spec fn view_map(self) -> Map<StoreKey, T> {
        Map::new(
            |k: StoreKey| self.key_live(k),
            |k: StoreKey| self.slots@[k.index as int].value->0,
        )
    }

    pub closed spec fn key_live(self, k: StoreKey) -> bool {
        &&& k.index < self.slots@.len()
        &&& self.slots@[k.index as int].generation == k.generation
        &&& self.slots@[k.index as int].value is Some
    }

    /// Every key this storage has ever returned from `insert`.  A fresh key is
    /// never in this set, so issued keys are never reissued.
    pub closed spec fn issued(self) -> Set<StoreKey> {
        Set::new(
            |k: StoreKey| {
                &&& k.index < self.slots@.len()
                &&& {
                    ||| k.generation < self.slots@[k.index as int].generation
                    ||| (k.generation == self.slots@[k.index as int].generation
                        && self.slots@[k.index as int].value is Some)
                }
            },
        )
    }

    pub closed spec fn wf(self) -> bool {
        &&& forall|j: int|
            0 <= j < self.free@.len() ==> {
                &&& (#[trigger] self.free@[j]) < self.slots@.len()
                &&& self.slots@[self.free@[j] as int].value is None
                &&& self.slots@[self.free@[j] as int].generation < u64::MAX
            }
        &&& forall|j1: int, j2: int|
            0 <= j1 < j2 < self.free@.len()
                ==> #[trigger] self.free@[j1] != #[trigger] self.free@[j2]
        &&& forall|i: int|
            0 <= i < self.slots@.len() && (#[trigger] self.slots@[i].value) is Some
                ==> self.slots@[i].generation < u64::MAX
    }

    pub proof fn lemma_live_is_issued(self, k: StoreKey)
        ensures
            self.view_map().dom().contains(k) ==> self.issued().contains(k),
    {
    }

    /// Create a storage.  `growing_size` is the increment by which the backing
    /// memory grows when the arena runs out of room.
    pub fn new(initial_capacity: usize, growing_size: usize) -> (s: Storage<T>)
        ensures
            s.wf(),
            s.view_map() == Map::<StoreKey, T>::empty(),
            s.issued() == Set::<StoreKey>::empty(),
    {
        let s = Storage::<T> {
            slots: Vec::with_capacity(initial_capacity),
            free: Vec::new(),
            growing_size,
        };
        proof {
            assert(s.view_map() =~= Map::<StoreKey, T>::empty());
            assert(s.issued() =~= Set::<StoreKey>::empty());
        }
        s
    }

    /// Take ownership of `object` and return a fresh key for it.
    pub fn insert(&mut self, object: T) -> (k: StoreKey)
        requires
            old(self).wf(),
        ensures
            final(self).wf(),
            !old(self).issued().contains(k),
            final(self).issued() == old(self).issued().insert(k),
            final(self).view_map() == old(self).view_map().insert(k, object),
            !old(self).view_map().dom().contains(k),
    {
        match self.free.pop() {
            Some(index) => {
                let generation = self.slots[index].generation;
                let k = StoreKey { index, generation };
                self.slots.set(index, Slot { generation, value: Some(object) });
                proof {
                    assert(self.issued() =~= old(self).issued().insert(k));
                    assert(self.view_map() =~= old(self).view_map().insert(k, object));
                }
                k
            },
            None => {
                self.slots.reserve(self.growing_size);
                let index = self.slots.len();
                let k = StoreKey { index, generation: 0 };
                self.slots.push(Slot { generation: 0, value: Some(object) });
                proof {
                    assert(self.issued() =~= old(self).issued().insert(k));
                    assert(self.view_map() =~= old(self).view_map().insert(k, object));
                }
                k
            },
        }
    }

    /// Does `key` name a live entry?
    pub fn has(&self, key: StoreKey) -> (r: bool)
        ensures
            r == self.view_map().dom().contains(key),
    {
        key.index < self.slots.len() && self.slots[key.index].generation == key.generation
            && self.slots[key.index].value.is_some()
    }

    pub fn get(&self, key: StoreKey) -> (r: Option<&T>)
        ensures
            match r {
                Some(v) => self.view_map().dom().contains(key) && *v == self.view_map()[key],
                None => !self.view_map().dom().contains(key),
            },
    {
        if key.index < self.slots.len() && self.slots[key.index].generation == key.generation {
            self.slots[key.index].value.as_ref()
        } else {
            None
        }
    }

    pub fn get_mut(&mut self, key: StoreKey) -> (r: Option<&mut T>)
        requires
            old(self).wf(),
        ensures
            final(self).wf(),
            final(self).issued() == old(self).issued(),
            match r {
                Some(v) => {
                    &&& old(self).view_map().dom().contains(key)
                    &&& *v == old(self).view_map()[key]
                    &&& final(self).view_map() == old(self).view_map().insert(key, *final(v))
                },
                None => {
                    &&& !old(self).view_map().dom().contains(key)
                    &&& *final(self) == *old(self)
                },
            },
    {
        if key.index < self.slots.len() && self.slots[key.index].generation == key.generation
            && self.slots[key.index].value.is_some() {
            let slot = &mut self.slots[key.index];
            match &mut slot.value {
                Some(v) => Some(v),
                None => None,
            }
        } else {
            None
        }
    }

    /// The keys of all live entries, each exactly once.
    pub fn keys(&self) -> (ks: Vec<StoreKey>)
        ensures
            forall|i: int|
                0 <= i < ks@.len() ==> self.view_map().dom().contains(#[trigger] ks@[i]),
            forall|k: StoreKey| #[trigger] self.view_map().dom().contains(k) ==> ks@.contains(k),
            forall|i: int, j: int| 0 <= i < j < ks@.len() ==> ks@[i] != ks@[j],
    {
        let mut ks: Vec<StoreKey> = Vec::new();
        let mut i: usize = 0;
        while i < self.slots.len()
            invariant
                i <= self.slots@.len(),
                forall|j: int|
                    0 <= j < ks@.len() ==> self.view_map().dom().contains(#[trigger] ks@[j]),
                forall|j: int| 0 <= j < ks@.len() ==> (#[trigger] ks@[j]).index < i,
                forall|k: StoreKey|
                    #[trigger] self.view_map().dom().contains(k) && k.index < i ==> ks@.contains(
                        k,
                    ),
                forall|j1: int, j2: int| 0 <= j1 < j2 < ks@.len() ==> ks@[j1] != ks@[j2],
            decreases self.slots@.len() - i,
        {
            if self.slots[i].value.is_some() {
                let k = StoreKey { index: i, generation: self.slots[i].generation };
                let ghost prev = ks@;
                ks.push(k);
                proof {
                    assert forall|k2: StoreKey|
                        #[trigger] self.view_map().dom().contains(k2) && k2.index < i + 1 implies
                        ks@.contains(k2) by {
                        if k2.index < i {
                            assert(prev.contains(k2));
                            let j = choose|j: int| 0 <= j < prev.len() && prev[j] == k2;
                            assert(ks@[j] == k2);
                        } else {
                            assert(k2 == k);
                            assert(ks@[ks@.len() - 1] == k2);
                        }
                    }
                }
            }
            i = i + 1;
        }
        ks
    }

    /// Remove the entry named by `key`, invalidating the key permanently.
    /// Returns the removed value, or `None` if the key was already dead.
    pub fn remove(&mut self, key: StoreKey) -> (r: Option<T>)
        requires
            old(self).wf(),
        ensures
            final(self).wf(),
            final(self).issued() == old(self).issued(),
            old(self).view_map().dom().contains(key) ==> {
                &&& r == Some(old(self).view_map()[key])
                &&& final(self).view_map() == old(self).view_map().remove(key)
            },
            !old(self).view_map().dom().contains(key) ==> {
                &&& r is None
                &&& *final(self) == *old(self)
            },
    {
        if key.index < self.slots.len() && self.slots[key.index].generation == key.generation
            && self.slots[key.index].value.is_some() {
            let slot = &mut self.slots[key.index];
            let taken = slot.value.take();
            slot.generation = slot.generation + 1;
            let new_generation = slot.generation;
            if new_generation < u64::MAX {
                self.free.push(key.index);
            }
            proof {
                assert(self.view_map() =~= old(self).view_map().remove(key));
                assert(self.issued() =~= old(self).issued());
            }
            taken
        } else {
            None
        }
    }
}

} // verus!
