//! Plain-value model of the entity-component-system side of the adapter.
//!
//! The host ECS hands the synchronization systems three things: entity
//! indices, per-component tables, and change-event streams.  They are modeled
//! here as ordinary values so the systems' behaviour can be verified; the
//! adapter around the library converts the host's storages into these.

use vstd::prelude::*;

verus! {

/// Identifier of an ECS entity: its index in the component tables.
#[derive(Copy, Clone, Debug, PartialEq, Eq, Hash, Structural)]
pub struct Entity(pub u32);

/// A change notification from a component store.
#[derive(Copy, Clone, Debug, PartialEq, Eq, Structural)]
pub enum ComponentEvent {
    Inserted(u32),
    Modified(u32),
    Removed(u32),
}

impl ComponentEvent {
    /// The entity index the event is about.
    pub open spec fn index_spec(self) -> u32 {
        match self {
            ComponentEvent::Inserted(i) => i,
            ComponentEvent::Modified(i) => i,
            ComponentEvent::Removed(i) => i,
        }
    }

    pub fn index(self) -> (i: u32)
        ensures
            i == self.index_spec(),
    {
        match self {
            ComponentEvent::Inserted(i) => i,
            ComponentEvent::Modified(i) => i,
            ComponentEvent::Removed(i) => i,
        }
    }
}

/// A component store indexed by entity index.
pub struct ComponentTable<T> {
    entries: Vec<Option<T>>,
}

impl<T> ComponentTable<T> {
    /// The component attached to entity `i`, if any.
    pub closed spec fn at(self, i: int) -> Option<T> {
        if 0 <= i < self.entries@.len() {
            self.entries@[i]
        } else {
            None
        }
    }

    pub closed spec fn table_len(self) -> nat {
        self.entries@.len()
    }

    /// The table never grows past the entity index range.
    pub closed spec fn wf(self) -> bool {
        self.entries@.len() <= 0x1_0000_0000
    }

    pub fn new() -> (t: ComponentTable<T>)
        ensures
            t.wf(),
            forall|i: int| #[trigger] t.at(i) is None,
            t.table_len() == 0,
    {
        ComponentTable { entries: Vec::new() }
    }

    pub fn len(&self) -> (n: usize)
        ensures
            n == self.table_len(),
            self.wf() ==> n <= 0x1_0000_0000,
            forall|i: int| i >= n ==> #[trigger] self.at(i) is None,
            forall|i: int| i < 0 ==> #[trigger] self.at(i) is None,
    {
        self.entries.len()
    }

    pub fn get(&self, index: u32) -> (r: Option<&T>)
        ensures
            match r {
                Some(v) => self.at(index as int) == Some(*v),
                None => self.at(index as int) is None,
            },
    {
        if (index as usize) < self.entries.len() {
            self.entries[index as usize].as_ref()
        } else {
            None
        }
    }

    /// Attach component `value` to entity `index`, growing the table as
    /// needed.
    pub fn insert(&mut self, index: u32, value: T)
        requires
            old(self).wf(),
        ensures
            final(self).wf(),
            final(self).at(index as int) == Some(value),
            forall|j: int| j != index as int ==> #[trigger] final(self).at(j) == old(self).at(j),
    {
        while self.entries.len() <= index as usize
            invariant
                self.entries@.len() <= 0x1_0000_0000,
                old(self).table_len() <= self.entries@.len(),
                forall|j: int|
                    0 <= j < old(self).table_len() ==> #[trigger] self.entries@[j] == old(
                        self,
                    ).entries@[j],
                forall|j: int|
                    old(self).table_len() <= j < self.entries@.len() ==> #[trigger] self.entries@[j] is None,
            decreases index as int + 1 - self.entries@.len(),
        {
            self.entries.push(None);
        }
        self.entries.set(index as usize, Some(value));
    }

    /// Detach the component of entity `index`, if any.
    pub fn remove(&mut self, index: u32)
        ensures
            final(self).wf() == old(self).wf(),
            final(self).at(index as int) is None,
            forall|j: int| j != index as int ==> #[trigger] final(self).at(j) == old(self).at(j),
    {
        if (index as usize) < self.entries.len() {
            self.entries.set(index as usize, None);
        }
    }
}

/// The dirty set of one synchronization pass: entity indices whose components
/// changed since the last pass, gathered from the change-event streams.
pub struct DirtySet {
    bits: Vec<bool>,
}

impl DirtySet {
    pub closed spec fn has(self, i: int) -> bool {
        0 <= i < self.bits@.len() && self.bits@[i]
    }

    /// The set never grows past the entity index range.
    pub closed spec fn wf(self) -> bool {
        self.bits@.len() <= 0x1_0000_0000
    }

    pub fn new() -> (s: DirtySet)
        ensures
            s.wf(),
            forall|i: int| !(#[trigger] s.has(i)),
    {
        DirtySet { bits: Vec::new() }
    }

    pub fn add(&mut self, index: u32)
        requires
            old(self).wf(),
        ensures
            final(self).wf(),
            final(self).has(index as int),
            forall|j: int| j != index as int ==> #[trigger] final(self).has(j) == old(self).has(j),
    {
        while self.bits.len() <= index as usize
            invariant
                self.bits@.len() <= 0x1_0000_0000,
                old(self).bits@.len() <= self.bits@.len(),
                forall|j: int|
                    0 <= j < old(self).bits@.len() ==> #[trigger] self.bits@[j] == old(
                        self,
                    ).bits@[j],
                forall|j: int|
                    old(self).bits@.len() <= j < self.bits@.len() ==> #[trigger] self.bits@[j]
                        == false,
            decreases index as int + 1 - self.bits@.len(),
        {
            self.bits.push(false);
        }
        self.bits.set(index as usize, true);
    }

    pub fn contains(&self, index: u32) -> (r: bool)
        ensures
            r == self.has(index as int),
    {
        (index as usize) < self.bits.len() && self.bits[index as usize]
    }

    pub fn len_bound(&self) -> (n: usize)
        requires
            self.wf(),
        ensures
            n <= 0x1_0000_0000,
            forall|i: int| #[trigger] self.has(i) ==> i < n,
    {
        self.bits.len()
    }
}

/// The dirty set produced by a list of change events: the union of the
/// indices of all events.
pub open spec fn dirty_of_events(events: Seq<ComponentEvent>, i: int) -> bool {
    exists|j: int| 0 <= j < events.len() && (#[trigger] events[j]).index_spec() == i
}

/// Gather every event's index into a dirty set.
pub fn gather_dirty(dirty: &mut DirtySet, events: &Vec<ComponentEvent>)
    requires
        old(dirty).wf(),
    ensures
        final(dirty).wf(),
        forall|i: int|
            #[trigger] final(dirty).has(i) <==> (old(dirty).has(i) || dirty_of_events(events@, i)),
{
    let mut k: usize = 0;
    while k < events.len()
        invariant
            k <= events@.len(),
            dirty.wf(),
            forall|i: int|
                #[trigger] dirty.has(i) <==> (old(dirty).has(i) || exists|j: int|
                    0 <= j < k && (#[trigger] events@[j]).index_spec() == i),
        decreases events@.len() - k,
    {
        dirty.add(events[k].index());
        k = k + 1;
    }
}

} // verus!
