//! Resource tables: values stored under handles that the slot allocator issues.

use crate::slots::{slot_keys, slots_insert, slots_new, slots_remove, SlotAllocator, SLOT_LIMIT};
use std::collections::HashMap;
use vstd::std_specs::iter::IteratorSpec;
use vstd::prelude::*;

verus! {

broadcast use vstd::std_specs::hash::group_hash_axioms;

/// A table of values addressed by generational handles.
///
/// A handle is live from the `insert` that returned it until it is removed.
/// The table is viewed as the map from live handles to their values.
pub struct ResourceTable<V> {
    slots: SlotAllocator,
    values: HashMap<u64, V>,
}

impl<V> View for ResourceTable<V> {
    type V = Map<u64, V>;

    closed spec fn view(&self) -> Map<u64, V> {
        self.values@
    }
}

impl<V> ResourceTable<V> {
    /// The handles that carry a value are exactly those the allocator holds live.
    pub closed spec fn wf(&self) -> bool {
        self.values@.dom() =~= slot_keys(self.slots)
    }

    /// A well-formed table holds finitely many values.
    pub proof fn lemma_finite(self)
        ensures
            self@.dom().finite(),
    {
    }

    /// A table with no live handle.
    pub fn new() -> (table: Self)
        ensures
            table.wf(),
            table@ == Map::<u64, V>::empty(),
    {
        ResourceTable { slots: slots_new(), values: HashMap::new() }
    }

    /// The number of live handles.
    pub fn len(&self) -> (n: usize)
        ensures
            n == self@.len(),
    {
        self.values.len()
    }

    /// Whether the table has reached the allocator's limit.
    pub fn is_full(&self) -> (full: bool)
        ensures
            full == (self@.len() >= SLOT_LIMIT),
    {
        self.values.len() >= SLOT_LIMIT
    }

    /// Stores `value` under a handle that was not live before.
    pub fn insert(&mut self, value: V) -> (handle: u64)
        requires
            old(self).wf(),
            old(self)@.len() < SLOT_LIMIT,
        ensures
            final(self).wf(),
            !old(self)@.contains_key(handle),
            final(self)@ == old(self)@.insert(handle, value),
    {
        let handle = slots_insert(&mut self.slots);
        self.values.insert(handle, value);
        handle
    }

    /// Whether `handle` is live.
    pub fn contains(&self, handle: u64) -> (live: bool)
        ensures
            live == self@.contains_key(handle),
    {
        self.values.contains_key(&handle)
    }

    /// The value stored under `handle`, if it is live.
    pub fn get(&self, handle: u64) -> (value: Option<&V>)
        ensures
            match value {
                Some(v) => self@.contains_key(handle) && *v == self@[handle],
                None => !self@.contains_key(handle),
            },
    {
        self.values.get(&handle)
    }

    /// Retires `handle` and hands back its value. A handle that is not live
    /// leaves the table as it is.
    pub fn remove(&mut self, handle: u64) -> (value: Option<V>)
        requires
            old(self).wf(),
        ensures
            final(self).wf(),
            final(self)@ == old(self)@.remove(handle),
            match value {
                Some(v) => old(self)@.contains_key(handle) && v == old(self)@[handle],
                None => !old(self)@.contains_key(handle),
            },
    {
        if self.values.contains_key(&handle) {
            slots_remove(&mut self.slots, handle);
            self.values.remove(&handle)
        } else {
            assert(self@.remove(handle) =~= self@);
            None
        }
    }

    /// Stores `value` under a live handle and hands back the value it
    /// replaces. A handle that is not live leaves the table as it is, and
    /// `value` comes back.
    pub fn replace(&mut self, handle: u64, value: V) -> (previous: Result<V, V>)
        requires
            old(self).wf(),
        ensures
            final(self).wf(),
            match previous {
                Ok(v) => old(self)@.contains_key(handle) && v == old(self)@[handle] && final(self)@
                    == old(self)@.insert(handle, value),
                Err(v) => !old(self)@.contains_key(handle) && v == value && final(self)@ == old(
                    self,
                )@,
            },
    {
        if self.values.contains_key(&handle) {
            let previous = self.values.insert(handle, value);
            assert(self.values@.dom() =~= old(self).values@.dom());
            Ok(previous.unwrap())
        } else {
            Err(value)
        }
    }

    /// The live handles, each once, in no particular order.
    pub fn handles(&self) -> (handles: Vec<u64>)
        ensures
            handles@.no_duplicates(),
            handles@.to_set() == self@.dom(),
    {
        let mut handles: Vec<u64> = Vec::new();
        let keys = self.values.keys();
        assert(keys.remaining().unref().to_set() == self.values@.dom());
        assert(keys.remaining().no_duplicates());
        let ghost all = keys.remaining().unref();
        for key in it: keys
            invariant
                it.seq().unref() == all,
                handles@ == all.take(it.index() as int),
        {
            handles.push(*key);
            assert(all.take(it.index() as int).push(all[it.index() as int]) =~= all.take(
                it.index() + 1,
            ));
        }
        assert(all.take(all.len() as int) =~= all);
        handles
    }
}

} // verus!
