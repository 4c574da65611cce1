//! The object-model state this subsystem reads.
//!
//! The surrounding virtual machine owns the full object model; the caches
//! only read an object's current shape identity, its local storage slots,
//! its bound methods, and its own dynamic-property cache. Those are carried
//! here as plain data.

use vstd::prelude::*;

use crate::local_prop_cache::{spec_lookup, LocalPropertyCache};
use crate::value::{DynamicKey, Value};

verus! {

/// The per-object state the fast path dispatches over.
#[derive(Debug, Clone)]
pub struct ObjectData {
    /// The identity of the object's current shape, if the object has been
    /// classified.
    pub shape_id: Option<usize>,
    /// Local storage: the slot array that `Slot` and `ConstSlot` descriptors
    /// index into.
    pub slots: Vec<Value>,
    /// Bound class methods by dispatch id; an absent entry means the method
    /// has no bound form.
    pub bound_methods: Vec<Option<Value>>,
    /// The object's own cache of dynamic properties, which no shape
    /// describes.
    pub local_cache: LocalPropertyCache,
}

/// The bound method an object exposes under `disp_id`, if any.
pub open spec fn spec_bound_method(o: ObjectData, disp_id: u32) -> Option<Value> {
    if disp_id < o.bound_methods@.len() {
        o.bound_methods@[disp_id as int]
    } else {
        None
    }
}

impl ObjectData {
    /// A fresh object with `num_slots` local storage slots, all `Null`, no
    /// bound methods, and an empty dynamic-property cache.
    pub fn new(shape_id: Option<usize>, num_slots: usize) -> (r: ObjectData)
        ensures
            r.shape_id == shape_id,
            r.slots@.len() == num_slots,
            forall|i: int| 0 <= i < num_slots ==> r.slots@[i] == Value::Null,
            r.bound_methods@.len() == 0,
            r.local_cache.wf(),
            forall|key: DynamicKey| spec_lookup(r.local_cache, key) is None,
    {
        let mut slots: Vec<Value> = Vec::new();
        let mut i: usize = 0;
        while i < num_slots
            invariant
                i <= num_slots,
                slots@.len() == i,
                forall|k: int| 0 <= k < i ==> slots@[k] == Value::Null,
            decreases num_slots - i,
        {
            slots.push(Value::Null);
            i = i + 1;
        }
        ObjectData {
            shape_id,
            slots,
            bound_methods: Vec::new(),
            local_cache: LocalPropertyCache::new(),
        }
    }

    /// Reads local storage at `slot_id`.
    pub fn get_slot(&self, slot_id: u32) -> (v: Value)
        requires
            (slot_id as int) < self.slots@.len(),
        ensures
            v == self.slots@[slot_id as int],
    {
        self.slots[slot_id as usize]
    }

    /// Writes local storage at `slot_id`.
    pub fn set_slot(&mut self, slot_id: u32, value: Value)
        requires
            (slot_id as int) < old(self).slots@.len(),
        ensures
            final(self).slots@ == old(self).slots@.update(slot_id as int, value),
            final(self).shape_id == old(self).shape_id,
            final(self).bound_methods == old(self).bound_methods,
            final(self).local_cache == old(self).local_cache,
    {
        self.slots[slot_id as usize] = value;
    }

    /// The bound method under `disp_id`, if the object has one.
    pub fn get_bound_method(&self, disp_id: u32) -> (r: Option<Value>)
        ensures
            r == spec_bound_method(*self, disp_id),
    {
        if (disp_id as usize) < self.bound_methods.len() {
            self.bound_methods[disp_id as usize]
        } else {
            None
        }
    }
}

/// Dynamic properties are per object: a dynamic lookup reads the looked-up
/// object's own cache and nothing else, so two objects sharing a shape
/// identity never observe each other's dynamic properties. In particular, a
/// key one of them holds stays invisible to the other.
pub proof fn lemma_dynamic_key_independence(a: ObjectData, b: ObjectData, key: DynamicKey, v: Value)
    requires
        a.shape_id == b.shape_id,
        spec_lookup(a.local_cache, key) == Some(v),
        spec_lookup(b.local_cache, key) is None,
    ensures
        spec_lookup(a.local_cache, key) == Some(v),
        spec_lookup(b.local_cache, key) != spec_lookup(a.local_cache, key),
{
}

} // verus!
