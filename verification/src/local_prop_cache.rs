//! The per-object cache of dynamic properties.
//!
//! Dynamic properties are added to a single object at runtime, outside any
//! declared shape, so they cannot be keyed by shape identity: each object
//! owns one fixed-capacity, key-addressed cache of them instead.

use vstd::prelude::*;

use crate::value::{DynamicKey, Value};

verus! {

/// Capacity of a per-object dynamic-property cache.
pub const LOCAL_PROP_CACHE_SIZE: usize = 8;

/// A fixed-capacity array of `(key, value)` pairs plus an occupancy count.
///
/// Occupied entries are contiguous in `[0, cache_size)` and their keys are
/// pairwise distinct. Deletion compacts by swapping the removed entry with
/// the last occupied one; once the cache is full, insertion of a new key
/// evicts in ring (FIFO) order at `next_slot`.
#[derive(Debug, Clone)]
pub struct LocalPropertyCache {
    /// The backing array; only `[0, cache_size)` is occupied.
    pub cache: Vec<(DynamicKey, Value)>,
    /// Number of occupied entries.
    pub cache_size: usize,
    /// The next slot to evict, used once the cache is full.
    pub next_slot: usize,
}

/// The value stored under the first occurrence of `key` at or after `i`
/// among the `size` occupied entries, if any.
pub open spec fn spec_lookup_at(
    entries: Seq<(DynamicKey, Value)>,
    size: int,
    key: DynamicKey,
    i: int,
) -> Option<Value>
    decreases size - i,
{
    if i < 0 || i >= size {
        None
    } else if entries[i].0 == key {
        Some(entries[i].1)
    } else {
        spec_lookup_at(entries, size, key, i + 1)
    }
}

/// What a lookup of `key` in the cache returns.
pub open spec fn spec_lookup(c: LocalPropertyCache, key: DynamicKey) -> Option<Value> {
    spec_lookup_at(c.cache@, c.cache_size as int, key, 0)
}

/// A search that already passed over `i` entries with other keys finds the
/// same value as one started at the beginning.
pub proof fn lemma_lookup_skip(entries: Seq<(DynamicKey, Value)>, size: int, key: DynamicKey, i: int)
    requires
        0 <= i <= size,
        forall|k: int| 0 <= k < i ==> entries[k].0 != key,
    ensures
        spec_lookup_at(entries, size, key, 0) == spec_lookup_at(entries, size, key, i),
    decreases i,
{
    if i > 0 {
        lemma_lookup_skip(entries, size, key, i - 1);
    }
}

/// With no occupied entry under `key`, a lookup misses.
pub proof fn lemma_lookup_none(entries: Seq<(DynamicKey, Value)>, size: int, key: DynamicKey)
    requires
        size <= entries.len(),
        forall|k: int| 0 <= k < size ==> entries[k].0 != key,
    ensures
        spec_lookup_at(entries, size, key, 0) is None,
{
    if size >= 0 {
        lemma_lookup_skip(entries, size, key, size);
    }
}

/// With exactly one occupied entry under `key`, a lookup returns its value.
pub proof fn lemma_lookup_witness(
    entries: Seq<(DynamicKey, Value)>,
    size: int,
    key: DynamicKey,
    j: int,
)
    requires
        0 <= j < size <= entries.len(),
        entries[j].0 == key,
        forall|k: int| 0 <= k < size && k != j ==> entries[k].0 != key,
    ensures
        spec_lookup_at(entries, size, key, 0) == Some(entries[j].1),
{
    lemma_lookup_skip(entries, size, key, j);
}

impl LocalPropertyCache {
    /// The cache invariant: the backing array has the fixed capacity, the
    /// occupancy count and the eviction pointer are in range, and occupied
    /// entries carry pairwise distinct keys.
    pub open spec fn wf(&self) -> bool {
        &&& self.cache@.len() == LOCAL_PROP_CACHE_SIZE
        &&& self.cache_size <= LOCAL_PROP_CACHE_SIZE
        &&& self.next_slot < LOCAL_PROP_CACHE_SIZE
        &&& forall|i: int, j: int|
            0 <= i < j < self.cache_size ==> self.cache@[i].0 != self.cache@[j].0
    }

    /// An empty cache.
    pub fn new() -> (r: LocalPropertyCache)
        ensures
            r.wf(),
            r.cache_size == 0,
            r.next_slot == 0,
            forall|key: DynamicKey| spec_lookup(r, key) is None,
    {
        let mut cache: Vec<(DynamicKey, Value)> = Vec::new();
        let mut i: usize = 0;
        while i < LOCAL_PROP_CACHE_SIZE
            invariant
                i <= LOCAL_PROP_CACHE_SIZE,
                cache@.len() == i,
            decreases LOCAL_PROP_CACHE_SIZE - i,
        {
            cache.push((DynamicKey::Uint(0), Value::Null));
            i = i + 1;
        }
        LocalPropertyCache { cache, cache_size: 0, next_slot: 0 }
    }

    /// The index of the occupied entry under `key`, if any.
    fn lookup_index(&self, key: DynamicKey) -> (r: Option<usize>)
        requires
            self.cache_size <= self.cache@.len(),
        ensures
            match r {
                Some(i) => i < self.cache_size && self.cache@[i as int].0 == key
                    && spec_lookup(*self, key) == Some(self.cache@[i as int].1) && (forall|k: int|
                    0 <= k < i ==> self.cache@[k].0 != key),
                None => spec_lookup(*self, key) is None,
            },
    {
        let mut i: usize = 0;
        while i < self.cache_size
            invariant
                i <= self.cache_size <= self.cache@.len(),
                forall|k: int| 0 <= k < i ==> self.cache@[k].0 != key,
            decreases self.cache_size - i,
        {
            if self.cache[i].0 == key {
                proof {
                    lemma_lookup_skip(self.cache@, self.cache_size as int, key, i as int);
                }
                return Some(i);
            }
            i = i + 1;
        }
        proof {
            lemma_lookup_none(self.cache@, self.cache_size as int, key);
        }
        None
    }

    /// Looks the key up among the occupied entries.
    pub fn lookup(&self, key: &DynamicKey) -> (r: Option<Value>)
        requires
            self.wf(),
        ensures
            r == spec_lookup(*self, *key),
    {
        match self.lookup_index(*key) {
            Some(i) => Some(self.cache[i].1),
            None => None,
        }
    }

    /// Inserts or updates `key`. A present key is overwritten in place; a new
    /// key is appended while the cache is under capacity and evicts the entry
    /// at `next_slot` once it is full. Capacity is never an error: the cache
    /// degrades by evicting.
    pub fn insert(&mut self, key: DynamicKey, value: Value)
        requires
            old(self).wf(),
        ensures
            final(self).wf(),
            spec_lookup(*final(self), key) == Some(value),
            // A present key is overwritten in place.
            (spec_lookup(*old(self), key) is Some ==> {
                &&& final(self).cache_size == old(self).cache_size
                &&& final(self).next_slot == old(self).next_slot
                &&& forall|k2: DynamicKey|
                    k2 != key ==> spec_lookup(*final(self), k2) == spec_lookup(*old(self), k2)
            }),
            // A new key grows the occupancy while under capacity.
            (spec_lookup(*old(self), key) is None && old(self).cache_size < LOCAL_PROP_CACHE_SIZE
                ==> {
                &&& final(self).cache_size == old(self).cache_size + 1
                &&& final(self).next_slot == old(self).next_slot
                &&& forall|k2: DynamicKey|
                    k2 != key ==> spec_lookup(*final(self), k2) == spec_lookup(*old(self), k2)
            }),
            // A new key at capacity evicts the entry at `next_slot`.
            (spec_lookup(*old(self), key) is None && old(self).cache_size == LOCAL_PROP_CACHE_SIZE
                ==> {
                &&& final(self).cache_size == old(self).cache_size
                &&& final(self).next_slot == ((old(self).next_slot + 1) as int % (
                    LOCAL_PROP_CACHE_SIZE as int))
                &&& forall|k2: DynamicKey|
                    k2 != key && k2 != old(self).cache@[old(self).next_slot as int].0
                        ==> spec_lookup(*final(self), k2) == spec_lookup(*old(self), k2)
                &&& spec_lookup(*final(self), old(self).cache@[old(self).next_slot as int].0)
                    is None
            }),
    {
        let ghost oldc = *old(self);
        match self.lookup_index(key) {
            Some(i) => {
                self.cache[i] = (key, value);
                proof {
                    lemma_lookup_skip(self.cache@, self.cache_size as int, key, i as int);
                    assert(spec_lookup(*self, key) == Some(value));
                    assert forall|k2: DynamicKey| k2 != key implies spec_lookup(*self, k2)
                        == spec_lookup(oldc, k2) by {
                        lemma_lookup_other_after_update(
                            oldc.cache@,
                            oldc.cache_size as int,
                            i as int,
                            (key, value),
                            k2,
                        );
                    }
                }
            },
            None => {
                let idx: usize = if self.cache_size < LOCAL_PROP_CACHE_SIZE {
                    let ret = self.cache_size;
                    self.cache_size = self.cache_size + 1;
                    ret
                } else {
                    let ret = self.next_slot;
                    self.next_slot = (self.next_slot + 1) % LOCAL_PROP_CACHE_SIZE;
                    ret
                };
                self.cache[idx] = (key, value);
                proof {
                    let newc = self.cache@;
                    let size = self.cache_size as int;
                    assert forall|a: int, b: int|
                        0 <= a < b < size implies newc[a].0 != newc[b].0 by {
                        if a != idx && b != idx {
                            assert(oldc.cache@[a].0 != oldc.cache@[b].0 || b >= oldc.cache_size);
                            if b >= oldc.cache_size {
                                assert(size == oldc.cache_size + 1 && b == oldc.cache_size);
                                assert(b == idx);
                            }
                        } else {
                            let other = if a == idx { b } else { a };
                            assert(newc[other].0 == oldc.cache@[other].0);
                            assert(oldc.cache@[other].0 != key) by {
                                if oldc.cache@[other].0 == key {
                                    lemma_lookup_witness(
                                        oldc.cache@,
                                        oldc.cache_size as int,
                                        key,
                                        other,
                                    );
                                }
                            }
                        }
                    }
                    assert(forall|k: int| 0 <= k < idx ==> newc[k].0 != key);
                    lemma_lookup_skip(newc, size, key, idx as int);
                    assert(spec_lookup(*self, key) == Some(value));
                    if oldc.cache_size < LOCAL_PROP_CACHE_SIZE {
                        assert forall|k2: DynamicKey| k2 != key implies spec_lookup(*self, k2)
                            == spec_lookup(oldc, k2) by {
                            lemma_lookup_grow(oldc.cache@, oldc.cache_size as int, (key, value), k2);
                        }
                    } else {
                        let evicted = oldc.cache@[idx as int].0;
                        assert forall|k2: DynamicKey|
                            k2 != key && k2 != evicted implies spec_lookup(*self, k2)
                            == spec_lookup(oldc, k2) by {
                            lemma_lookup_other_after_update(
                                oldc.cache@,
                                oldc.cache_size as int,
                                idx as int,
                                (key, value),
                                k2,
                            );
                        }
                        // The inserted key was absent, so it cannot be the
                        // occupied key just evicted.
                        assert(evicted != key) by {
                            if evicted == key {
                                lemma_lookup_witness(
                                    oldc.cache@,
                                    oldc.cache_size as int,
                                    key,
                                    idx as int,
                                );
                            }
                        }
                        assert forall|k: int| 0 <= k < size implies newc[k].0 != evicted by {
                            if k != idx && oldc.cache@[k].0 == evicted {
                                assert(0 <= idx < size);
                            }
                        }
                        lemma_lookup_none(newc, size, evicted);
                    }
                }
            },
        }
    }

    /// Deletes `key` if present, compacting by swapping the removed entry
    /// with the last occupied one; absent keys are a no-op. Returns whether
    /// the key was present.
    pub fn delete(&mut self, key: &DynamicKey) -> (r: bool)
        requires
            old(self).wf(),
        ensures
            final(self).wf(),
            r == (spec_lookup(*old(self), *key) is Some),
            !r ==> *final(self) == *old(self),
            r ==> {
                &&& final(self).cache_size == old(self).cache_size - 1
                &&& final(self).next_slot == old(self).next_slot
                &&& spec_lookup(*final(self), *key) is None
                &&& forall|k2: DynamicKey|
                    k2 != *key ==> spec_lookup(*final(self), k2) == spec_lookup(*old(self), k2)
            },
    {
        let ghost oldc = *old(self);
        match self.lookup_index(*key) {
            Some(i) => {
                let last = self.cache_size - 1;
                let entry_i = self.cache[i];
                let entry_last = self.cache[last];
                self.cache[i] = entry_last;
                self.cache[last] = entry_i;
                self.cache_size = last;
                proof {
                    let newc = self.cache@;
                    let size = self.cache_size as int;
                    assert forall|a: int, b: int|
                        0 <= a < b < size implies newc[a].0 != newc[b].0 by {
                        let oa = if a == i { oldc.cache_size - 1 } else { a as int };
                        let ob = if b == i { oldc.cache_size - 1 } else { b as int };
                        assert(newc[a].0 == oldc.cache@[oa].0);
                        assert(newc[b].0 == oldc.cache@[ob].0);
                    }
                    assert forall|k: int| 0 <= k < size implies newc[k].0 != *key by {
                        let ok = if k == i { oldc.cache_size - 1 } else { k as int };
                        assert(newc[k].0 == oldc.cache@[ok].0);
                        if oldc.cache@[ok].0 == *key {
                            lemma_lookup_witness(oldc.cache@, oldc.cache_size as int, *key, ok);
                        }
                    }
                    lemma_lookup_none(newc, size, *key);
                    assert forall|k2: DynamicKey| k2 != *key implies spec_lookup(*self, k2)
                        == spec_lookup(oldc, k2) by {
                        lemma_lookup_after_delete(oldc.cache@, oldc.cache_size as int, i as int, k2);
                    }
                }
                true
            },
            None => false,
        }
    }
}

/// Overwriting the occupied entry at `i` leaves lookups of every key other
/// than the one written unchanged, provided the entry's old key is looked up
/// nowhere else (which the distinct-keys invariant guarantees).
proof fn lemma_lookup_other_after_update(
    entries: Seq<(DynamicKey, Value)>,
    size: int,
    i: int,
    e: (DynamicKey, Value),
    k2: DynamicKey,
)
    requires
        0 <= i < size <= entries.len(),
        k2 != e.0,
        k2 != entries[i].0,
        forall|a: int, b: int| 0 <= a < b < size ==> entries[a].0 != entries[b].0,
    ensures
        spec_lookup_at(entries.update(i, e), size, k2, 0) == spec_lookup_at(entries, size, k2, 0),
{
    let newc = entries.update(i, e);
    match spec_lookup_at_props(entries, size, k2) {
        Some(j) => {
            assert(j != i);
            assert forall|k: int| 0 <= k < size && k != j implies newc[k].0 != k2 by {
                if k != i && entries[k].0 == k2 {
                    assert(entries[k].0 == entries[j].0);
                }
            }
            lemma_lookup_witness(newc, size, k2, j);
        },
        None => {
            assert forall|k: int| 0 <= k < size implies newc[k].0 != k2 by {}
            lemma_lookup_none(newc, size, k2);
        },
    }
}

/// Finds the index a successful lookup reads from, or shows every occupied
/// key differs.
proof fn spec_lookup_at_props(entries: Seq<(DynamicKey, Value)>, size: int, key: DynamicKey) -> (r:
    Option<int>)
    requires
        size <= entries.len(),
    ensures
        match r {
            Some(j) => 0 <= j < size && entries[j].0 == key && spec_lookup_at(entries, size, key, 0)
                == Some(entries[j].1),
            None => (forall|k: int| 0 <= k < size ==> entries[k].0 != key) && spec_lookup_at(
                entries,
                size,
                key,
                0,
            ) is None,
        },
{
    lemma_lookup_at_props(entries, size, key, 0);
    if spec_lookup_at(entries, size, key, 0) is Some {
        let j = choose|j: int|
            0 <= j < size && entries[j].0 == key && spec_lookup_at(entries, size, key, 0) == Some(
                entries[j].1,
            );
        Some(j)
    } else {
        lemma_lookup_at_props(entries, size, key, 0);
        None
    }
}

/// A successful search at or after `i` reads from some matching index; a
/// failed one passed over no match.
proof fn lemma_lookup_at_props(entries: Seq<(DynamicKey, Value)>, size: int, key: DynamicKey, i: int)
    requires
        0 <= i,
        size <= entries.len(),
    ensures
        match spec_lookup_at(entries, size, key, i) {
            Some(v) => exists|j: int|
                i <= j < size && entries[j].0 == key && #[trigger] entries[j].1 == v,
            None => forall|k: int| i <= k < size ==> entries[k].0 != key,
        },
    decreases size - i,
{
    if i < size && entries[i].0 != key {
        lemma_lookup_at_props(entries, size, key, i + 1);
    }
}

/// Appending one occupied entry with a fresh key leaves lookups of every
/// other key unchanged.
proof fn lemma_lookup_grow(
    entries: Seq<(DynamicKey, Value)>,
    size: int,
    e: (DynamicKey, Value),
    k2: DynamicKey,
)
    requires
        0 <= size < entries.len(),
        k2 != e.0,
    ensures
        spec_lookup_at(entries.update(size, e), size + 1, k2, 0) == spec_lookup_at(
            entries,
            size,
            k2,
            0,
        ),
    decreases size,
{
    lemma_lookup_grow_at(entries, size, e, k2, 0);
}

proof fn lemma_lookup_grow_at(
    entries: Seq<(DynamicKey, Value)>,
    size: int,
    e: (DynamicKey, Value),
    k2: DynamicKey,
    i: int,
)
    requires
        0 <= i <= size < entries.len(),
        k2 != e.0,
    ensures
        spec_lookup_at(entries.update(size, e), size + 1, k2, i) == spec_lookup_at(
            entries,
            size,
            k2,
            i,
        ),
    decreases size - i,
{
    if i < size {
        lemma_lookup_grow_at(entries, size, e, k2, i + 1);
    } else {
        assert(entries.update(size, e)[size] == e);
        assert(spec_lookup_at(entries.update(size, e), size + 1, k2, size + 1) is None);
    }
}

/// Swapping the deleted entry with the last occupied one and shrinking the
/// occupancy leaves lookups of every other key unchanged.
proof fn lemma_lookup_after_delete(
    entries: Seq<(DynamicKey, Value)>,
    size: int,
    i: int,
    k2: DynamicKey,
)
    requires
        0 <= i < size <= entries.len(),
        k2 != entries[i].0,
        forall|a: int, b: int| 0 <= a < b < size ==> entries[a].0 != entries[b].0,
    ensures
        spec_lookup_at(
            entries.update(i, entries[size - 1]).update(size - 1, entries[i]),
            size - 1,
            k2,
            0,
        ) == spec_lookup_at(entries, size, k2, 0),
{
    let newc = entries.update(i, entries[size - 1]).update(size - 1, entries[i]);
    match spec_lookup_at_props(entries, size, k2) {
        Some(j) => {
            // The single entry under `k2` survives, at `i` if it was last.
            let j2 = if j == size - 1 && i != size - 1 {
                i
            } else {
                j
            };
            assert(j != i);
            if j == size - 1 && i != size - 1 {
                assert(newc[j2] == entries[j]);
            } else {
                assert(j < size - 1);
                assert(newc[j2] == entries[j]);
            }
            assert forall|k: int| 0 <= k < size - 1 && k != j2 implies newc[k].0 != k2 by {
                let ok = if k == i { size - 1 } else { k };
                assert(newc[k] == entries[ok]);
                if entries[ok].0 == k2 {
                    assert(entries[ok].0 == entries[j].0);
                }
            }
            lemma_lookup_witness(newc, size - 1, k2, j2);
        },
        None => {
            assert forall|k: int| 0 <= k < size - 1 implies newc[k].0 != k2 by {
                let ok = if k == i { size - 1 } else { k };
                assert(newc[k] == entries[ok]);
            }
            lemma_lookup_none(newc, size - 1, k2);
        },
    }
}

} // verus!
