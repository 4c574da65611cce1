//! The per-call-site inline cache, for speeding up property access.
//!
//! A call site remembers up to [`IC_SIZE`] `(shape identity, descriptor)`
//! pairs in a ring buffer. A lookup first checks only the most recently
//! written slot — the monomorphic fast path — and falls back to scanning all
//! slots; a full miss sends the interpreter to the general resolution path.
//! Inserts overwrite the ring position `next_slot` unconditionally, so both
//! the cache size and the insert cost stay constant however polymorphic the
//! call site becomes. Duplicate entries for one shape identity are possible
//! and harmless: they only waste capacity.
//!
//! Resolving a found descriptor may require reentering interpreted code (a
//! getter, a bound method, a callable read from a slot). This subsystem never
//! performs that reentry itself: it returns a [`Resolution`] or a
//! [`CallPlan`] saying exactly which dispatch the interpreter must perform,
//! and any failure of that dispatch propagates in the interpreter unchanged.

use vstd::prelude::*;

use crate::object::{spec_bound_method, ObjectData};
use crate::property::{Property, PropertyType};
use crate::value::Value;

verus! {

/// Capacity of a per-call-site inline cache.
pub const IC_SIZE: usize = 8;

/// A fixed-capacity ring buffer of `(shape identity, cached descriptor)`
/// pairs, bound to exactly one call site.
#[derive(Debug, Clone)]
pub struct InlineCache<V> {
    /// The ring; an entry is present when both halves are `Some`.
    pub entries: Vec<(Option<usize>, Option<V>)>,
    /// The next ring position to overwrite.
    pub next_slot: usize,
}

/// The descriptor stored under the first present entry for `shape_id` at or
/// after `i`, if any.
pub open spec fn spec_ic_lookup_at<V>(
    entries: Seq<(Option<usize>, Option<V>)>,
    shape_id: usize,
    i: int,
) -> Option<V>
    decreases entries.len() - i,
{
    if i < 0 || i >= entries.len() {
        None
    } else if entries[i].0 == Some(shape_id) && entries[i].1 is Some {
        entries[i].1
    } else {
        spec_ic_lookup_at(entries, shape_id, i + 1)
    }
}

/// What a full scan of the cache returns for `shape_id`.
pub open spec fn spec_ic_lookup<V>(c: InlineCache<V>, shape_id: usize) -> Option<V> {
    spec_ic_lookup_at(c.entries@, shape_id, 0)
}

/// The ring position written most recently: one before `next_slot`.
pub open spec fn spec_last_written<V>(c: InlineCache<V>) -> int {
    (c.next_slot + IC_SIZE - 1) % (IC_SIZE as int)
}

/// What the monomorphic fast path returns: the descriptor in the most
/// recently written slot, if that slot is present and caches `shape_id`.
pub open spec fn spec_fast_hit<V>(c: InlineCache<V>, shape_id: usize) -> Option<V> {
    let l = spec_last_written(c);
    if c.entries@[l].0 == Some(shape_id) && c.entries@[l].1 is Some {
        c.entries@[l].1
    } else {
        None
    }
}

/// What the two-tier lookup returns: the fast path when it hits, the full
/// scan otherwise.
pub open spec fn spec_two_tier<V>(c: InlineCache<V>, shape_id: usize) -> Option<V> {
    match spec_fast_hit(c, shape_id) {
        Some(v) => Some(v),
        None => spec_ic_lookup(c, shape_id),
    }
}

/// A scan that already passed over `i` entries not present for `shape_id`
/// returns what one started at the beginning returns.
pub proof fn lemma_ic_skip<V>(entries: Seq<(Option<usize>, Option<V>)>, shape_id: usize, i: int)
    requires
        0 <= i <= entries.len(),
        forall|k: int|
            0 <= k < i ==> !(entries[k].0 == Some(shape_id) && entries[k].1 is Some),
    ensures
        spec_ic_lookup_at(entries, shape_id, 0) == spec_ic_lookup_at(entries, shape_id, i),
    decreases i,
{
    if i > 0 {
        lemma_ic_skip(entries, shape_id, i - 1);
    }
}

/// With no present entry for `shape_id`, the scan misses.
pub proof fn lemma_ic_none<V>(entries: Seq<(Option<usize>, Option<V>)>, shape_id: usize)
    requires
        forall|k: int|
            0 <= k < entries.len() ==> !(entries[k].0 == Some(shape_id) && entries[k].1 is Some),
    ensures
        spec_ic_lookup_at(entries, shape_id, 0) is None,
{
    lemma_ic_skip(entries, shape_id, entries.len() as int);
}

/// With the first present entry for `shape_id` at `j`, the scan returns its
/// descriptor.
pub proof fn lemma_ic_witness<V>(entries: Seq<(Option<usize>, Option<V>)>, shape_id: usize, j: int)
    requires
        0 <= j < entries.len(),
        entries[j].0 == Some(shape_id),
        entries[j].1 is Some,
        forall|k: int|
            0 <= k < j ==> !(entries[k].0 == Some(shape_id) && entries[k].1 is Some),
    ensures
        spec_ic_lookup_at(entries, shape_id, 0) == entries[j].1,
{
    lemma_ic_skip(entries, shape_id, j);
}

/// A successful scan reads its descriptor from some present entry; a failed
/// one passed over none.
pub proof fn lemma_ic_props<V>(entries: Seq<(Option<usize>, Option<V>)>, shape_id: usize, i: int)
    requires
        0 <= i,
    ensures
        match spec_ic_lookup_at(entries, shape_id, i) {
            Some(v) => exists|j: int|
                i <= j < entries.len() && entries[j].0 == Some(shape_id) && #[trigger] entries[j].1
                    == Some(v),
            None => forall|k: int|
                i <= k < entries.len() ==> !(entries[k].0 == Some(shape_id)
                    && entries[k].1 is Some),
        },
    decreases entries.len() - i,
{
    if i < entries.len() && !(entries[i].0 == Some(shape_id) && entries[i].1 is Some) {
        lemma_ic_props(entries, shape_id, i + 1);
    }
}

impl<V: Copy> InlineCache<V> {
    /// The ring invariant: the backing array has the fixed capacity and the
    /// write pointer is in range.
    pub open spec fn wf(&self) -> bool {
        &&& self.entries@.len() == IC_SIZE
        &&& self.next_slot < IC_SIZE
    }

    /// An empty cache: no entry present, writing starts at slot zero.
    pub fn new() -> (r: InlineCache<V>)
        ensures
            r.wf(),
            r.next_slot == 0,
            forall|i: int|
                0 <= i < IC_SIZE ==> r.entries@[i] == (Option::<usize>::None, Option::<V>::None),
            forall|shape_id: usize| spec_ic_lookup(r, shape_id) is None,
    {
        let mut entries: Vec<(Option<usize>, Option<V>)> = Vec::new();
        let mut i: usize = 0;
        while i < IC_SIZE
            invariant
                i <= IC_SIZE,
                entries@.len() == i,
                forall|k: int|
                    0 <= k < i ==> entries@[k] == (Option::<usize>::None, Option::<V>::None),
            decreases IC_SIZE - i,
        {
            entries.push((None, None));
            i = i + 1;
        }
        let r = InlineCache { entries, next_slot: 0 };
        proof {
            assert forall|shape_id: usize| spec_ic_lookup(r, shape_id) is None by {
                lemma_ic_none(r.entries@, shape_id);
            }
        }
        r
    }

    /// Scans all slots for the first present entry caching `shape_id`.
    pub fn lookup(&self, shape_id: usize) -> (r: Option<V>)
        ensures
            r == spec_ic_lookup(*self, shape_id),
    {
        let mut i: usize = 0;
        while i < self.entries.len()
            invariant
                i <= self.entries@.len(),
                forall|k: int|
                    0 <= k < i ==> !(self.entries@[k].0 == Some(shape_id)
                        && self.entries@[k].1 is Some),
            decreases self.entries@.len() - i,
        {
            let e = self.entries[i];
            if let (Some(id), Some(v)) = e {
                if id == shape_id {
                    proof {
                        lemma_ic_skip(self.entries@, shape_id, i as int);
                    }
                    return Some(v);
                }
            }
            i = i + 1;
        }
        proof {
            lemma_ic_skip(self.entries@, shape_id, i as int);
        }
        None
    }

    /// Writes `(shape_id, value)` into the ring at `next_slot` and advances
    /// the pointer, evicting whatever the slot held. No deduplication is
    /// attempted; capacity is never an error.
    pub fn insert(&mut self, shape_id: usize, value: V)
        requires
            old(self).wf(),
        ensures
            final(self).wf(),
            final(self).entries@ == old(self).entries@.update(
                old(self).next_slot as int,
                (Some(shape_id), Some(value)),
            ),
            final(self).next_slot as int == (old(self).next_slot + 1) % (IC_SIZE as int),
    {
        self.entries[self.next_slot] = (Some(shape_id), Some(value));
        self.next_slot = (self.next_slot + 1) % IC_SIZE;
    }
}

/// What the read fast path decided: a value produced from already-resident
/// state, a getter the interpreter must invoke (whose result is the property
/// value), or a miss sending the caller to the general path.
#[derive(Debug, Clone, Copy, PartialEq, Eq, Structural)]
pub enum Resolution {
    /// The property value, read without reentering interpreted code.
    Found(Value),
    /// Invoke the getter bound at `disp_id` with no arguments; its result is
    /// the property value, and its failure propagates unchanged.
    CallGetter { disp_id: u32 },
    /// Fall back to the full, general property-access path.
    NotFound,
}

/// What the call fast path decided: which dispatch the interpreter must
/// perform, or a miss sending it to the general path.
#[derive(Debug, Clone, Copy, PartialEq, Eq, Structural)]
pub enum CallPlan {
    /// Call `callee` (read from the receiver's local storage) with the
    /// receiver and the call's arguments.
    CallValue { callee: Value },
    /// Call the method bound at `disp_id` on the receiver with the call's
    /// arguments.
    CallMethod { disp_id: u32 },
    /// Invoke the getter bound at `get` with no arguments, then call its
    /// result with the receiver and the call's arguments.
    CallGetterResult { get: u32 },
    /// Fall back to the full, general call path.
    NotFound,
}

/// Whether a cached descriptor can be dispatched against this object: a slot
/// descriptor must index inside the object's local storage. The interpreter
/// guarantees this by caching only descriptors resolved from the object's own
/// shape.
pub open spec fn descriptor_fits(p: PropertyType, o: ObjectData) -> bool {
    match p {
        PropertyType::Property(Property::Slot { slot_id }) => (slot_id as int) < o.slots@.len(),
        PropertyType::Property(Property::ConstSlot { slot_id }) => (slot_id as int)
            < o.slots@.len(),
        _ => true,
    }
}

/// Every entry the cache holds under this object's shape identity fits the
/// object.
pub open spec fn cache_fits(c: InlineCache<PropertyType>, o: ObjectData) -> bool {
    forall|i: int|
        #![auto]
        0 <= i < c.entries@.len() && o.shape_id is Some && c.entries@[i].0 == Some(o.shape_id->0)
            && c.entries@[i].1 is Some ==> descriptor_fits(c.entries@[i].1->0, o)
}

/// What dispatching a descriptor for a property read yields.
pub open spec fn spec_resolve(o: ObjectData, p: PropertyType) -> Resolution {
    match p {
        PropertyType::Property(Property::Slot { slot_id }) => Resolution::Found(
            o.slots@[slot_id as int],
        ),
        PropertyType::Property(Property::ConstSlot { slot_id }) => Resolution::Found(
            o.slots@[slot_id as int],
        ),
        PropertyType::Property(Property::Virtual { get, set }) => match get {
            Some(g) => Resolution::CallGetter { disp_id: g },
            None => Resolution::NotFound,
        },
        PropertyType::Property(Property::Method { disp_id }) => match spec_bound_method(
            o,
            disp_id,
        ) {
            Some(m) => Resolution::Found(m),
            None => Resolution::NotFound,
        },
        PropertyType::Value(v) => Resolution::Found(v),
    }
}

/// What dispatching a descriptor for a property call yields. A descriptor a
/// call cannot go through (a write-only accessor, an embedded constant) is a
/// miss, not an error: the general path understands those cases.
pub open spec fn spec_call_plan(o: ObjectData, p: PropertyType) -> CallPlan {
    match p {
        PropertyType::Property(Property::Slot { slot_id }) => CallPlan::CallValue {
            callee: o.slots@[slot_id as int],
        },
        PropertyType::Property(Property::ConstSlot { slot_id }) => CallPlan::CallValue {
            callee: o.slots@[slot_id as int],
        },
        PropertyType::Property(Property::Method { disp_id }) => CallPlan::CallMethod { disp_id },
        PropertyType::Property(Property::Virtual { get, set }) => match get {
            Some(g) => CallPlan::CallGetterResult { get: g },
            None => CallPlan::NotFound,
        },
        PropertyType::Value(_) => CallPlan::NotFound,
    }
}

/// What a cached property read against `object` yields: nothing without a
/// shape identity, otherwise the two-tier lookup's descriptor dispatched for
/// a read.
pub open spec fn spec_lookup_value(c: InlineCache<PropertyType>, object: ObjectData) -> Resolution {
    match object.shape_id {
        None => Resolution::NotFound,
        Some(shape_id) => match spec_two_tier(c, shape_id) {
            Some(p) => spec_resolve(object, p),
            None => Resolution::NotFound,
        },
    }
}

/// What a cached property call against `object` yields: nothing without a
/// shape identity, otherwise the full scan's descriptor dispatched for a
/// call.
pub open spec fn spec_call_function(c: InlineCache<PropertyType>, object: ObjectData) -> CallPlan {
    match object.shape_id {
        None => CallPlan::NotFound,
        Some(shape_id) => match spec_ic_lookup(c, shape_id) {
            Some(p) => spec_call_plan(object, p),
            None => CallPlan::NotFound,
        },
    }
}

impl InlineCache<PropertyType> {
    /// A property read through the cache. The most recently written slot is
    /// checked first — one comparison for the dominant monomorphic case —
    /// then all slots; a full miss returns [`Resolution::NotFound`] and the
    /// caller must resolve through the shape and insert the result.
    pub fn lookup_value_with_object(&self, object: &ObjectData) -> (r: Resolution)
        requires
            self.wf(),
            cache_fits(*self, *object),
        ensures
            r == spec_lookup_value(*self, *object),
    {
        if let Some(shape_id) = object.shape_id {
            let last_idx = (self.next_slot + IC_SIZE - 1) % IC_SIZE;
            let e = self.entries[last_idx];
            if let (Some(s), Some(prop)) = e {
                if s == shape_id {
                    proof {
                        assert(spec_fast_hit(*self, shape_id) == Some(prop));
                        assert(descriptor_fits(prop, *object));
                    }
                    return Self::resolve_property(object, prop);
                }
            }
            proof {
                assert(spec_fast_hit::<PropertyType>(*self, shape_id) is None);
            }
            if let Some(prop) = self.lookup(shape_id) {
                proof {
                    lemma_ic_props(self.entries@, shape_id, 0);
                    let j = choose|j: int|
                        0 <= j < self.entries@.len() && self.entries@[j].0 == Some(shape_id)
                            && #[trigger] self.entries@[j].1 == Some(prop);
                    assert(descriptor_fits(prop, *object));
                }
                return Self::resolve_property(object, prop);
            }
        }
        Resolution::NotFound
    }

    /// A property call through the cache: a full scan, then the descriptor
    /// dispatched for a call. A full miss returns [`CallPlan::NotFound`] and
    /// the caller must resolve through the shape and insert the result.
    pub fn call_function_with_object(&self, object: &ObjectData) -> (r: CallPlan)
        requires
            self.wf(),
            cache_fits(*self, *object),
        ensures
            r == spec_call_function(*self, *object),
    {
        if let Some(shape_id) = object.shape_id {
            if let Some(prop) = self.lookup(shape_id) {
                proof {
                    lemma_ic_props(self.entries@, shape_id, 0);
                    let j = choose|j: int|
                        0 <= j < self.entries@.len() && self.entries@[j].0 == Some(shape_id)
                            && #[trigger] self.entries@[j].1 == Some(prop);
                    assert(descriptor_fits(prop, *object));
                }
                return Self::call_property_with_object(object, prop);
            }
        }
        CallPlan::NotFound
    }

    /// Dispatches a descriptor for a property call on `receiver`.
    pub fn call_property_with_object(receiver: &ObjectData, property: PropertyType) -> (r: CallPlan)
        requires
            descriptor_fits(property, *receiver),
        ensures
            r == spec_call_plan(*receiver, property),
    {
        match property {
            PropertyType::Property(Property::Slot { slot_id }) => CallPlan::CallValue {
                callee: receiver.get_slot(slot_id),
            },
            PropertyType::Property(Property::ConstSlot { slot_id }) => CallPlan::CallValue {
                callee: receiver.get_slot(slot_id),
            },
            PropertyType::Property(Property::Method { disp_id }) => CallPlan::CallMethod {
                disp_id,
            },
            PropertyType::Property(Property::Virtual { get: Some(get), .. }) => {
                CallPlan::CallGetterResult { get }
            },
            _ => CallPlan::NotFound,
        }
    }

    /// Dispatches a descriptor for a property read on `object`.
    pub fn resolve_property(object: &ObjectData, property: PropertyType) -> (r: Resolution)
        requires
            descriptor_fits(property, *object),
        ensures
            r == spec_resolve(*object, property),
    {
        match property {
            PropertyType::Property(Property::Slot { slot_id }) => Resolution::Found(
                object.get_slot(slot_id),
            ),
            PropertyType::Property(Property::ConstSlot { slot_id }) => Resolution::Found(
                object.get_slot(slot_id),
            ),
            PropertyType::Property(Property::Virtual { get: Some(get), .. }) => {
                Resolution::CallGetter { disp_id: get }
            },
            PropertyType::Property(Property::Method { disp_id }) => {
                match object.get_bound_method(disp_id) {
                    Some(m) => Resolution::Found(m),
                    None => Resolution::NotFound,
                }
            },
            PropertyType::Value(v) => Resolution::Found(v),
            _ => Resolution::NotFound,
        }
    }
}

/// Entries under one shape identity all carry the same descriptor. A call
/// site maintains this by construction: what it inserts under a shape
/// identity is always the descriptor its multiname resolves to in that
/// shape (see [`lemma_insert_keeps_consistency`]).
pub open spec fn id_consistent<V>(entries: Seq<(Option<usize>, Option<V>)>) -> bool {
    forall|i: int, j: int|
        #![auto]
        0 <= i < entries.len() && 0 <= j < entries.len() && entries[i].0 is Some && entries[i].0
            == entries[j].0 && entries[i].1 is Some && entries[j].1 is Some ==> entries[i].1
            == entries[j].1
}

/// Monomorphic fast path equivalence: in a cache whose entries are
/// consistent, the two-tier lookup — the last written slot first, then the
/// full scan — returns exactly what the full scan alone returns, for every
/// shape identity. Without consistency this fails: a cache holding two
/// different descriptors under one shape identity answers differently
/// depending on which entry was written last.
pub proof fn lemma_fast_path_equivalence<V: Copy>(c: InlineCache<V>, shape_id: usize)
    requires
        c.wf(),
        id_consistent(c.entries@),
    ensures
        spec_two_tier(c, shape_id) == spec_ic_lookup(c, shape_id),
{
    let l = spec_last_written(c);
    match spec_fast_hit(c, shape_id) {
        Some(v) => {
            assert(0 <= l < c.entries@.len());
            assert(c.entries@[l].0 == Some(shape_id) && c.entries@[l].1 == Some(v));
            lemma_ic_props(c.entries@, shape_id, 0);
            match spec_ic_lookup(c, shape_id) {
                Some(w) => {
                    let j = choose|j: int|
                        0 <= j < c.entries@.len() && c.entries@[j].0 == Some(shape_id)
                            && #[trigger] c.entries@[j].1 == Some(w);
                    assert(c.entries@[j].1 == c.entries@[l].1);
                },
                None => {
                    assert(!(c.entries@[l].0 == Some(shape_id) && c.entries@[l].1 is Some));
                },
            }
        },
        None => {},
    }
}

/// Inserting a pair that agrees with every present entry under the same
/// shape identity preserves consistency. A call site's inserts always agree,
/// because the descriptor it caches is a function of the shape identity.
pub proof fn lemma_insert_keeps_consistency<V>(
    entries: Seq<(Option<usize>, Option<V>)>,
    slot: int,
    shape_id: usize,
    value: V,
)
    requires
        0 <= slot < entries.len(),
        id_consistent(entries),
        forall|k: int|
            #![auto]
            0 <= k < entries.len() && entries[k].0 == Some(shape_id) && entries[k].1 is Some
                ==> entries[k].1 == Some(value),
    ensures
        id_consistent(entries.update(slot, (Some(shape_id), Some(value)))),
{
    let newe = entries.update(slot, (Some(shape_id), Some(value)));
    assert forall|i: int, j: int|
        #![auto]
        (0 <= i < newe.len() && 0 <= j < newe.len() && newe[i].0 is Some && newe[i].0 == newe[j].0
            && newe[i].1 is Some && newe[j].1 is Some) implies newe[i].1 == newe[j].1 by {
        if i != slot && j != slot {
            assert(newe[i] == entries[i] && newe[j] == entries[j]);
        } else if i == slot && j != slot {
            assert(entries[j].0 == Some(shape_id));
        } else if j == slot && i != slot {
            assert(entries[i].0 == Some(shape_id));
        }
    }
}

/// The entries after a run of inserts: each pair written at the ring
/// position in turn, the position advancing modulo the capacity.
pub open spec fn spec_fill<V>(
    entries: Seq<(Option<usize>, Option<V>)>,
    slot: int,
    pairs: Seq<(usize, V)>,
) -> Seq<(Option<usize>, Option<V>)>
    decreases pairs.len(),
{
    if pairs.len() == 0 {
        entries
    } else {
        spec_fill(
            entries.update(slot, (Some(pairs[0].0), Some(pairs[0].1))),
            (slot + 1) % (IC_SIZE as int),
            pairs.drop_first(),
        )
    }
}

/// Bounded polymorphism: after nine inserts of pairwise distinct shape
/// identities into an empty capacity-eight cache, the first identity has
/// been evicted — its lookup misses — while the eight identities inserted
/// after it all hit with their own descriptors.
pub proof fn lemma_bounded_polymorphism<V>(
    e0: Seq<(Option<usize>, Option<V>)>,
    pairs: Seq<(usize, V)>,
)
    requires
        e0.len() == IC_SIZE,
        forall|i: int| 0 <= i < e0.len() ==> e0[i] == (Option::<usize>::None, Option::<V>::None),
        pairs.len() == 9,
        forall|i: int, j: int| 0 <= i < j < pairs.len() ==> pairs[i].0 != pairs[j].0,
    ensures
        spec_ic_lookup_at(spec_fill(e0, 0, pairs), pairs[0].0, 0) is None,
        forall|m: int|
            1 <= m < 9 ==> spec_ic_lookup_at(spec_fill(e0, 0, pairs), #[trigger] pairs[m].0, 0)
                == Some(pairs[m].1),
{
    let ent = |k: int| (Some(pairs[k].0), Some(pairs[k].1));
    let e1 = e0.update(0, ent(0));
    let e2 = e1.update(1, ent(1));
    let e3 = e2.update(2, ent(2));
    let e4 = e3.update(3, ent(3));
    let e5 = e4.update(4, ent(4));
    let e6 = e5.update(5, ent(5));
    let e7 = e6.update(6, ent(6));
    let e8 = e7.update(7, ent(7));
    let e9 = e8.update(0, ent(8));

    let r0 = pairs;
    let r1 = pairs.skip(1);
    let r2 = pairs.skip(2);
    let r3 = pairs.skip(3);
    let r4 = pairs.skip(4);
    let r5 = pairs.skip(5);
    let r6 = pairs.skip(6);
    let r7 = pairs.skip(7);
    let r8 = pairs.skip(8);
    let r9 = pairs.skip(9);

    assert(r0.drop_first() =~= r1);
    assert(r1.drop_first() =~= r2);
    assert(r2.drop_first() =~= r3);
    assert(r3.drop_first() =~= r4);
    assert(r4.drop_first() =~= r5);
    assert(r5.drop_first() =~= r6);
    assert(r6.drop_first() =~= r7);
    assert(r7.drop_first() =~= r8);
    assert(r8.drop_first() =~= r9);
    assert(r9.len() == 0);

    assert(spec_fill(e0, 0, r0) == spec_fill(e1, 1, r1));
    assert(spec_fill(e1, 1, r1) == spec_fill(e2, 2, r2));
    assert(spec_fill(e2, 2, r2) == spec_fill(e3, 3, r3));
    assert(spec_fill(e3, 3, r3) == spec_fill(e4, 4, r4));
    assert(spec_fill(e4, 4, r4) == spec_fill(e5, 5, r5));
    assert(spec_fill(e5, 5, r5) == spec_fill(e6, 6, r6));
    assert(spec_fill(e6, 6, r6) == spec_fill(e7, 7, r7));
    assert(spec_fill(e7, 7, r7) == spec_fill(e8, 0, r8));
    assert(spec_fill(e8, 0, r8) == spec_fill(e9, 1, r9));
    assert(spec_fill(e9, 1, r9) == e9);
    assert(spec_fill(e0, 0, pairs) == e9);

    assert(e9.len() == IC_SIZE);
    assert(e9[0] == ent(8));
    assert(forall|k: int| 1 <= k < 8 ==> e9[k] == ent(k));

    assert forall|k: int|
        0 <= k < e9.len() implies !(e9[k].0 == Some(pairs[0].0) && e9[k].1 is Some) by {
        if k == 0 {
            assert(pairs[0].0 != pairs[8].0);
        } else {
            assert(pairs[0].0 != pairs[k].0);
        }
    }
    lemma_ic_none(e9, pairs[0].0);

    assert forall|m: int|
        1 <= m < 9 implies spec_ic_lookup_at(spec_fill(e0, 0, pairs), #[trigger] pairs[m].0, 0)
        == Some(pairs[m].1) by {
        if m < 8 {
            assert forall|k: int|
                0 <= k < m implies !(e9[k].0 == Some(pairs[m].0) && e9[k].1 is Some) by {
                if k == 0 {
                    assert(pairs[m].0 != pairs[8].0);
                } else {
                    assert(pairs[k].0 != pairs[m].0);
                }
            }
            lemma_ic_witness(e9, pairs[m].0, m);
        } else {
            lemma_ic_witness(e9, pairs[8].0, 0);
        }
    }
}

/// Round trip: write `v` to local storage slot `slot_id`, insert a
/// `Slot(slot_id)` descriptor for the object's shape identity into the call
/// site's cache, and a cached read returns exactly `v` — the freshly written
/// ring position is precisely the one the monomorphic fast path checks.
/// `c1` is the cache right after the insert, as [`InlineCache::insert`]
/// describes it.
pub proof fn lemma_slot_round_trip(
    c0: InlineCache<PropertyType>,
    c1: InlineCache<PropertyType>,
    o: ObjectData,
    shape_id: usize,
    slot_id: u32,
    v: Value,
)
    requires
        c0.wf(),
        c1.entries@ == c0.entries@.update(
            c0.next_slot as int,
            (Some(shape_id), Some(PropertyType::Property(Property::Slot { slot_id }))),
        ),
        c1.next_slot as int == (c0.next_slot + 1) % (IC_SIZE as int),
        o.shape_id == Some(shape_id),
        (slot_id as int) < o.slots@.len(),
        o.slots@[slot_id as int] == v,
    ensures
        spec_lookup_value(c1, o) == Resolution::Found(v),
{
    assert(spec_last_written(c1) == c0.next_slot as int);
    assert(c1.entries@[c0.next_slot as int] == (
        Some(shape_id),
        Some(PropertyType::Property(Property::Slot { slot_id })),
    ));
    assert(spec_fast_hit(c1, shape_id) == Some(
        PropertyType::Property(Property::Slot { slot_id }),
    ));
}

} // verus!
