//! Behavior of the per-call-site inline cache and the per-object
//! dynamic-property cache.

use shape_cache::inline_cache::{CallPlan, InlineCache, Resolution, IC_SIZE};
use shape_cache::local_prop_cache::{LocalPropertyCache, LOCAL_PROP_CACHE_SIZE};
use shape_cache::object::ObjectData;
use shape_cache::property::{Property, PropertyType};
use shape_cache::value::{DynamicKey, Value};

fn slot_descriptor(slot_id: u32) -> PropertyType {
    PropertyType::Property(Property::Slot { slot_id })
}

#[test]
fn empty_cache_misses() {
    let c: InlineCache<PropertyType> = InlineCache::new();
    assert_eq!(c.lookup(0), None);
    assert_eq!(c.lookup(7), None);
}

#[test]
fn insert_then_lookup_hits() {
    let mut c: InlineCache<PropertyType> = InlineCache::new();
    c.insert(3, slot_descriptor(1));
    assert_eq!(c.lookup(3), Some(slot_descriptor(1)));
    assert_eq!(c.lookup(4), None);
}

#[test]
fn ninth_insert_evicts_the_first() {
    // Insert nine distinct (shape id, descriptor) pairs in order; the first
    // is evicted, the eight later ones all still hit.
    let mut c: InlineCache<PropertyType> = InlineCache::new();
    for s in 1..=9u32 {
        c.insert(s as usize, slot_descriptor(s));
    }
    assert_eq!(IC_SIZE, 8);
    assert_eq!(c.lookup(1), None);
    for s in 2..=9u32 {
        assert_eq!(c.lookup(s as usize), Some(slot_descriptor(s)));
    }
}

#[test]
fn duplicate_entries_are_harmless() {
    let mut c: InlineCache<PropertyType> = InlineCache::new();
    c.insert(3, slot_descriptor(1));
    c.insert(3, slot_descriptor(1));
    assert_eq!(c.lookup(3), Some(slot_descriptor(1)));
}

#[test]
fn fast_path_agrees_with_full_scan() {
    // A hit through the "last written slot" check returns the same
    // descriptor a full scan returns, across a polymorphic history.
    let mut c: InlineCache<PropertyType> = InlineCache::new();
    let mut object = ObjectData::new(Some(3), 4);
    object.set_slot(1, Value::Int(7));
    c.insert(3, slot_descriptor(1));
    // Monomorphic: the entry just written is the one the fast path checks.
    let fast = c.lookup_value_with_object(&object);
    let scanned = c.lookup(3).unwrap();
    assert_eq!(fast, InlineCache::<PropertyType>::resolve_property(&object, scanned));
    // Polymorphic history, then the same shape re-inserted last.
    c.insert(4, slot_descriptor(0));
    c.insert(5, slot_descriptor(2));
    c.insert(3, slot_descriptor(1));
    let fast = c.lookup_value_with_object(&object);
    let scanned = c.lookup(3).unwrap();
    assert_eq!(fast, InlineCache::<PropertyType>::resolve_property(&object, scanned));
    assert_eq!(fast, Resolution::Found(Value::Int(7)));
}

#[test]
fn slot_write_then_cached_read_round_trips() {
    // Write a value to a local storage slot, cache a Slot descriptor for the
    // object's shape, and a cached read returns exactly that value.
    let mut c: InlineCache<PropertyType> = InlineCache::new();
    let mut object = ObjectData::new(Some(11), 3);
    object.set_slot(2, Value::Str(99));
    c.insert(11, slot_descriptor(2));
    assert_eq!(c.lookup_value_with_object(&object), Resolution::Found(Value::Str(99)));
}

#[test]
fn lookup_value_misses_without_shape_identity() {
    let mut c: InlineCache<PropertyType> = InlineCache::new();
    c.insert(0, slot_descriptor(0));
    let object = ObjectData::new(None, 1);
    assert_eq!(c.lookup_value_with_object(&object), Resolution::NotFound);
}

#[test]
fn lookup_value_misses_on_uncached_shape() {
    let mut c: InlineCache<PropertyType> = InlineCache::new();
    c.insert(5, slot_descriptor(0));
    let object = ObjectData::new(Some(6), 1);
    assert_eq!(c.lookup_value_with_object(&object), Resolution::NotFound);
}

#[test]
fn resolve_dispatches_each_descriptor() {
    let object = ObjectData {
        shape_id: Some(0),
        slots: vec![Value::Int(1), Value::Bool(true)],
        bound_methods: vec![Some(Value::Object(70)), None],
        local_cache: LocalPropertyCache::new(),
    };
    assert_eq!(
        InlineCache::<PropertyType>::resolve_property(&object, slot_descriptor(1)),
        Resolution::Found(Value::Bool(true))
    );
    assert_eq!(
        InlineCache::<PropertyType>::resolve_property(
            &object,
            PropertyType::Property(Property::ConstSlot { slot_id: 0 })
        ),
        Resolution::Found(Value::Int(1))
    );
    assert_eq!(
        InlineCache::<PropertyType>::resolve_property(
            &object,
            PropertyType::Property(Property::Virtual { get: Some(9), set: None })
        ),
        Resolution::CallGetter { disp_id: 9 }
    );
    // A write-only accessor yields not-found rather than an error.
    assert_eq!(
        InlineCache::<PropertyType>::resolve_property(
            &object,
            PropertyType::Property(Property::Virtual { get: None, set: Some(9) })
        ),
        Resolution::NotFound
    );
    // A bound method resolves to its bound form; an unbound one misses.
    assert_eq!(
        InlineCache::<PropertyType>::resolve_property(&object, PropertyType::Property(Property::Method {
            disp_id: 0
        })),
        Resolution::Found(Value::Object(70))
    );
    assert_eq!(
        InlineCache::<PropertyType>::resolve_property(&object, PropertyType::Property(Property::Method {
            disp_id: 1
        })),
        Resolution::NotFound
    );
    assert_eq!(
        InlineCache::<PropertyType>::resolve_property(&object, PropertyType::Property(Property::Method {
            disp_id: 2
        })),
        Resolution::NotFound
    );
    // An embedded constant is returned directly.
    assert_eq!(
        InlineCache::<PropertyType>::resolve_property(&object, PropertyType::Value(Value::Null)),
        Resolution::Found(Value::Null)
    );
}

#[test]
fn call_plans_dispatch_each_descriptor() {
    let object = ObjectData {
        shape_id: Some(2),
        slots: vec![Value::Object(40)],
        bound_methods: Vec::new(),
        local_cache: LocalPropertyCache::new(),
    };
    assert_eq!(
        InlineCache::<PropertyType>::call_property_with_object(&object, slot_descriptor(0)),
        CallPlan::CallValue { callee: Value::Object(40) }
    );
    assert_eq!(
        InlineCache::<PropertyType>::call_property_with_object(&object, PropertyType::Property(Property::Method {
            disp_id: 4
        })),
        CallPlan::CallMethod { disp_id: 4 }
    );
    assert_eq!(
        InlineCache::<PropertyType>::call_property_with_object(
            &object,
            PropertyType::Property(Property::Virtual { get: Some(6), set: None })
        ),
        CallPlan::CallGetterResult { get: 6 }
    );
    assert_eq!(
        InlineCache::<PropertyType>::call_property_with_object(
            &object,
            PropertyType::Property(Property::Virtual { get: None, set: Some(6) })
        ),
        CallPlan::NotFound
    );
    // Calling through an embedded constant is left to the general path.
    assert_eq!(
        InlineCache::<PropertyType>::call_property_with_object(&object, PropertyType::Value(Value::Int(1))),
        CallPlan::NotFound
    );
}

#[test]
fn call_function_uses_the_cached_descriptor() {
    let mut c: InlineCache<PropertyType> = InlineCache::new();
    let object = ObjectData {
        shape_id: Some(2),
        slots: vec![Value::Object(40)],
        bound_methods: Vec::new(),
        local_cache: LocalPropertyCache::new(),
    };
    assert_eq!(c.call_function_with_object(&object), CallPlan::NotFound);
    c.insert(2, slot_descriptor(0));
    assert_eq!(
        c.call_function_with_object(&object),
        CallPlan::CallValue { callee: Value::Object(40) }
    );
}

#[test]
fn local_cache_insert_and_lookup() {
    let mut c = LocalPropertyCache::new();
    assert_eq!(c.lookup(&DynamicKey::Uint(1)), None);
    c.insert(DynamicKey::Uint(1), Value::Int(10));
    c.insert(DynamicKey::Str(2), Value::Int(20));
    assert_eq!(c.lookup(&DynamicKey::Uint(1)), Some(Value::Int(10)));
    assert_eq!(c.lookup(&DynamicKey::Str(2)), Some(Value::Int(20)));
    // Integer and string keys are distinct even with equal raw numbers.
    assert_eq!(c.lookup(&DynamicKey::Uint(2)), None);
    assert_eq!(c.cache_size, 2);
}

#[test]
fn local_cache_overwrites_in_place() {
    let mut c = LocalPropertyCache::new();
    c.insert(DynamicKey::Uint(1), Value::Int(10));
    c.insert(DynamicKey::Uint(1), Value::Int(11));
    assert_eq!(c.lookup(&DynamicKey::Uint(1)), Some(Value::Int(11)));
    assert_eq!(c.cache_size, 1);
}

#[test]
fn local_cache_delete_compacts() {
    // Insert keys k1..k5, delete k3: k3 misses, the others all still hit,
    // and the occupancy shrinks by exactly one.
    let mut c = LocalPropertyCache::new();
    for k in 1..=5u32 {
        c.insert(DynamicKey::Uint(k), Value::Int(k as i64));
    }
    assert_eq!(c.cache_size, 5);
    assert!(c.delete(&DynamicKey::Uint(3)));
    assert_eq!(c.cache_size, 4);
    assert_eq!(c.lookup(&DynamicKey::Uint(3)), None);
    for k in [1u32, 2, 4, 5] {
        assert_eq!(c.lookup(&DynamicKey::Uint(k)), Some(Value::Int(k as i64)));
    }
}

#[test]
fn local_cache_delete_absent_is_noop() {
    let mut c = LocalPropertyCache::new();
    c.insert(DynamicKey::Uint(1), Value::Int(10));
    assert!(!c.delete(&DynamicKey::Uint(2)));
    assert_eq!(c.cache_size, 1);
    assert_eq!(c.lookup(&DynamicKey::Uint(1)), Some(Value::Int(10)));
}

#[test]
fn local_cache_delete_last_entry() {
    let mut c = LocalPropertyCache::new();
    c.insert(DynamicKey::Uint(1), Value::Int(10));
    c.insert(DynamicKey::Uint(2), Value::Int(20));
    assert!(c.delete(&DynamicKey::Uint(2)));
    assert_eq!(c.cache_size, 1);
    assert_eq!(c.lookup(&DynamicKey::Uint(2)), None);
    assert_eq!(c.lookup(&DynamicKey::Uint(1)), Some(Value::Int(10)));
    assert!(c.delete(&DynamicKey::Uint(1)));
    assert_eq!(c.cache_size, 0);
    assert_eq!(c.lookup(&DynamicKey::Uint(1)), None);
}

#[test]
fn local_cache_full_insert_evicts_in_ring_order() {
    let mut c = LocalPropertyCache::new();
    assert_eq!(LOCAL_PROP_CACHE_SIZE, 8);
    for k in 1..=8u32 {
        c.insert(DynamicKey::Uint(k), Value::Int(k as i64));
    }
    assert_eq!(c.cache_size, 8);
    // The ninth insert evicts the oldest entry; occupancy saturates.
    c.insert(DynamicKey::Uint(9), Value::Int(9));
    assert_eq!(c.cache_size, 8);
    assert_eq!(c.lookup(&DynamicKey::Uint(1)), None);
    assert_eq!(c.lookup(&DynamicKey::Uint(9)), Some(Value::Int(9)));
    for k in 2..=8u32 {
        assert_eq!(c.lookup(&DynamicKey::Uint(k)), Some(Value::Int(k as i64)));
    }
    // The next eviction takes the second-oldest.
    c.insert(DynamicKey::Uint(10), Value::Int(10));
    assert_eq!(c.lookup(&DynamicKey::Uint(2)), None);
    assert_eq!(c.lookup(&DynamicKey::Uint(10)), Some(Value::Int(10)));
}

#[test]
fn objects_sharing_a_shape_keep_separate_dynamic_properties() {
    // Two objects with the same shape identity and different dynamic
    // properties never observe each other's.
    let mut a = ObjectData::new(Some(4), 0);
    let mut b = ObjectData::new(Some(4), 0);
    a.local_cache.insert(DynamicKey::Str(1), Value::Int(100));
    b.local_cache.insert(DynamicKey::Str(2), Value::Int(200));
    assert_eq!(a.local_cache.lookup(&DynamicKey::Str(1)), Some(Value::Int(100)));
    assert_eq!(a.local_cache.lookup(&DynamicKey::Str(2)), None);
    assert_eq!(b.local_cache.lookup(&DynamicKey::Str(2)), Some(Value::Int(200)));
    assert_eq!(b.local_cache.lookup(&DynamicKey::Str(1)), None);
    // Deleting in one leaves the other untouched.
    assert!(a.local_cache.delete(&DynamicKey::Str(1)));
    assert_eq!(b.local_cache.lookup(&DynamicKey::Str(2)), Some(Value::Int(200)));
}
