//! Behavior of the shape manager: interning, transitions, and multiname
//! resolution.

use shape_cache::names::{Multiname, Name, Namespace};
use shape_cache::property::{Property, PropertyInfo, PropertyType};
use shape_cache::shape::{Shape, ShapeManager};
use shape_cache::value::Value;

fn slot(name: u32, ns: &[u32], slot_id: u32) -> PropertyInfo {
    PropertyInfo::new(
        Name(name),
        ns.iter().map(|n| Namespace(*n)).collect(),
        PropertyType::Property(Property::Slot { slot_id }),
    )
}

fn constant(name: u32, ns: &[u32], v: Value) -> PropertyInfo {
    PropertyInfo::new(
        Name(name),
        ns.iter().map(|n| Namespace(*n)).collect(),
        PropertyType::Value(v),
    )
}

#[test]
fn intern_same_set_twice_yields_same_id() {
    let mut m = ShapeManager::new();
    let id1 = m.get_shape_id(vec![slot(1, &[10], 0), slot(2, &[10], 1)]);
    let id2 = m.get_shape_id(vec![slot(1, &[10], 0), slot(2, &[10], 1)]);
    assert_eq!(id1, id2);
    assert_eq!(m.shapes.len(), 1);
}

#[test]
fn intern_distinct_sets_yields_distinct_ids() {
    let mut m = ShapeManager::new();
    let id1 = m.get_shape_id(vec![slot(1, &[10], 0)]);
    let id2 = m.get_shape_id(vec![slot(2, &[10], 0)]);
    let id3 = m.get_shape_id(vec![slot(1, &[10], 0), slot(2, &[10], 1)]);
    assert_ne!(id1, id2);
    assert_ne!(id1, id3);
    assert_ne!(id2, id3);
    assert_eq!(m.shapes.len(), 3);
}

#[test]
fn intern_is_order_sensitive() {
    let mut m = ShapeManager::new();
    let id1 = m.get_shape_id(vec![slot(1, &[10], 0), slot(2, &[10], 1)]);
    let id2 = m.get_shape_id(vec![slot(2, &[10], 1), slot(1, &[10], 0)]);
    assert_ne!(id1, id2);
}

#[test]
fn intern_empty_set() {
    let mut m = ShapeManager::new();
    let id1 = m.get_shape_id(Vec::new());
    let id2 = m.get_shape_id(Vec::new());
    assert_eq!(id1, id2);
    assert_eq!(m.shapes.len(), 1);
}

#[test]
fn add_property_with_existing_name_is_noop() {
    let mut m = ShapeManager::new();
    let id = m.get_shape_id(vec![slot(1, &[10], 0)]);
    let shapes_before = m.shapes.len();
    // Same name under other namespaces and another descriptor: still a no-op.
    let id2 = m.add_property(id, slot(1, &[99], 7));
    assert_eq!(id2, id);
    assert_eq!(m.shapes.len(), shapes_before);
}

#[test]
fn add_property_with_new_name_interns_extended_shape() {
    let mut m = ShapeManager::new();
    let id = m.get_shape_id(vec![slot(1, &[10], 0)]);
    let id2 = m.add_property(id, slot(2, &[10], 1));
    assert_ne!(id2, id);
    assert_eq!(m.shapes.len(), 2);
    // The original shape is unchanged: it still resolves only its own name.
    let q2 = Multiname::new(Some(Name(2)), vec![Namespace(10)]);
    assert!(m.get_for_multiname(id, &q2).is_none());
    assert!(m.get_for_multiname(id2, &q2).is_some());
}

#[test]
fn add_property_transitions_deduplicate() {
    let mut m = ShapeManager::new();
    let id = m.get_shape_id(vec![slot(1, &[10], 0)]);
    // Extending the same shape by the same property twice interns one shape.
    let id2 = m.add_property(id, slot(2, &[10], 1));
    let id3 = m.add_property(id, slot(2, &[10], 1));
    assert_eq!(id2, id3);
    assert_eq!(m.shapes.len(), 2);
    // The extended shape equals a directly interned one.
    let id4 = m.get_shape_id(vec![slot(1, &[10], 0), slot(2, &[10], 1)]);
    assert_eq!(id2, id4);
}

#[test]
fn lookup_returns_first_declared_match() {
    let mut m = ShapeManager::new();
    // Two properties, different names, overlapping namespace sets.
    let id = m.get_shape_id(vec![slot(1, &[10, 11], 0), slot(2, &[11, 12], 1)]);
    // A query that matches exactly one entry returns that entry.
    let q = Multiname::new(Some(Name(2)), vec![Namespace(12)]);
    let found = m.get_for_multiname(id, &q).expect("name 2 resolves in namespace 12");
    assert_eq!(found.name, Name(2));
    assert_eq!(found.property, PropertyType::Property(Property::Slot { slot_id: 1 }));
}

#[test]
fn lookup_respects_declaration_order() {
    let mut m = ShapeManager::new();
    let id = m.get_shape_id(vec![slot(1, &[10], 0), slot(2, &[10], 1)]);
    // Both entries live in namespace 10; each name resolves to its own entry.
    let q1 = Multiname::new(Some(Name(1)), vec![Namespace(10)]);
    let q2 = Multiname::new(Some(Name(2)), vec![Namespace(10)]);
    assert_eq!(
        m.get_for_multiname(id, &q1).unwrap().property,
        PropertyType::Property(Property::Slot { slot_id: 0 })
    );
    assert_eq!(
        m.get_for_multiname(id, &q2).unwrap().property,
        PropertyType::Property(Property::Slot { slot_id: 1 })
    );
}

#[test]
fn lookup_misses_on_disjoint_namespaces() {
    let mut m = ShapeManager::new();
    let id = m.get_shape_id(vec![slot(1, &[10], 0)]);
    let q = Multiname::new(Some(Name(1)), vec![Namespace(11)]);
    assert!(m.get_for_multiname(id, &q).is_none());
}

#[test]
fn lookup_misses_on_unknown_name() {
    let mut m = ShapeManager::new();
    let id = m.get_shape_id(vec![slot(1, &[10], 0)]);
    let q = Multiname::new(Some(Name(3)), vec![Namespace(10)]);
    assert!(m.get_for_multiname(id, &q).is_none());
}

#[test]
fn shapes_compare_structurally_not_by_identity() {
    let a = Shape::new_with_properties(vec![slot(1, &[10], 0)]);
    let b = Shape::new_with_properties(vec![slot(1, &[10], 0)]);
    let c = Shape::new_with_properties(vec![slot(1, &[11], 0)]);
    let d = Shape::new_with_properties(vec![slot(1, &[10], 0), slot(2, &[10], 1)]);
    assert!(a == b);
    assert!(a != c);
    assert!(a != d);
}

#[test]
fn shape_level_constants_resolve() {
    let mut m = ShapeManager::new();
    let id = m.get_shape_id(vec![constant(5, &[10], Value::Int(42))]);
    let q = Multiname::new(Some(Name(5)), vec![Namespace(10)]);
    let found = m.get_for_multiname(id, &q).unwrap();
    assert_eq!(found.property, PropertyType::Value(Value::Int(42)));
}
