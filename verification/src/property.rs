//! Property descriptors: how a named property is physically realized.

use vstd::prelude::*;

use crate::names::{Name, Namespace};
use crate::value::Value;

verus! {

/// How a property backed by the object model is realized: a slot in the
/// owning object's local storage (mutable or write-once), an accessor pair,
/// or a bound class method.
#[derive(Debug, Clone, Copy, PartialEq, Eq, Structural)]
pub enum Property {
    /// A mutable field at `slot_id` of the owning object's local storage.
    Slot { slot_id: u32 },
    /// A write-once field at `slot_id` of the owning object's local storage.
    ConstSlot { slot_id: u32 },
    /// A computed property; either accessor may be absent. The ids are the
    /// dispatch ids of the getter and setter methods.
    Virtual { get: Option<u32>, set: Option<u32> },
    /// A bound class method exposed as a property value.
    Method { disp_id: u32 },
}

/// A property descriptor: either realized through the object model, or a
/// directly embedded constant value not backed by any slot.
#[derive(Debug, Clone, Copy, PartialEq, Eq, Structural)]
pub enum PropertyType {
    Property(Property),
    Value(Value),
}

/// One entry of a shape: a name, the set of namespaces the name is declared
/// in, and the descriptor saying how the property is realized.
#[derive(Debug, Clone)]
pub struct PropertyInfo {
    pub name: Name,
    pub ns: Vec<Namespace>,
    pub property: PropertyType,
}

/// The mathematical value of a [`PropertyInfo`]: the same triple with the
/// namespace set as a sequence.
pub ghost struct PropertyInfoV {
    pub name: Name,
    pub ns: Seq<Namespace>,
    pub property: PropertyType,
}

impl View for PropertyInfo {
    type V = PropertyInfoV;

    open spec fn view(&self) -> PropertyInfoV {
        PropertyInfoV { name: self.name, ns: self.ns@, property: self.property }
    }
}

impl PropertyInfo {
    pub fn new(name: Name, ns: Vec<Namespace>, property: PropertyType) -> (r: PropertyInfo)
        ensures
            r@ == (PropertyInfoV { name, ns: ns@, property }),
    {
        PropertyInfo { name, ns, property }
    }

    pub fn name(&self) -> (r: Name)
        ensures
            r == self@.name,
    {
        self.name
    }

    pub fn ns(&self) -> (r: &Vec<Namespace>)
        ensures
            r@ == self@.ns,
    {
        &self.ns
    }

    pub fn property(&self) -> (r: &PropertyType)
        ensures
            *r == self@.property,
    {
        &self.property
    }
}

/// Decides whether two shape entries are structurally equal: same name, same
/// namespace sequence, same descriptor.
pub fn property_info_eq(a: &PropertyInfo, b: &PropertyInfo) -> (r: bool)
    ensures
        r == (a@ == b@),
{
    if a.name != b.name {
        return false;
    }
    if a.property != b.property {
        return false;
    }
    if a.ns.len() != b.ns.len() {
        return false;
    }
    let mut i: usize = 0;
    while i < a.ns.len()
        invariant
            a.ns@.len() == b.ns@.len(),
            i <= a.ns@.len(),
            forall|k: int| 0 <= k < i ==> a.ns@[k] == b.ns@[k],
        decreases a.ns@.len() - i,
    {
        if a.ns[i] != b.ns[i] {
            return false;
        }
        i = i + 1;
    }
    proof {
        assert(a.ns@ =~= b.ns@);
    }
    true
}

/// Copies a shape entry; the copy has the same mathematical value.
pub fn clone_property_info(p: &PropertyInfo) -> (r: PropertyInfo)
    ensures
        r@ == p@,
{
    let mut ns: Vec<Namespace> = Vec::new();
    let mut i: usize = 0;
    while i < p.ns.len()
        invariant
            i <= p.ns@.len(),
            ns@ == p.ns@.subrange(0, i as int),
        decreases p.ns@.len() - i,
    {
        ns.push(p.ns[i]);
        proof {
            assert(ns@ =~= p.ns@.subrange(0, i + 1 as int));
        }
        i = i + 1;
    }
    proof {
        assert(ns@ =~= p.ns@);
    }
    PropertyInfo { name: p.name, ns, property: p.property }
}

} // verus!
