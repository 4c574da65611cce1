//! Names, namespaces, and qualified names (multinames).
//!
//! The surrounding virtual machine interns property names and namespaces and
//! compares them by identity; this subsystem only ever asks whether two names
//! (or two namespaces) are the same. They are therefore carried here as plain
//! integer identities.

use vstd::prelude::*;

verus! {

/// An interned property name, compared by identity.
#[derive(Debug, Clone, Copy, PartialEq, Eq, Structural)]
pub struct Name(pub u32);

/// An interned namespace, compared by identity.
#[derive(Debug, Clone, Copy, PartialEq, Eq, Structural)]
pub struct Namespace(pub u32);

/// A qualified property reference: an optional local name plus the set of
/// candidate namespaces the reference may resolve in.
///
/// A multiname without a local name (a wildcard or attribute-only reference)
/// cannot be resolved by the shape fast path; resolving one is a caller error.
#[derive(Debug, Clone)]
pub struct Multiname {
    pub local_name: Option<Name>,
    pub ns_set: Vec<Namespace>,
}

impl Multiname {
    /// Builds a qualified reference from a local name and candidate namespaces.
    pub fn new(local_name: Option<Name>, ns_set: Vec<Namespace>) -> (r: Multiname)
        ensures
            r.local_name == local_name,
            r.ns_set@ == ns_set@,
    {
        Multiname { local_name, ns_set }
    }

    /// The local name, if the reference carries one.
    pub fn local_name(&self) -> (r: Option<Name>)
        ensures
            r == self.local_name,
    {
        self.local_name
    }
}

/// Whether a namespace set (of a declared property) intersects a lookup's
/// candidate namespace set.
pub open spec fn ns_sets_intersect(prop_ns: Seq<Namespace>, lookup_ns: Seq<Namespace>) -> bool {
    exists|i: int| 0 <= i < prop_ns.len() && lookup_ns.contains(prop_ns[i])
}

/// Decides whether any namespace of `prop_ns` occurs in `lookup_ns`.
pub fn ns_sets_intersect_exec(prop_ns: &Vec<Namespace>, lookup_ns: &Vec<Namespace>) -> (r: bool)
    ensures
        r == ns_sets_intersect(prop_ns@, lookup_ns@),
{
    let mut i: usize = 0;
    while i < prop_ns.len()
        invariant
            i <= prop_ns@.len(),
            forall|k: int| 0 <= k < i ==> !lookup_ns@.contains(prop_ns@[k]),
        decreases prop_ns@.len() - i,
    {
        if ns_set_contains(lookup_ns, prop_ns[i]) {
            return true;
        }
        i = i + 1;
    }
    false
}

/// Decides whether `ns` occurs in the namespace set `set`.
pub fn ns_set_contains(set: &Vec<Namespace>, ns: Namespace) -> (r: bool)
    ensures
        r == set@.contains(ns),
{
    let mut i: usize = 0;
    while i < set.len()
        invariant
            i <= set@.len(),
            forall|k: int| 0 <= k < i ==> set@[k] != ns,
        decreases set@.len() - i,
    {
        if set[i] == ns {
            return true;
        }
        i = i + 1;
    }
    false
}

} // verus!
