//! Runtime values and dynamic-property keys.
//!
//! The interpreter's value representation is an external collaborator; the
//! caches here only store values, hand them back, and compare keys. Heap
//! residents (objects, interned strings) are carried by identity.

use vstd::prelude::*;

verus! {

/// A runtime value as the caches see it: either an immediate, or a heap
/// resident identified by the handle the collector traces it under.
#[derive(Debug, Clone, Copy, PartialEq, Eq, Structural)]
pub enum Value {
    Undefined,
    Null,
    Bool(bool),
    Int(i64),
    /// An interned string, by identity.
    Str(u64),
    /// A heap object, by identity.
    Object(u64),
}

/// A key of a dynamic property: one added to a single object at runtime,
/// outside any declared shape.
#[derive(Debug, Clone, Copy, PartialEq, Eq, Structural)]
pub enum DynamicKey {
    /// An unsigned integer key.
    Uint(u32),
    /// An interned string key, by identity.
    Str(u64),
    /// An object key, by identity.
    Object(u64),
}

} // verus!
