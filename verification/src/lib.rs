//! Hidden-class (shape) and inline-cache subsystem of a bytecode virtual
//! machine for a dynamically typed, class-based scripting language.
//!
//! Objects are classified by their structural layout: a [`shape::Shape`] is an
//! ordered set of named property descriptors shared by every object with the
//! same layout, and a [`shape::ShapeManager`] interns shapes under stable
//! integer identities. Per-call-site [`inline_cache::InlineCache`]s memoize
//! `(shape id, descriptor)` pairs so that repeated property accesses skip full
//! name resolution, and a per-object [`local_prop_cache::LocalPropertyCache`]
//! memoizes dynamic properties that live outside any shape.

pub mod inline_cache;
pub mod local_prop_cache;
pub mod names;
pub mod object;
pub mod property;
pub mod shape;
pub mod value;
