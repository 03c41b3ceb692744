//! Convenience adapters over the standard hash containers.
//!
//! [`EasySet`] is a `HashSet` with set algebra (intersection, union,
//! symmetric difference, difference) and a subset ordering. [`EasyMap`] is a
//! `HashMap` that answers lookups of absent keys with a fallback value.
//!
//! Every contract is stated over the mathematical view of the container: a
//! `Set<K>` for the set, a `Map<K, V>` plus the fallback for the map. No
//! function has a precondition. What a contract says of the contents holds
//! for key types that the standard containers treat as plain values; the
//! module [`model`] names the conditions.
pub mod map;
pub mod model;
pub mod set;
pub mod set_ops;

pub use map::EasyMap;
pub use set::EasySet;
