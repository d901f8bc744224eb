//! A host monitoring agent's core: it compares snapshots of watched resources,
//! turns every changed line into a canonical answer, and decides what to keep.

pub mod canonical;
pub mod differ;
pub mod keys;
pub mod normalize;
pub mod order;
pub mod schedule;
pub mod text;
pub mod watcher;
