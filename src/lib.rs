//! Reconciliation core of a declarative UI framework: an identity allocator
//! for fiber nodes, the node kinds that a tree walker queries, fiber records
//! with key-first matching of children across renders, and an arena that
//! holds fibers by identity handle.
pub mod allocator;
pub mod components;
pub mod fiber;
pub mod tree;
