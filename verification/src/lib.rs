//! Core of an in-process state-management engine: a tree-structured
//! document store with path-indexed access, snapshots, batched updates,
//! per-container memory pools, a security gate, metrics, and a runtime
//! selector.

pub mod codec;
pub mod container;
pub mod errors;
pub mod ident;
pub mod memory;
pub mod metrics;
pub mod path;
pub mod runtime;
pub mod security;
pub mod store;
pub mod value;
