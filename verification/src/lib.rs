//! Relaxed memory operations whose required ordering is declared, by name,
//! as edges of a graph.
//!
//! A program labels the memory operations that matter with action names,
//! declares edges between names, and pushes: the actions and edges gathered
//! since the last push go out as one request to the pass that puts in the
//! synchronization that the edges ask for, and no more.

pub mod cell;
pub mod edge;
pub mod graph;
pub mod interner;
pub mod model;
pub mod name;
pub mod semantics;
pub mod visibility;

pub use cell::{AtomicBool, AtomicIsize, AtomicPtr, AtomicUsize};
pub use edge::{Edge, EdgeKind};
pub use graph::{ActionHandle, Error, Graph, Request};
pub use name::Name;
