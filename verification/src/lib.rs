//! A read-only, race-aware view layer over a document tree held in an arena.
//!
//! The document owns its nodes; layout code only ever holds small handles
//! (`LayoutNode`, `LayoutElement`, `ThreadSafeLayoutNode`) that name a node by
//! its arena index together with the pass in which the handle was made.

pub mod ancestry;
pub mod dom;
pub mod element;
pub mod iter;
pub mod node;
pub mod opaque;
pub mod style;
pub mod thread_safe;
pub mod traversal;
