//! Exploration of directed graphs that are generated on the fly.
//!
//! A graph is never stored as a whole: it is queried through an evolution
//! operator that yields the successors of one vertex at a time. The generic
//! depth-first reachability procedure is written once against these contracts.

pub mod set;
pub mod graph;
pub mod algorithms;
pub mod simple;
