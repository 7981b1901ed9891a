//! An in-memory multigraph builder: vertices and edges are created lazily,
//! repeated edges are deduplicated by a canonical name and counted, and
//! adjacency lists record one entry per endpoint touch.

pub mod graph;
pub mod naming;
