//! Capability traits for vertices, hyperedges and hypergraphs.

pub mod graph;
pub mod typed;
pub mod vertex;
pub mod edge;
pub mod relations;
pub mod hypergraph;
pub mod labeled;
