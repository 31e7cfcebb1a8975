//! Concrete vertices, hyperedges and hypergraphs.

pub mod hypergraph;
pub mod clusters;
pub mod standard;
