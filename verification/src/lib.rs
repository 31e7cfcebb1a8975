//! Attributed hypergraphs: node and hyperedge interfaces, derived traversal
//! indices, a cluster registry for node features, and random growth.

pub mod interfaces;
pub mod impls;
pub mod generator;
