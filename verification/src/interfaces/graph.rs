//! Identity of vertices and endpoints of binary edges.

use vstd::prelude::*;
use crate::interfaces::vertex::Vertex;

verus! {

/// Something identified by a single integer.
pub trait SingleId {
    /// The identifier, as a mathematical value.
    spec fn id_spec(&self) -> usize;

    /// The identifier.
    fn id(&self) -> (r: usize)
        ensures
            r == self.id_spec(),
    ;
}

/// A binary edge, identified by the ids of its two endpoints.
pub trait IdPair {
    /// Source and destination id, as a mathematical value.
    spec fn pair_spec(&self) -> (usize, usize);

    /// Source and destination id.
    fn pair(&self) -> (r: (usize, usize))
        ensures
            r == self.pair_spec(),
    ;
}

/// A graph of binary edges: nodes and edges, each kept in insertion order.
pub trait Graph: Sized {
    type Node: Vertex;

    type Edge: IdPair;

    /// The nodes, in insertion order.
    spec fn node_seq(&self) -> Seq<Self::Node>;

    /// The edges, in insertion order.
    spec fn edge_seq(&self) -> Seq<Self::Edge>;

    /// The graph without nodes and without edges.
    fn new() -> (g: Self)
        ensures
            g.node_seq() == Seq::<Self::Node>::empty(),
            g.edge_seq() == Seq::<Self::Edge>::empty(),
    ;

    /// The nodes, in insertion order.
    fn nodes(&self) -> (v: Vec<&Self::Node>)
        ensures
            v@.len() == self.node_seq().len(),
            forall|p: int| 0 <= p < v@.len() ==> *#[trigger] v@[p] == self.node_seq()[p],
    ;

    /// The edges, in insertion order.
    fn edges(&self) -> (v: Vec<&Self::Edge>)
        ensures
            v@.len() == self.edge_seq().len(),
            forall|k: int| 0 <= k < v@.len() ==> *#[trigger] v@[k] == self.edge_seq()[k],
    ;

    /// Appends a node; nothing is deduplicated.
    fn add_node(&mut self, node: Self::Node)
        ensures
            final(self).node_seq() == old(self).node_seq().push(node),
            final(self).edge_seq() == old(self).edge_seq(),
    ;

    /// Appends an edge.
    fn add_edge(&mut self, edge: Self::Edge)
        ensures
            final(self).node_seq() == old(self).node_seq(),
            final(self).edge_seq() == old(self).edge_seq().push(edge),
    ;
}

/// A graph whose edges have a direction.
pub trait Directed {

}

} // verus!
