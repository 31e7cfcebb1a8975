//! Feature-carrying nodes, plain and directed hyperedges, and the hypergraphs made
//! of them.

use vstd::prelude::*;
use std::collections::HashSet;
use vstd::std_specs::cmp::PartialEqSpecImpl;
use crate::interfaces::edge::{
    collect_set, DirectedHyperedge, Hyperedge, IdVector, NodeSet, NodeSetPair,
};
use rand::rngs::StdRng;
use crate::generator::ExactClone;
use crate::generator::hypergraph::{distinct_positions, NodeSample};
use crate::interfaces::graph::SingleId;
use crate::interfaces::hypergraph::{
    shown, member_lists, ContainedHyperedge, DirectedHypergraph, Hypergraph, Neighbor, Precursor,
    Successor,
};
use crate::interfaces::typed::Type;
use crate::interfaces::vertex::Vertex;

verus! {

/// The number of components of a descriptor.
pub const DESC_LEN: usize = 16;

/// A feature vector of sixteen reals, each held as the bit pattern of a 64-bit
/// IEEE 754 number. Two descriptors are equal when their bit patterns are.
#[derive(Clone, Copy, Debug, Hash)]
pub struct Desc {
    bits: [u64; 16],
}

impl View for Desc {
    type V = Seq<u64>;

    closed spec fn view(&self) -> Seq<u64> {
        self.bits@
    }
}

impl Desc {
    /// The descriptor with the given component bit patterns.
    pub fn from_bits(bits: [u64; 16]) -> (d: Desc)
        ensures
            d@ == bits@,
    {
        Desc { bits }
    }

    /// The component bit patterns.
    pub fn to_bits(&self) -> (bits: [u64; 16])
        ensures
            bits@ == self@,
    {
        self.bits
    }

    /// The bit pattern of component `i`.
    pub fn component(&self, i: usize) -> (c: u64)
        requires
            i < DESC_LEN,
        ensures
            c == self@[i as int],
    {
        self.bits[i]
    }

    /// A descriptor has sixteen components.
    pub proof fn lemma_len(&self)
        ensures
            self@.len() == DESC_LEN,
    {
    }
}

impl PartialEq for Desc {
    fn eq(&self, other: &Self) -> (b: bool) {
        let mut i: usize = 0;
        while i < 16
            invariant
                i <= 16,
                forall|q: int| 0 <= q < i ==> self@[q] == other@[q],
            decreases 16 - i,
        {
            if self.bits[i] != other.bits[i] {
                return false;
            }
            i += 1;
        }
        assert(self@ =~= other@);
        true
    }
}

impl Eq for Desc {

}

impl PartialEqSpecImpl for Desc {
    open spec fn obeys_eq_spec() -> bool {
        true
    }

    open spec fn eq_spec(&self, other: &Self) -> bool {
        self@ == other@
    }
}

/// The cluster type of a node.
#[derive(Clone, Copy, Debug, PartialEq, Eq, Structural, Hash)]
pub struct NodeType(pub usize);

impl NodeType {
    /// The cluster type with the given identity.
    pub fn new(id: usize) -> (t: NodeType)
        ensures
            t.0 == id,
    {
        NodeType(id)
    }
}

impl Type for NodeType {
    open spec fn type_id_spec(&self) -> usize {
        self.0
    }

    fn type_id(&self) -> (r: usize) {
        self.0
    }
}

/// A node: an id, a cluster type and a descriptor. Its identity is the id.
#[derive(Debug, PartialEq, Eq, Hash)]
pub struct Node {
    id: usize,
    node_type: NodeType,
    desc: Desc,
}

impl Node {
    /// The node with the given id, cluster type and descriptor.
    pub fn new(id: usize, node_type: NodeType, desc: Desc) -> (n: Node)
        ensures
            n.id_spec() == id,
            n.type_spec() == node_type,
            n.desc_spec() == desc,
    {
        Node { id, node_type, desc }
    }

    /// The cluster type, as a mathematical value.
    pub closed spec fn type_spec(&self) -> NodeType {
        self.node_type
    }

    /// The descriptor, as a mathematical value.
    pub closed spec fn desc_spec(&self) -> Desc {
        self.desc
    }

    /// The cluster type.
    pub fn node_type(&self) -> (t: NodeType)
        ensures
            t == self.type_spec(),
    {
        self.node_type
    }

    /// The descriptor.
    pub fn desc(&self) -> (d: Desc)
        ensures
            d == self.desc_spec(),
    {
        self.desc
    }
}

impl Node {
    /// Relabelling changes the id and nothing else.
    pub proof fn lemma_relabelled(self, id: usize)
        ensures
            self.relabelled(id).id_spec() == id,
            self.relabelled(id).type_spec() == self.type_spec(),
            self.relabelled(id).desc_spec() == self.desc_spec(),
    {
    }
}

impl Clone for Node {
    fn clone(&self) -> (n: Self)
        ensures
            n == *self,
    {
        Node { id: self.id, node_type: self.node_type, desc: self.desc }
    }
}

impl SingleId for Node {
    closed spec fn id_spec(&self) -> usize {
        self.id
    }

    fn id(&self) -> (r: usize) {
        self.id
    }
}

impl Vertex for Node {
    closed spec fn relabelled(self, id: usize) -> Self {
        Node { id, node_type: self.node_type, desc: self.desc }
    }

    fn with_id(self, id: usize) -> (r: Self)
        ensures
            r.type_spec() == self.type_spec(),
            r.desc_spec() == self.desc_spec(),
    {
        Node { id, node_type: self.node_type, desc: self.desc }
    }
}

/// A copy of `v`.
pub fn copy_ids(v: &Vec<usize>) -> (r: Vec<usize>)
    ensures
        r@ == v@,
{
    let mut r: Vec<usize> = Vec::new();
    let mut i: usize = 0;
    while i < v.len()
        invariant
            i <= v.len(),
            r@ == v@.subrange(0, i as int),
        decreases v.len() - i,
    {
        r.push(v[i]);
        assert(r@ =~= v@.subrange(0, i + 1));
        i += 1;
    }
    assert(v@.subrange(0, v@.len() as int) =~= v@);
    r
}

/// A hyperedge that is the list of its member ids.
#[derive(Debug, PartialEq, Eq, Hash)]
pub struct HyperedgeImpl {
    nodes: Vec<usize>,
}

impl Clone for HyperedgeImpl {
    fn clone(&self) -> (e: Self)
        ensures
            e.ids() == self.ids(),
    {
        HyperedgeImpl { nodes: copy_ids(&self.nodes) }
    }
}

impl IdVector for HyperedgeImpl {
    closed spec fn ids(&self) -> Seq<usize> {
        self.nodes@
    }

    fn id(&self) -> (v: Vec<usize>) {
        copy_ids(&self.nodes)
    }
}

impl Hyperedge for HyperedgeImpl {
    fn id_set(&self) -> (s: HashSet<usize>) {
        collect_set(&self.nodes)
    }
}

impl NodeSet for HyperedgeImpl {
    fn from_nodes(nodes: Vec<usize>) -> (e: Self) {
        HyperedgeImpl { nodes }
    }
}

/// A hyperedge from a list of source ids to a list of destination ids.
#[derive(Debug, PartialEq, Eq, Hash)]
pub struct DirectedHyperedgeImpl {
    src: Vec<usize>,
    dst: Vec<usize>,
}

impl Clone for DirectedHyperedgeImpl {
    fn clone(&self) -> (e: Self)
        ensures
            e.src_ids() == self.src_ids(),
            e.dst_ids() == self.dst_ids(),
            e.ids() == self.ids(),
    {
        DirectedHyperedgeImpl { src: copy_ids(&self.src), dst: copy_ids(&self.dst) }
    }
}

impl DirectedHyperedgeImpl {
    /// The source ids, in order.
    pub fn sources(&self) -> (v: Vec<usize>)
        ensures
            v@ == self.src_ids(),
    {
        copy_ids(&self.src)
    }

    /// The destination ids, in order.
    pub fn destinations(&self) -> (v: Vec<usize>)
        ensures
            v@ == self.dst_ids(),
    {
        copy_ids(&self.dst)
    }
}

impl IdVector for DirectedHyperedgeImpl {
    closed spec fn ids(&self) -> Seq<usize> {
        self.src@ + self.dst@
    }

    fn id(&self) -> (v: Vec<usize>) {
        let mut v = copy_ids(&self.src);
        let mut i: usize = 0;
        while i < self.dst.len()
            invariant
                i <= self.dst.len(),
                v@ == self.src@ + self.dst@.subrange(0, i as int),
            decreases self.dst.len() - i,
        {
            v.push(self.dst[i]);
            assert(v@ =~= self.src@ + self.dst@.subrange(0, i + 1));
            i += 1;
        }
        assert(self.dst@.subrange(0, self.dst@.len() as int) =~= self.dst@);
        v
    }
}

impl Hyperedge for DirectedHyperedgeImpl {
    fn id_set(&self) -> (s: HashSet<usize>) {
        let all = self.id();
        collect_set(&all)
    }
}

impl DirectedHyperedge for DirectedHyperedgeImpl {
    closed spec fn src_ids(&self) -> Seq<usize> {
        self.src@
    }

    closed spec fn dst_ids(&self) -> Seq<usize> {
        self.dst@
    }

    proof fn members_are_endpoints(&self) {
    }

    fn src(&self) -> (s: HashSet<usize>) {
        collect_set(&self.src)
    }

    fn dst(&self) -> (s: HashSet<usize>) {
        collect_set(&self.dst)
    }
}

impl NodeSetPair for DirectedHyperedgeImpl {
    fn from_nodes_pair(src: Vec<usize>, dst: Vec<usize>) -> (e: Self) {
        DirectedHyperedgeImpl { src, dst }
    }
}

/// References to the items of `v`, in order.
pub fn refs_of<T>(v: &Vec<T>) -> (r: Vec<&T>)
    ensures
        r@.len() == v@.len(),
        forall|p: int| 0 <= p < r@.len() ==> *#[trigger] r@[p] == v@[p],
{
    let mut r: Vec<&T> = Vec::new();
    let mut i: usize = 0;
    while i < v.len()
        invariant
            i <= v.len(),
            r@.len() == i,
            forall|p: int| 0 <= p < i ==> *#[trigger] r@[p] == v@[p],
        decreases v.len() - i,
    {
        r.push(&v[i]);
        i += 1;
    }
    r
}

/// A hypergraph of feature-carrying nodes and plain hyperedges.
#[derive(Debug, PartialEq, Eq, Hash)]
pub struct HypergraphImpl {
    nodes: Vec<Node>,
    edges: Vec<HyperedgeImpl>,
}

impl Hypergraph for HypergraphImpl {
    type Node = Node;

    type Edge = HyperedgeImpl;

    closed spec fn node_seq(&self) -> Seq<Node> {
        self.nodes@
    }

    closed spec fn edge_seq(&self) -> Seq<HyperedgeImpl> {
        self.edges@
    }

    fn new() -> (g: Self) {
        HypergraphImpl { nodes: Vec::new(), edges: Vec::new() }
    }

    fn nodes(&self) -> (v: Vec<&Node>) {
        refs_of(&self.nodes)
    }

    fn hyperedges(&self) -> (v: Vec<&HyperedgeImpl>) {
        refs_of(&self.edges)
    }

    fn add_node(&mut self, node: Node) {
        self.nodes.push(node);
    }

    fn add_hyperedge(&mut self, edge: HyperedgeImpl) {
        self.edges.push(edge);
    }
}

impl Clone for HypergraphImpl {
    fn clone(&self) -> (g: Self)
        ensures
            g.node_seq() == self.node_seq(),
            member_lists(g.edge_seq()) == member_lists(self.edge_seq()),
    {
        let mut nodes: Vec<Node> = Vec::new();
        let mut p: usize = 0;
        while p < self.nodes.len()
            invariant
                p <= self.nodes.len(),
                nodes@ == self.nodes@.subrange(0, p as int),
            decreases self.nodes.len() - p,
        {
            nodes.push(self.nodes[p].clone());
            assert(nodes@ =~= self.nodes@.subrange(0, p + 1));
            p += 1;
        }
        assert(self.nodes@.subrange(0, self.nodes@.len() as int) =~= self.nodes@);
        let mut edges: Vec<HyperedgeImpl> = Vec::new();
        let mut k: usize = 0;
        while k < self.edges.len()
            invariant
                k <= self.edges.len(),
                edges@.len() == k,
                forall|q: int| 0 <= q < k ==> (#[trigger] edges@[q]).ids() == self.edges@[q].ids(),
            decreases self.edges.len() - k,
        {
            edges.push(self.edges[k].clone());
            k += 1;
        }
        assert(member_lists(edges@) =~= member_lists(self.edges@));
        HypergraphImpl { nodes, edges }
    }
}

/// The number of nodes that one sample of a `HypergraphImpl` holds, where it has that
/// many.
pub const SAMPLE_SIZE: usize = 3;

/// `picked` holds the nodes at pairwise distinct positions of `nodes`.
pub open spec fn picked_apart(nodes: Seq<Node>, picked: Seq<Node>) -> bool {
    exists|at: Seq<usize>|
        {
            &&& at.len() == picked.len()
            &&& at.no_duplicates()
            &&& forall|i: int|
                0 <= i < at.len() ==> #[trigger] at[i] < nodes.len() && picked[i] == nodes[at[i] as int]
        }
}

impl NodeSample for HypergraphImpl {
    /// A sample holds `SAMPLE_SIZE` nodes from pairwise distinct positions, or all
    /// nodes where there are fewer.
    open spec fn admits(nodes: Seq<Node>, picked: Seq<Node>) -> bool {
        &&& picked.len() == if nodes.len() < SAMPLE_SIZE {
            nodes.len()
        } else {
            SAMPLE_SIZE as nat
        }
        &&& picked_apart(nodes, picked)
    }

    /// `SAMPLE_SIZE` nodes drawn uniformly without replacement, or all nodes in
    /// random order where there are fewer.
    fn sample(&self, rng: &mut StdRng) -> (picked: Vec<&Node>) {
        let length = self.nodes.len();
        let amount = if length < SAMPLE_SIZE {
            length
        } else {
            SAMPLE_SIZE
        };
        let at = distinct_positions(length, amount, rng);
        let mut picked: Vec<&Node> = Vec::new();
        let mut i: usize = 0;
        while i < at.len()
            invariant
                i <= at@.len(),
                picked@.len() == i,
                forall|q: int| 0 <= q < at@.len() ==> #[trigger] at@[q] < self.nodes@.len(),
                forall|q: int| 0 <= q < i ==> *#[trigger] picked@[q] == self.nodes@[at@[q] as int],
            decreases at.len() - i,
        {
            picked.push(&self.nodes[at[i]]);
            i += 1;
        }
        proof {
            assert(picked_apart(self.node_seq(), shown(picked@))) by {
                assert(at@.len() == shown(picked@).len());
                assert(forall|i: int|
                    0 <= i < at@.len() ==> #[trigger] at@[i] < self.nodes@.len() && shown(
                        picked@,
                    )[i] == self.nodes@[at@[i] as int]);
            }
            assert forall|i: int| 0 <= i < picked@.len() implies self.node_seq().contains(
                *#[trigger] picked@[i],
            ) by {
                assert(self.nodes@[at@[i] as int] == *picked@[i]);
            }
        }
        picked
    }
}

impl ExactClone for HypergraphImpl {
    proof fn lemma_clone_is_exact(&self, copy: Self) {
    }
}

impl Neighbor for HypergraphImpl {

}

impl ContainedHyperedge for HypergraphImpl {

}

/// A hypergraph of feature-carrying nodes and directed hyperedges.
#[derive(Debug, PartialEq, Eq, Hash)]
pub struct DirectedHypergraphImpl {
    nodes: Vec<Node>,
    edges: Vec<DirectedHyperedgeImpl>,
}

impl DirectedHypergraphImpl {
    /// The hypergraph without nodes and without hyperedges.
    pub fn new() -> (g: Self)
        ensures
            g.node_seq() == Seq::<Node>::empty(),
            g.edge_seq() == Seq::<DirectedHyperedgeImpl>::empty(),
    {
        DirectedHypergraphImpl { nodes: Vec::new(), edges: Vec::new() }
    }

    /// Appends a node; nothing is deduplicated.
    pub fn add_node(&mut self, node: Node)
        ensures
            final(self).node_seq() == old(self).node_seq().push(node),
            final(self).edge_seq() == old(self).edge_seq(),
    {
        self.nodes.push(node);
    }

    /// Appends a hyperedge.
    pub fn add_hyperedge(&mut self, edge: DirectedHyperedgeImpl)
        ensures
            final(self).node_seq() == old(self).node_seq(),
            final(self).edge_seq() == old(self).edge_seq().push(edge),
    {
        self.edges.push(edge);
    }
}

impl Hypergraph for DirectedHypergraphImpl {
    type Node = Node;

    type Edge = DirectedHyperedgeImpl;

    closed spec fn node_seq(&self) -> Seq<Node> {
        self.nodes@
    }

    closed spec fn edge_seq(&self) -> Seq<DirectedHyperedgeImpl> {
        self.edges@
    }

    fn new() -> (g: Self) {
        DirectedHypergraphImpl { nodes: Vec::new(), edges: Vec::new() }
    }

    fn nodes(&self) -> (v: Vec<&Node>) {
        refs_of(&self.nodes)
    }

    fn hyperedges(&self) -> (v: Vec<&DirectedHyperedgeImpl>) {
        refs_of(&self.edges)
    }

    fn add_node(&mut self, node: Node) {
        self.nodes.push(node);
    }

    fn add_hyperedge(&mut self, edge: DirectedHyperedgeImpl) {
        self.edges.push(edge);
    }
}

impl Clone for DirectedHypergraphImpl {
    fn clone(&self) -> (g: Self)
        ensures
            g.node_seq() == self.node_seq(),
            member_lists(g.edge_seq()) == member_lists(self.edge_seq()),
    {
        let mut nodes: Vec<Node> = Vec::new();
        let mut p: usize = 0;
        while p < self.nodes.len()
            invariant
                p <= self.nodes.len(),
                nodes@ == self.nodes@.subrange(0, p as int),
            decreases self.nodes.len() - p,
        {
            nodes.push(self.nodes[p].clone());
            assert(nodes@ =~= self.nodes@.subrange(0, p + 1));
            p += 1;
        }
        assert(self.nodes@.subrange(0, self.nodes@.len() as int) =~= self.nodes@);
        let mut edges: Vec<DirectedHyperedgeImpl> = Vec::new();
        let mut k: usize = 0;
        while k < self.edges.len()
            invariant
                k <= self.edges.len(),
                edges@.len() == k,
                forall|q: int| 0 <= q < k ==> (#[trigger] edges@[q]).ids() == self.edges@[q].ids(),
            decreases self.edges.len() - k,
        {
            edges.push(self.edges[k].clone());
            k += 1;
        }
        assert(member_lists(edges@) =~= member_lists(self.edges@));
        DirectedHypergraphImpl { nodes, edges }
    }
}

impl ExactClone for DirectedHypergraphImpl {
    proof fn lemma_clone_is_exact(&self, copy: Self) {
    }
}

impl DirectedHypergraph for DirectedHypergraphImpl {

}

impl Neighbor for DirectedHypergraphImpl {

}

impl Precursor for DirectedHypergraphImpl {

}

impl Successor for DirectedHypergraphImpl {

}

impl ContainedHyperedge for DirectedHypergraphImpl {

}

} // verus!
