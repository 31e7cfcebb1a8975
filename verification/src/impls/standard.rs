//! Labelled nodes and edges, and two graphs made of them.

use vstd::prelude::*;
use crate::impls::hypergraph::refs_of;
use crate::interfaces::graph::{Directed, Graph, IdPair, SingleId};
use crate::interfaces::labeled::{HyperLabeled, Label, Labeled, LabeledAdjacency};
use crate::interfaces::vertex::Vertex;

verus! {

/// A node with an id and a label.
#[derive(Hash, Eq, PartialEq, Clone)]
pub struct LabelNode<L: Label> {
    id: u64,
    label: L,
}

impl<L: Label> LabelNode<L> {
    /// The node with the given id and label.
    pub fn new(id: u64, label: L) -> (n: Self)
        ensures
            n.raw_id() == id,
            n.label_value() == label,
            n.id_spec() == id as usize,
            n.label_spec() == label.label_spec(),
    {
        LabelNode { id, label }
    }

    /// The id as it was given.
    pub closed spec fn raw_id(&self) -> u64 {
        self.id
    }

    /// The label, as a mathematical value.
    pub closed spec fn label_value(&self) -> L {
        self.label
    }

    /// The label.
    pub fn label_ref(&self) -> (l: &L)
        ensures
            *l == self.label_value(),
    {
        &self.label
    }

    /// The id of a node is the id it was given, cut to the machine's word; its text is
    /// that of its label.
    pub proof fn lemma_parts(&self)
        ensures
            self.id_spec() == self.raw_id() as usize,
            self.label_spec() == self.label_value().label_spec(),
    {
    }

    /// Relabelling changes the id and nothing else.
    pub proof fn lemma_relabelled(self, id: usize)
        ensures
            self.relabelled(id).id_spec() == id,
            self.relabelled(id).label_value() == self.label_value(),
    {
    }
}

impl<L: Label> SingleId for LabelNode<L> {
    closed spec fn id_spec(&self) -> usize {
        self.id as usize
    }

    fn id(&self) -> (r: usize) {
        #[verifier::truncate]
        (self.id as usize)
    }
}

impl<L: Label> Label for LabelNode<L> {
    closed spec fn label_spec(&self) -> Seq<char> {
        self.label.label_spec()
    }

    fn label(&self) -> (s: &str) {
        self.label.label()
    }
}

impl<L: Label> Vertex for LabelNode<L> {
    closed spec fn relabelled(self, id: usize) -> Self {
        LabelNode { id: id as u64, label: self.label }
    }

    fn with_id(self, id: usize) -> (r: Self) {
        LabelNode { id: id as u64, label: self.label }
    }
}

/// A binary edge with a label.
#[derive(Hash, Eq, PartialEq, Clone)]
pub struct LabeledEdge<L: Label> {
    src: u64,
    dst: u64,
    label: L,
}

impl<L: Label> LabeledEdge<L> {
    /// The edge from `src` to `dst` with the given label.
    pub fn new(src: u64, dst: u64, label: L) -> (e: Self)
        ensures
            e.raw_pair() == (src, dst),
            e.label_value() == label,
            e.pair_spec() == (src as usize, dst as usize),
            e.label_spec() == label.label_spec(),
    {
        LabeledEdge { src, dst, label }
    }

    /// The endpoint ids as they were given.
    pub closed spec fn raw_pair(&self) -> (u64, u64) {
        (self.src, self.dst)
    }

    /// The label, as a mathematical value.
    pub closed spec fn label_value(&self) -> L {
        self.label
    }

    /// The label.
    pub fn label_ref(&self) -> (l: &L)
        ensures
            *l == self.label_value(),
    {
        &self.label
    }

    /// The endpoints of an edge are the ids it was given, cut to the machine's word;
    /// its text is that of its label.
    pub proof fn lemma_parts(&self)
        ensures
            self.pair_spec() == (self.raw_pair().0 as usize, self.raw_pair().1 as usize),
            self.label_spec() == self.label_value().label_spec(),
    {
    }
}

impl<L: Label> IdPair for LabeledEdge<L> {
    closed spec fn pair_spec(&self) -> (usize, usize) {
        (self.src as usize, self.dst as usize)
    }

    fn pair(&self) -> (r: (usize, usize)) {
        (#[verifier::truncate] (self.src as usize), #[verifier::truncate] (self.dst as usize))
    }
}

impl<L: Label> Label for LabeledEdge<L> {
    closed spec fn label_spec(&self) -> Seq<char> {
        self.label.label_spec()
    }

    fn label(&self) -> (s: &str) {
        self.label.label()
    }
}

/// The label that says nothing: there is one such label, and its text is empty.
#[derive(Hash, PartialEq, Eq)]
pub struct SingleLabel(());

impl Clone for SingleLabel {
    fn clone(&self) -> (l: Self)
        ensures
            l == *self,
    {
        SingleLabel(())
    }
}

impl SingleLabel {
    /// The label that says nothing.
    pub fn new() -> SingleLabel {
        SingleLabel(())
    }
}

impl Label for SingleLabel {
    open spec fn label_spec(&self) -> Seq<char> {
        Seq::empty()
    }

    fn label(&self) -> (s: &str) {
        proof {
            reveal_strlit("");
        }
        ""
    }
}

/// A directed graph of labelled nodes and labelled edges.
pub struct SimpleLabeledGraph<L1: Label, L2: Label> {
    nodes: Vec<LabelNode<L1>>,
    edges: Vec<LabeledEdge<L2>>,
}

/// The graph whose nodes carry text and whose edges carry nothing.
pub type StandardLabeledGraph = SimpleLabeledGraph<String, SingleLabel>;

impl Graph for StandardLabeledGraph {
    type Node = LabelNode<String>;

    type Edge = LabeledEdge<SingleLabel>;

    closed spec fn node_seq(&self) -> Seq<LabelNode<String>> {
        self.nodes@
    }

    closed spec fn edge_seq(&self) -> Seq<LabeledEdge<SingleLabel>> {
        self.edges@
    }

    fn new() -> (g: Self) {
        SimpleLabeledGraph { nodes: Vec::new(), edges: Vec::new() }
    }

    fn nodes(&self) -> (v: Vec<&LabelNode<String>>) {
        refs_of(&self.nodes)
    }

    fn edges(&self) -> (v: Vec<&LabeledEdge<SingleLabel>>) {
        refs_of(&self.edges)
    }

    fn add_node(&mut self, node: LabelNode<String>) {
        self.nodes.push(node);
    }

    fn add_edge(&mut self, edge: LabeledEdge<SingleLabel>) {
        self.edges.push(edge);
    }
}

impl Labeled for StandardLabeledGraph {
    type NodeLabel = String;

    type EdgeLabel = SingleLabel;

    open spec fn label_of(node: LabelNode<String>) -> String {
        node.label_value()
    }

    open spec fn edge_label_of(edge: LabeledEdge<SingleLabel>) -> SingleLabel {
        edge.label_value()
    }

    open spec fn comparable(&self) -> bool {
        true
    }

    /// The two nodes carry the same text.
    fn label_same(&self, node: &LabelNode<String>, label: &LabelNode<String>) -> (b: bool)
        ensures
            b == (node.label_value()@ == label.label_value()@),
    {
        node.label == label.label
    }

    fn get_label<'a>(&'a self, node: &'a LabelNode<String>) -> (l: &'a String)
        ensures
            *l == node.label_value(),
    {
        &node.label
    }

    fn get_edge_label<'a>(&'a self, edge: &'a LabeledEdge<SingleLabel>) -> (l: &'a SingleLabel)
        ensures
            *l == edge.label_value(),
    {
        &edge.label
    }

    fn edge_label_same(&self, edge1: &LabeledEdge<SingleLabel>, edge2: &LabeledEdge<SingleLabel>) -> (b:
        bool)
        ensures
            b,
    {
        true
    }

    fn edge_node_label_same(
        &self,
        src1: &LabelNode<String>,
        edge1: &LabeledEdge<SingleLabel>,
        dst1: &LabelNode<String>,
        src2: &LabelNode<String>,
        edge2: &LabeledEdge<SingleLabel>,
        dst2: &LabelNode<String>,
    ) -> (b: bool)
        ensures
            b,
    {
        true
    }
}

impl Directed for StandardLabeledGraph {

}

impl LabeledAdjacency for StandardLabeledGraph {

}

impl StandardLabeledGraph {
    /// The graph without nodes and without edges.
    pub fn new() -> (g: Self)
        ensures
            g.node_seq() == Seq::<LabelNode<String>>::empty(),
            g.edge_seq() == Seq::<LabeledEdge<SingleLabel>>::empty(),
    {
        SimpleLabeledGraph { nodes: Vec::new(), edges: Vec::new() }
    }

    /// Appends the node with the given id and label.
    pub fn add_node(&mut self, id: u64, label: String)
        ensures
            final(self).node_seq().len() == old(self).node_seq().len() + 1,
            final(self).node_seq().drop_last() == old(self).node_seq(),
            final(self).node_seq().last().raw_id() == id,
            final(self).node_seq().last().label_value() == label,
            final(self).node_seq().last().id_spec() == id as usize,
            final(self).node_seq().last().label_spec() == label@,
            final(self).edge_seq() == old(self).edge_seq(),
    {
        let ghost before = self.nodes@;
        self.nodes.push(LabelNode { id, label });
        assert(self.nodes@.drop_last() =~= before);
    }

    /// Appends the edge from `src` to `dst`.
    pub fn add_edge(&mut self, src: u64, dst: u64)
        ensures
            final(self).edge_seq().len() == old(self).edge_seq().len() + 1,
            final(self).edge_seq().drop_last() == old(self).edge_seq(),
            final(self).edge_seq().last().raw_pair() == (src, dst),
            final(self).edge_seq().last().pair_spec() == (src as usize, dst as usize),
            final(self).edge_seq().last().label_spec() == Seq::<char>::empty(),
            final(self).node_seq() == old(self).node_seq(),
    {
        let ghost before = self.edges@;
        self.edges.push(LabeledEdge { src, dst, label: SingleLabel(()) });
        assert(self.edges@.drop_last() =~= before);
    }
}

/// A directed graph of labelled nodes whose user decides, by a test of type `F`, when
/// two labels count as the same.
pub struct HyperLabelGraph<L: Label, F: Fn(&L, &L) -> bool> {
    nodes: Vec<LabelNode<L>>,
    edges: Vec<LabeledEdge<SingleLabel>>,
    same_label_fn: Option<F>,
}

impl<L: Label, F: Fn(&L, &L) -> bool> HyperLabelGraph<L, F> {
    /// The test that was set, if one was.
    pub closed spec fn same_label_spec(&self) -> Option<F> {
        self.same_label_fn
    }

    /// The graph without nodes, without edges and without a test.
    pub fn new() -> (g: Self)
        ensures
            g.node_seq() == Seq::<LabelNode<L>>::empty(),
            g.edge_seq() == Seq::<LabeledEdge<SingleLabel>>::empty(),
            g.same_label_spec().is_none(),
            !g.comparable(),
    {
        HyperLabelGraph { nodes: Vec::new(), edges: Vec::new(), same_label_fn: None }
    }
}

impl<L: Label, F: Fn(&L, &L) -> bool> Graph for HyperLabelGraph<L, F> {
    type Node = LabelNode<L>;

    type Edge = LabeledEdge<SingleLabel>;

    closed spec fn node_seq(&self) -> Seq<LabelNode<L>> {
        self.nodes@
    }

    closed spec fn edge_seq(&self) -> Seq<LabeledEdge<SingleLabel>> {
        self.edges@
    }

    fn new() -> (g: Self) {
        HyperLabelGraph { nodes: Vec::new(), edges: Vec::new(), same_label_fn: None }
    }

    fn nodes(&self) -> (v: Vec<&LabelNode<L>>) {
        refs_of(&self.nodes)
    }

    fn edges(&self) -> (v: Vec<&LabeledEdge<SingleLabel>>) {
        refs_of(&self.edges)
    }

    fn add_node(&mut self, node: LabelNode<L>) {
        self.nodes.push(node);
    }

    fn add_edge(&mut self, edge: LabeledEdge<SingleLabel>) {
        self.edges.push(edge);
    }
}

impl<L: Label, F: Fn(&L, &L) -> bool> Labeled for HyperLabelGraph<L, F> {
    type NodeLabel = L;

    type EdgeLabel = SingleLabel;

    open spec fn label_of(node: LabelNode<L>) -> L {
        node.label_value()
    }

    open spec fn edge_label_of(edge: LabeledEdge<SingleLabel>) -> SingleLabel {
        edge.label_value()
    }

    /// A test has been set, and it accepts every pair of labels.
    open spec fn comparable(&self) -> bool {
        match self.same_label_spec() {
            Some(f) => forall|a: &L, b: &L| #[trigger] f.requires((a, b)),
            None => false,
        }
    }

    /// What the test says of the labels of the two nodes.
    fn label_same(&self, node: &LabelNode<L>, label: &LabelNode<L>) -> (b: bool)
        ensures
            self.same_label_spec().is_some(),
            self.same_label_spec().unwrap().ensures(
                (&node.label_value(), &label.label_value()),
                b,
            ),
    {
        match &self.same_label_fn {
            Some(f) => f(&node.label, &label.label),
            None => false,
        }
    }

    fn get_label<'a>(&'a self, node: &'a LabelNode<L>) -> (l: &'a L)
        ensures
            *l == node.label_value(),
    {
        &node.label
    }

    fn get_edge_label<'a>(&'a self, edge: &'a LabeledEdge<SingleLabel>) -> (l: &'a SingleLabel)
        ensures
            *l == edge.label_value(),
    {
        &edge.label
    }

    fn edge_label_same(&self, edge1: &LabeledEdge<SingleLabel>, edge2: &LabeledEdge<SingleLabel>) -> (b:
        bool)
        ensures
            b,
    {
        true
    }

    fn edge_node_label_same(
        &self,
        src1: &LabelNode<L>,
        edge1: &LabeledEdge<SingleLabel>,
        dst1: &LabelNode<L>,
        src2: &LabelNode<L>,
        edge2: &LabeledEdge<SingleLabel>,
        dst2: &LabelNode<L>,
    ) -> (b: bool)
        ensures
            b,
    {
        true
    }
}

impl<L: Label, F: Fn(&L, &L) -> bool> HyperLabeled for HyperLabelGraph<L, F> {
    type L = L;

    type Same = F;

    open spec fn accepts_all(f: F) -> bool {
        forall|a: &L, b: &L| #[trigger] f.requires((a, b))
    }

    fn set_same_label_fn(&mut self, f: F)
        ensures
            final(self).same_label_spec() == Some(f),
    {
        self.same_label_fn = Some(f);
    }
}

impl<F: Fn(&SingleLabel, &SingleLabel) -> bool> Directed for HyperLabelGraph<SingleLabel, F> {

}

impl<L: Label, F: Fn(&L, &L) -> bool> LabeledAdjacency for HyperLabelGraph<L, F> {

}

} // verus!
