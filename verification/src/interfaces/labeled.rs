//! Labels on the nodes and edges of graphs of binary edges.

use vstd::prelude::*;
use vstd::std_specs::hash::*;
use std::collections::HashMap;
use std::hash::Hash;
use crate::interfaces::graph::{Graph, IdPair, SingleId};
use crate::interfaces::hypergraph::{
    index_positions, is_last_bearer, is_last_with, node_ids, shown,
};
use crate::interfaces::vertex::Vertex;

verus! {

/// A label: a value that reads as text.
pub trait Label: Hash + Eq + Clone {
    /// The text of the label.
    spec fn label_spec(&self) -> Seq<char>;

    /// The text of the label.
    fn label(&self) -> (s: &str)
        ensures
            s@ == self.label_spec(),
    ;
}

impl Label for String {
    open spec fn label_spec(&self) -> Seq<char> {
        self@
    }

    fn label(&self) -> (s: &str) {
        self.as_str()
    }
}

/// An edge endpoint that no node of the graph bears.
#[derive(Clone, Copy, Debug, PartialEq, Eq, Structural)]
pub struct DanglingEndpoint {
    /// Position of the edge among the edges.
    pub edge: usize,
    /// The id that no node bears: the source where it dangles, else the destination.
    pub id: usize,
}

/// Edge `k` has an endpoint that is not among the known ids.
pub open spec fn loose<E: IdPair>(known: Set<usize>, edges: Seq<E>, k: int) -> bool {
    &&& 0 <= k < edges.len()
    &&& (!known.contains(edges[k].pair_spec().0) || !known.contains(edges[k].pair_spec().1))
}

/// `d` names the first edge with an endpoint that is not among the known ids, and of
/// its endpoints the source where that is unknown, else the destination.
pub open spec fn first_loose<E: IdPair>(known: Set<usize>, edges: Seq<E>, d: DanglingEndpoint) -> bool {
    &&& loose(known, edges, d.edge as int)
    &&& forall|k: int| 0 <= k < d.edge ==> !#[trigger] loose(known, edges, k)
    &&& d.id == if !known.contains(edges[d.edge as int].pair_spec().0) {
        edges[d.edge as int].pair_spec().0
    } else {
        edges[d.edge as int].pair_spec().1
    }
}

/// `found` holds the last node that bears the source id of `edge` and the last node
/// that bears its destination id.
pub open spec fn joins<N: SingleId, E: IdPair>(nodes: Seq<N>, edge: E, found: (&N, &N)) -> bool {
    &&& is_last_with(nodes, edge.pair_spec().0, *found.0)
    &&& is_last_with(nodes, edge.pair_spec().1, *found.1)
}

/// For each edge in order, its two endpoints as nodes: for each endpoint id the last
/// of the nodes that bears it.
pub fn resolve_endpoints<'a, N: Vertex, E: IdPair>(nodes: &Vec<&'a N>, edges: &Vec<&E>) -> (r:
    Result<Vec<(&'a N, &'a N)>, DanglingEndpoint>)
    ensures
        match r {
            Ok(v) => {
                &&& forall|k: int| !#[trigger] loose(
                    node_ids(shown(nodes@)).to_set(),
                    shown(edges@),
                    k,
                )
                &&& v@.len() == edges@.len()
                &&& forall|k: int|
                    0 <= k < v@.len() ==> joins(shown(nodes@), shown(edges@)[k], #[trigger] v@[k])
            },
            Err(d) => first_loose(node_ids(shown(nodes@)).to_set(), shown(edges@), d),
        },
{
    broadcast use group_hash_axioms;
    let index = index_positions(nodes);
    let ghost all = shown(nodes@);
    let ghost known = node_ids(all).to_set();
    let ghost links = shown(edges@);
    let mut out: Vec<(&'a N, &'a N)> = Vec::new();
    let mut k: usize = 0;
    while k < edges.len()
        invariant
            k <= edges.len(),
            all == shown(nodes@),
            known == node_ids(all).to_set(),
            links == shown(edges@),
            forall|id: usize| index@.contains_key(id) <==> known.contains(id),
            forall|id: usize| #[trigger]
                index@.contains_key(id) ==> is_last_bearer(all, id, index@[id] as int),
            out@.len() == k,
            forall|q: int| 0 <= q < k ==> joins(all, links[q], #[trigger] out@[q]),
            forall|q: int| 0 <= q < k ==> !#[trigger] loose(known, links, q),
        decreases edges.len() - k,
    {
        let (src, dst) = edges[k].pair();
        assert(links[k as int] == *edges@[k as int]);
        let from = match index.get(&src) {
            Some(at) => {
                let at: usize = *at;
                assert(is_last_bearer(all, src, at as int));
                assert(all[at as int] == *nodes@[at as int]);
                nodes[at]
            },
            None => {
                return Err(DanglingEndpoint { edge: k, id: src });
            },
        };
        let to = match index.get(&dst) {
            Some(at) => {
                let at: usize = *at;
                assert(is_last_bearer(all, dst, at as int));
                assert(all[at as int] == *nodes@[at as int]);
                nodes[at]
            },
            None => {
                return Err(DanglingEndpoint { edge: k, id: dst });
            },
        };
        assert(is_last_with(all, src, *from));
        assert(is_last_with(all, dst, *to));
        let ghost before = out@;
        out.push((from, to));
        proof {
            assert forall|q: int| 0 <= q < k + 1 implies joins(all, links[q], #[trigger] out@[q]) by {
                if q < k {
                    assert(out@[q] == before[q]);
                }
            }
        }
        k += 1;
    }
    Ok(out)
}

/// A graph whose nodes and edges carry labels.
pub trait Labeled: Graph {
    type NodeLabel: Label;

    type EdgeLabel: Label;

    /// The label that a node carries.
    spec fn label_of(node: Self::Node) -> Self::NodeLabel;

    /// The label that an edge carries.
    spec fn edge_label_of(edge: Self::Edge) -> Self::EdgeLabel;

    /// The graph has what it takes to compare labels.
    spec fn comparable(&self) -> bool;

    /// True when the two nodes count as labelled alike.
    fn label_same(&self, node: &Self::Node, label: &Self::Node) -> bool
        requires
            self.comparable(),
    ;

    /// The label of a node.
    fn get_label<'a>(&'a self, node: &'a Self::Node) -> (l: &'a Self::NodeLabel)
        ensures
            *l == Self::label_of(*node),
    ;

    /// The label of an edge.
    fn get_edge_label<'a>(&'a self, edge: &'a Self::Edge) -> (l: &'a Self::EdgeLabel)
        ensures
            *l == Self::edge_label_of(*edge),
    ;

    /// For each edge in order: the last node that bears its source id, the last node
    /// that bears its destination id, and its label. Fails when an edge has an
    /// endpoint that no node bears.
    fn get_edges_pair_label<'a>(&'a self) -> (r: Result<
        Vec<(&'a Self::Node, &'a Self::Node, &'a Self::EdgeLabel)>,
        DanglingEndpoint,
    >)
        ensures
            match r {
                Ok(v) => {
                    &&& forall|k: int| !#[trigger] loose(
                        node_ids(self.node_seq()).to_set(),
                        self.edge_seq(),
                        k,
                    )
                    &&& v@.len() == self.edge_seq().len()
                    &&& forall|k: int|
                        0 <= k < v@.len() ==> {
                            &&& joins(
                                self.node_seq(),
                                self.edge_seq()[k],
                                ((#[trigger] v@[k]).0, v@[k].1),
                            )
                            &&& *v@[k].2 == Self::edge_label_of(self.edge_seq()[k])
                        }
                },
                Err(d) => first_loose(node_ids(self.node_seq()).to_set(), self.edge_seq(), d),
            },
    {
        let nodes = self.nodes();
        let edges = self.edges();
        assert(shown(nodes@) =~= self.node_seq());
        assert(shown(edges@) =~= self.edge_seq());
        let ends = match resolve_endpoints(&nodes, &edges) {
            Ok(ends) => ends,
            Err(d) => {
                return Err(d);
            },
        };
        let mut out: Vec<(&'a Self::Node, &'a Self::Node, &'a Self::EdgeLabel)> = Vec::new();
        let mut k: usize = 0;
        while k < edges.len()
            invariant
                k <= edges.len(),
                ends@.len() == edges@.len(),
                shown(edges@) == self.edge_seq(),
                forall|q: int|
                    0 <= q < ends@.len() ==> joins(
                        self.node_seq(),
                        self.edge_seq()[q],
                        #[trigger] ends@[q],
                    ),
                out@.len() == k,
                forall|q: int|
                    0 <= q < k ==> {
                        &&& joins(
                            self.node_seq(),
                            self.edge_seq()[q],
                            ((#[trigger] out@[q]).0, out@[q].1),
                        )
                        &&& *out@[q].2 == Self::edge_label_of(self.edge_seq()[q])
                    },
            decreases edges.len() - k,
        {
            let label = self.get_edge_label(edges[k]);
            let pair = ends[k];
            assert(shown(edges@)[k as int] == *edges@[k as int]);
            assert(joins(self.node_seq(), self.edge_seq()[k as int], (pair.0, pair.1)));
            let ghost before = out@;
            out.push((pair.0, pair.1, label));
            proof {
                assert forall|q: int| 0 <= q < k + 1 implies {
                    &&& joins(
                        self.node_seq(),
                        self.edge_seq()[q],
                        ((#[trigger] out@[q]).0, out@[q].1),
                    )
                    &&& *out@[q].2 == Self::edge_label_of(self.edge_seq()[q])
                } by {
                    if q < k {
                        assert(out@[q] == before[q]);
                    }
                }
            }
            k += 1;
        }
        Ok(out)
    }

    /// True when the two edges count as labelled alike.
    fn edge_label_same(&self, edge1: &Self::Edge, edge2: &Self::Edge) -> bool;

    /// True when the two edges, with their endpoints, count as labelled alike.
    fn edge_node_label_same(
        &self,
        src1: &Self::Node,
        edge1: &Self::Edge,
        dst1: &Self::Node,
        src2: &Self::Node,
        edge2: &Self::Edge,
        dst2: &Self::Node,
    ) -> bool;
}

/// A labelled graph whose notion of "same label" is set by its user.
pub trait HyperLabeled: Labeled {
    type L: Label;

    /// The type of the test that decides whether two labels count as the same.
    type Same;

    /// The test accepts every pair of labels.
    spec fn accepts_all(f: Self::Same) -> bool;

    /// Sets the test that decides whether two labels count as the same. The test must
    /// accept every pair of labels.
    fn set_same_label_fn(&mut self, f: Self::Same)
        requires
            Self::accepts_all(f),
        ensures
            final(self).comparable(),
            final(self).node_seq() == old(self).node_seq(),
            final(self).edge_seq() == old(self).edge_seq(),
    ;
}

/// For edge `k`, what it lists under its source: its destination and its position.
pub open spec fn out_entry<E: IdPair>(edges: Seq<E>, k: int) -> (usize, usize) {
    (edges[k].pair_spec().1, k as usize)
}

/// For each edge that leaves `v`, in order: its destination and its position.
pub open spec fn out_edges<E: IdPair>(edges: Seq<E>, v: usize) -> Seq<(usize, usize)>
    decreases edges.len(),
{
    if edges.len() == 0 {
        Seq::empty()
    } else {
        let rest = out_edges(edges.drop_last(), v);
        if edges.last().pair_spec().0 == v {
            rest.push(out_entry(edges, edges.len() - 1))
        } else {
            rest
        }
    }
}

/// For each node id of a graph, its outgoing edges: destination id and edge position.
#[derive(Debug)]
pub struct LabeledAdjacencyList {
    table: HashMap<usize, Vec<(usize, usize)>>,
}

impl View for LabeledAdjacencyList {
    type V = Map<usize, Seq<(usize, usize)>>;

    closed spec fn view(&self) -> Map<usize, Seq<(usize, usize)>> {
        out_lists(self.table@)
    }
}

/// The table with each list taken as a sequence.
pub open spec fn out_lists(table: Map<usize, Vec<(usize, usize)>>) -> Map<
    usize,
    Seq<(usize, usize)>,
> {
    Map::new(|key: usize| table.contains_key(key), |key: usize| table[key]@)
}

/// The table has a list for each known id and no other, and the list of an id holds
/// the outgoing edges of that id.
pub open spec fn lists_out_edges<E: IdPair>(
    table: Map<usize, Seq<(usize, usize)>>,
    known: Set<usize>,
    edges: Seq<E>,
) -> bool {
    &&& table.dom() == known
    &&& forall|key: usize| #[trigger] known.contains(key) ==> table[key] == out_edges(edges, key)
}

impl LabeledAdjacencyList {
    /// The list for `id`, if the index has one.
    pub fn get(&self, id: usize) -> (r: Option<&Vec<(usize, usize)>>)
        ensures
            match r {
                Some(list) => self@.contains_key(id) && list@ == self@[id],
                None => !self@.contains_key(id),
            },
    {
        broadcast use group_hash_axioms;
        self.table.get(&id)
    }
}

/// The outgoing-edge index of the graph with these nodes and edges.
pub fn build_labeled<N: Vertex, E: IdPair>(nodes: &Vec<&N>, edges: &Vec<&E>) -> (r: Result<
    LabeledAdjacencyList,
    DanglingEndpoint,
>)
    ensures
        match r {
            Ok(adj) => {
                &&& forall|k: int| !#[trigger] loose(
                    node_ids(shown(nodes@)).to_set(),
                    shown(edges@),
                    k,
                )
                &&& lists_out_edges(adj@, node_ids(shown(nodes@)).to_set(), shown(edges@))
            },
            Err(d) => {
                let known = node_ids(shown(nodes@)).to_set();
                let all = shown(edges@);
                &&& loose(known, all, d.edge as int)
                &&& forall|k: int| 0 <= k < d.edge ==> !#[trigger] loose(known, all, k)
                &&& d.id == if !known.contains(all[d.edge as int].pair_spec().0) {
                    all[d.edge as int].pair_spec().0
                } else {
                    all[d.edge as int].pair_spec().1
                }
            },
        },
{
    broadcast use group_hash_axioms;
    let ghost ids = node_ids(shown(nodes@));
    let ghost known = ids.to_set();
    let ghost all = shown(edges@);
    let mut table: HashMap<usize, Vec<(usize, usize)>> = HashMap::new();
    let mut p: usize = 0;
    while p < nodes.len()
        invariant
            p <= nodes.len(),
            ids == node_ids(shown(nodes@)),
            forall|key: usize|
                table@.contains_key(key) <==> exists|q: int| 0 <= q < p && #[trigger] ids[q] == key,
            forall|key: usize| table@.contains_key(key) ==> (#[trigger] table@[key])@.len() == 0,
        decreases nodes.len() - p,
    {
        let id = nodes[p].id();
        assert(ids[p as int] == id);
        table.insert(id, Vec::new());
        p += 1;
    }
    proof {
        assert(out_lists(table@).dom() =~= known) by {
            assert forall|key: usize| known.contains(key) implies table@.contains_key(key) by {
                let q = choose|q: int| 0 <= q < ids.len() && ids[q] == key;
                assert(ids[q] == key);
            }
        }
        assert(all.subrange(0, 0) =~= Seq::<E>::empty());
        assert forall|key: usize| #[trigger] known.contains(key) implies out_lists(table@)[key]
            == out_edges(all.subrange(0, 0), key) by {
            assert(table@[key]@ =~= Seq::<(usize, usize)>::empty());
        }
    }
    let mut k: usize = 0;
    while k < edges.len()
        invariant
            k <= edges.len(),
            known == node_ids(shown(nodes@)).to_set(),
            all == shown(edges@),
            lists_out_edges(out_lists(table@), known, all.subrange(0, k as int)),
            forall|q: int| 0 <= q < k ==> !#[trigger] loose(known, all, q),
        decreases edges.len() - k,
    {
        let (src, dst) = edges[k].pair();
        assert(all[k as int] == *edges@[k as int]);
        if !table.contains_key(&src) {
            assert(!out_lists(table@).dom().contains(src));
            return Err(DanglingEndpoint { edge: k, id: src });
        }
        if !table.contains_key(&dst) {
            assert(out_lists(table@).dom().contains(src));
            assert(!out_lists(table@).dom().contains(dst));
            return Err(DanglingEndpoint { edge: k, id: dst });
        }
        assert(out_lists(table@).dom().contains(src));
        assert(out_lists(table@).dom().contains(dst));
        let ghost before = out_lists(table@);
        let taken = table.remove(&src);
        match taken {
            Some(list) => {
                let mut list = list;
                list.push((dst, k));
                table.insert(src, list);
            },
            None => {},
        }
        proof {
            let done = all.subrange(0, k as int);
            let next = all.subrange(0, k + 1);
            assert(next.drop_last() =~= done);
            assert(next.last() == all[k as int]);
            let after = out_lists(table@);
            assert(after.dom() =~= known) by {
                assert forall|key: usize| after.dom().contains(key) <==> known.contains(key) by {
                    assert(before.dom().contains(key) <==> known.contains(key));
                }
            }
            assert forall|key: usize| #[trigger] known.contains(key) implies after[key]
                == out_edges(next, key) by {
                assert(before[key] == out_edges(done, key));
                assert(out_entry(next, next.len() - 1) == (dst, k));
            }
        }
        k += 1;
    }
    assert(all.subrange(0, edges@.len() as int) =~= all);
    Ok(LabeledAdjacencyList { table })
}

/// Labelled graphs that can index their outgoing edges.
pub trait LabeledAdjacency: Labeled {
    /// Under each node id, the outgoing edges of that node in order, each as its
    /// destination id and its position among the edges. Fails when an edge has an
    /// endpoint that no node bears.
    fn get_labeled_adj(&self) -> (r: Result<LabeledAdjacencyList, DanglingEndpoint>)
        ensures
            match r {
                Ok(adj) => {
                    &&& forall|k: int| !#[trigger] loose(
                        node_ids(self.node_seq()).to_set(),
                        self.edge_seq(),
                        k,
                    )
                    &&& lists_out_edges(adj@, node_ids(self.node_seq()).to_set(), self.edge_seq())
                },
                Err(d) => {
                    let known = node_ids(self.node_seq()).to_set();
                    let all = self.edge_seq();
                    &&& loose(known, all, d.edge as int)
                    &&& forall|k: int| 0 <= k < d.edge ==> !#[trigger] loose(known, all, k)
                    &&& d.id == if !known.contains(all[d.edge as int].pair_spec().0) {
                        all[d.edge as int].pair_spec().0
                    } else {
                        all[d.edge as int].pair_spec().1
                    }
                },
            },
    {
        let nodes = self.nodes();
        let edges = self.edges();
        assert(shown(nodes@) =~= self.node_seq());
        assert(shown(edges@) =~= self.edge_seq());
        build_labeled(&nodes, &edges)
    }

    /// The outgoing edges that `adj` lists for `node`: destination id and edge
    /// position. Nothing when `adj` has no list for the node's id.
    fn get_labeled_post<'a>(&self, adj: &'a LabeledAdjacencyList, node: &Self::Node) -> (r: Option<
        &'a Vec<(usize, usize)>,
    >)
        ensures
            match r {
                Some(list) => adj@.contains_key(node.id_spec()) && list@ == adj@[node.id_spec()],
                None => !adj@.contains_key(node.id_spec()),
            },
    {
        adj.get(node.id())
    }
}

} // verus!
