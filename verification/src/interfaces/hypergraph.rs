//! Hypergraphs and the indices derived from them: co-membership adjacency,
//! precursors, successors and incidence. What the indices hold is defined in
//! `relations`.

use vstd::prelude::*;
use vstd::std_specs::hash::*;
use std::collections::{HashMap, HashSet};
use crate::interfaces::graph::SingleId;
use crate::interfaces::vertex::Vertex;
use crate::interfaces::edge::{IdVector, Hyperedge, DirectedHyperedge};
use crate::interfaces::relations::{
    distinct, lemma_distinct, dangling, first_dangling, graph_entries, incidence_entries, intact, lemma_related_empty,
    lemma_related_push, member_entries, pair_entries, edge_entries_upto, row_entries, related,
    PairRule,
};

verus! {

/// A hyperedge member that no node of the hypergraph bears.
#[derive(Clone, Copy, Debug, PartialEq, Eq, Structural)]
pub struct DanglingMember {
    /// Position of the hyperedge among the hyperedges.
    pub edge: usize,
    /// Position of the member in the hyperedge's id vector.
    pub position: usize,
    /// The id that no node bears.
    pub id: usize,
}

/// The ids that the nodes bear, in order.
pub open spec fn node_ids<N: SingleId>(nodes: Seq<N>) -> Seq<usize> {
    Seq::new(nodes.len(), |p: int| nodes[p].id_spec())
}

/// The id vectors of the edges, in order.
pub open spec fn member_lists<E: IdVector>(edges: Seq<E>) -> Seq<Seq<usize>> {
    Seq::new(edges.len(), |k: int| edges[k].ids())
}

/// A hypergraph: nodes and hyperedges, each kept in insertion order.
pub trait Hypergraph: Sized {
    type Node: Vertex;

    type Edge: Hyperedge;

    /// The nodes, in insertion order.
    spec fn node_seq(&self) -> Seq<Self::Node>;

    /// The hyperedges, in insertion order.
    spec fn edge_seq(&self) -> Seq<Self::Edge>;

    /// The hypergraph without nodes and without hyperedges.
    fn new() -> (g: Self)
        ensures
            g.node_seq() == Seq::<Self::Node>::empty(),
            g.edge_seq() == Seq::<Self::Edge>::empty(),
    ;

    /// The nodes, in insertion order.
    fn nodes(&self) -> (v: Vec<&Self::Node>)
        ensures
            v@.len() == self.node_seq().len(),
            forall|p: int| 0 <= p < v@.len() ==> *#[trigger] v@[p] == self.node_seq()[p],
    ;

    /// The hyperedges, in insertion order.
    fn hyperedges(&self) -> (v: Vec<&Self::Edge>)
        ensures
            v@.len() == self.edge_seq().len(),
            forall|k: int| 0 <= k < v@.len() ==> *#[trigger] v@[k] == self.edge_seq()[k],
    ;

    /// Appends a node; nothing is deduplicated.
    fn add_node(&mut self, node: Self::Node)
        ensures
            final(self).node_seq() == old(self).node_seq().push(node),
            final(self).edge_seq() == old(self).edge_seq(),
    ;

    /// Appends a hyperedge.
    fn add_hyperedge(&mut self, edge: Self::Edge)
        ensures
            final(self).node_seq() == old(self).node_seq(),
            final(self).edge_seq() == old(self).edge_seq().push(edge),
    ;

    /// For each hyperedge, its members as nodes: for each listed id the last node
    /// that bears it.
    fn get_hyperedges_vector(&self) -> (r: Result<Vec<Vec<&Self::Node>>, DanglingMember>)
        ensures
            match r {
                Ok(v) => {
                    &&& intact(node_ids(self.node_seq()).to_set(), member_lists(self.edge_seq()))
                    &&& v@.len() == self.edge_seq().len()
                    &&& forall|k: int|
                        0 <= k < v@.len() ==> resolved(
                            self.node_seq(),
                            #[trigger] self.edge_seq()[k].ids(),
                            v@[k]@,
                        )
                },
                Err(d) => {
                    &&& first_dangling(
                        node_ids(self.node_seq()).to_set(),
                        member_lists(self.edge_seq()),
                        d.edge as int,
                        d.position as int,
                    )
                    &&& d.id == member_lists(self.edge_seq())[d.edge as int][d.position as int]
                },
            },
    {
        let nodes = self.nodes();
        let edges = self.hyperedges();
        assert(shown(nodes@) =~= self.node_seq());
        assert(shown(edges@) =~= self.edge_seq());
        let with_edge = resolve_members(&nodes, &edges)?;
        let mut out: Vec<Vec<&Self::Node>> = Vec::new();
        let mut k: usize = 0;
        let mut rest = with_edge;
        let ghost all = rest@;
        while k < rest.len()
            invariant
                k <= rest.len(),
                rest@ == all,
                out@.len() == k,
                forall|q: int| 0 <= q < k ==> (#[trigger] out@[q])@ == all[q].1@,
            decreases rest.len() - k,
        {
            let members = rest[k].1.clone();
            assert(members@ =~= all[k as int].1@) by {
                assert(forall|i: int| 0 <= i < members@.len() ==> members@[i] == all[k as int].1@[i]);
            }
            out.push(members);
            k += 1;
        }
        Ok(out)
    }

    /// Each hyperedge with its members as nodes: for each listed id the last node that
    /// bears it.
    fn get_hyperedges_vector_with_edge(&self) -> (r: Result<
        Vec<(&Self::Edge, Vec<&Self::Node>)>,
        DanglingMember,
    >)
        ensures
            match r {
                Ok(v) => {
                    &&& intact(node_ids(self.node_seq()).to_set(), member_lists(self.edge_seq()))
                    &&& v@.len() == self.edge_seq().len()
                    &&& forall|k: int|
                        0 <= k < v@.len() ==> {
                            &&& *(#[trigger] v@[k]).0 == self.edge_seq()[k]
                            &&& resolved(self.node_seq(), self.edge_seq()[k].ids(), v@[k].1@)
                        }
                },
                Err(d) => {
                    &&& first_dangling(
                        node_ids(self.node_seq()).to_set(),
                        member_lists(self.edge_seq()),
                        d.edge as int,
                        d.position as int,
                    )
                    &&& d.id == member_lists(self.edge_seq())[d.edge as int][d.position as int]
                },
            },
    {
        let nodes = self.nodes();
        let edges = self.hyperedges();
        assert(shown(nodes@) =~= self.node_seq());
        assert(shown(edges@) =~= self.edge_seq());
        resolve_members(&nodes, &edges)
    }
}

/// The ids that the nodes of `g` bear, as a set.
pub open spec fn known_ids<H: Hypergraph>(g: &H) -> Set<usize> {
    node_ids(g.node_seq()).to_set()
}

/// The id vectors of the hyperedges of `g`, in order.
pub open spec fn id_lists<H: Hypergraph>(g: &H) -> Seq<Seq<usize>> {
    member_lists(g.edge_seq())
}

/// Lists of ids, one for each node id of a hypergraph.
#[derive(Debug)]
pub struct AdjacencyList {
    table: HashMap<usize, Vec<usize>>,
}

impl View for AdjacencyList {
    type V = Map<usize, Seq<usize>>;

    closed spec fn view(&self) -> Map<usize, Seq<usize>> {
        lists_of(self.table@)
    }
}

/// The table with each list taken as a sequence.
pub open spec fn lists_of(table: Map<usize, Vec<usize>>) -> Map<usize, Seq<usize>> {
    Map::new(|key: usize| table.contains_key(key), |key: usize| table[key]@)
}

/// The table has a list for each known id and no other, and each list holds what the
/// entries list under its key.
pub open spec fn tabulates(
    table: Map<usize, Seq<usize>>,
    known: Set<usize>,
    entries: Seq<(usize, usize)>,
) -> bool {
    &&& table.dom() == known
    &&& forall|key: usize| #[trigger] known.contains(key) ==> table[key] == related(entries, key)
}

impl AdjacencyList {
    /// True when the index has a list for `id`.
    pub fn contains(&self, id: usize) -> (b: bool)
        ensures
            b == self@.contains_key(id),
    {
        broadcast use group_hash_axioms;
        self.table.contains_key(&id)
    }

    /// The list for `id`, if the index has one.
    pub fn get(&self, id: usize) -> (r: Option<&Vec<usize>>)
        ensures
            match r {
                Some(list) => self@.contains_key(id) && list@ == self@[id],
                None => !self@.contains_key(id),
            },
    {
        broadcast use group_hash_axioms;
        self.table.get(&id)
    }

    /// The number of lists.
    pub fn len(&self) -> (n: usize)
        ensures
            n == self@.dom().len(),
    {
        broadcast use group_hash_axioms;
        assert(self@.dom() =~= self.table@.dom());
        self.table.len()
    }
}

/// An empty list for each id that a node bears.
fn seed_table<N: Vertex>(nodes: &Vec<&N>) -> (table: HashMap<usize, Vec<usize>>)
    ensures
        tabulates(
            lists_of(table@),
            Seq::new(nodes@.len(), |p: int| nodes@[p].id_spec()).to_set(),
            Seq::empty(),
        ),
{
    broadcast use group_hash_axioms;
    let ghost ids = Seq::new(nodes@.len(), |p: int| nodes@[p].id_spec());
    let mut table: HashMap<usize, Vec<usize>> = HashMap::new();
    let mut p: usize = 0;
    while p < nodes.len()
        invariant
            p <= nodes.len(),
            ids == Seq::new(nodes@.len(), |p: int| nodes@[p].id_spec()),
            forall|key: usize|
                table@.contains_key(key) <==> exists|q: int| 0 <= q < p && #[trigger] ids[q] == key,
            forall|key: usize| table@.contains_key(key) ==> (#[trigger] table@[key])@.len() == 0,
        decreases nodes.len() - p,
    {
        let id = nodes[p].id();
        assert(ids[p as int] == id);
        table.insert(id, Vec::new());
        p += 1;
    }
    proof {
        let known = ids.to_set();
        assert(lists_of(table@).dom() =~= known) by {
            assert forall|key: usize| known.contains(key) implies table@.contains_key(key) by {
                let q = choose|q: int| 0 <= q < ids.len() && ids[q] == key;
                assert(ids[q] == key);
            }
        }
        assert forall|key: usize| #[trigger] known.contains(key) implies lists_of(table@)[key]
            == related(Seq::empty(), key) by {
            lemma_related_empty(key);
            assert(table@[key]@ =~= Seq::<usize>::empty());
        }
    }
    table
}

/// Appends `value` to the list under `key`.
fn extend_list(
    table: &mut HashMap<usize, Vec<usize>>,
    key: usize,
    value: usize,
    Ghost(known): Ghost<Set<usize>>,
    Ghost(entries): Ghost<Seq<(usize, usize)>>,
)
    requires
        known.contains(key),
        tabulates(lists_of(old(table)@), known, entries),
    ensures
        tabulates(lists_of(final(table)@), known, entries.push((key, value))),
{
    broadcast use group_hash_axioms;
    let ghost before = table@;
    assert(lists_of(before).contains_key(key));
    let taken = table.remove(&key);
    match taken {
        Some(list) => {
            let mut list = list;
            list.push(value);
            table.insert(key, list);
        },
        None => {},
    }
    proof {
        let after = lists_of(table@);
        assert(after.dom() =~= known) by {
            assert forall|k: usize| after.dom().contains(k) <==> known.contains(k) by {
                assert(lists_of(before).dom().contains(k) <==> known.contains(k));
            }
        }
        assert forall|k: usize| #[trigger] known.contains(k) implies after[k] == related(
            entries.push((key, value)),
            k,
        ) by {
            lemma_related_push(entries, key, value, k);
            assert(lists_of(before)[k] == related(entries, k));
        }
    }
}

/// The position of the first value of `ids` that has no list in `table`.
fn first_missing(ids: &Vec<usize>, table: &HashMap<usize, Vec<usize>>) -> (r: Option<usize>)
    ensures
        match r {
            Some(i) => {
                &&& i < ids@.len()
                &&& !table@.contains_key(ids@[i as int])
                &&& forall|q: int| 0 <= q < i ==> table@.contains_key(#[trigger] ids@[q])
            },
            None => forall|q: int| 0 <= q < ids@.len() ==> table@.contains_key(#[trigger] ids@[q]),
        },
{
    broadcast use group_hash_axioms;
    let mut i: usize = 0;
    while i < ids.len()
        invariant
            i <= ids.len(),
            forall|q: int| 0 <= q < i ==> table@.contains_key(#[trigger] ids@[q]),
        decreases ids.len() - i,
    {
        if !table.contains_key(&ids[i]) {
            return Some(i);
        }
        i += 1;
    }
    None
}

/// The members of a hyperedge with this id vector: each id once, in the order of
/// first occurrence.
pub fn distinct_ids(ids: &Vec<usize>) -> (members: Vec<usize>)
    ensures
        members@ == distinct(ids@),
{
    broadcast use group_hash_axioms;
    let mut seen: HashSet<usize> = HashSet::new();
    let mut members: Vec<usize> = Vec::new();
    let mut i: usize = 0;
    assert(ids@.subrange(0, 0) =~= Seq::<usize>::empty());
    while i < ids.len()
        invariant
            i <= ids.len(),
            members@ == distinct(ids@.subrange(0, i as int)),
            forall|x: usize| seen@.contains(x) <==> members@.contains(x),
        decreases ids.len() - i,
    {
        let id = ids[i];
        let ghost before = members@;
        proof {
            let next = ids@.subrange(0, i + 1);
            assert(next.drop_last() =~= ids@.subrange(0, i as int));
            assert(next.last() == id);
        }
        if !seen.contains(&id) {
            seen.insert(id);
            members.push(id);
            proof {
                assert forall|x: usize| seen@.contains(x) <==> members@.contains(x) by {
                    if members@.contains(x) {
                        let p = choose|p: int| 0 <= p < members@.len() && members@[p] == x;
                        if p < before.len() {
                            assert(before[p] == x);
                        }
                    }
                    if before.contains(x) {
                        let p = choose|p: int| 0 <= p < before.len() && before[p] == x;
                        assert(members@[p] == x);
                    }
                    if x == id {
                        assert(members@[before.len() as int] == x);
                    }
                }
            }
        }
        i += 1;
    }
    assert(ids@.subrange(0, ids@.len() as int) =~= ids@);
    members
}

/// The index of the relation that `rule` derives from the hyperedges of `g`: under each
/// node id, what the pairs of different members of all hyperedges list for it.
pub fn build_pairwise<H: Hypergraph>(g: &H, rule: PairRule) -> (r: Result<
    AdjacencyList,
    DanglingMember,
>)
    ensures
        match r {
            Ok(adj) => {
                &&& intact(known_ids(g), id_lists(g))
                &&& tabulates(
                    adj@,
                    known_ids(g),
                    graph_entries(rule, id_lists(g), id_lists(g).len() as int),
                )
            },
            Err(d) => {
                &&& first_dangling(known_ids(g), id_lists(g), d.edge as int, d.position as int)
                &&& d.id == id_lists(g)[d.edge as int][d.position as int]
            },
        },
{
    let nodes = g.nodes();
    let edges = g.hyperedges();
    let ghost known = known_ids(g);
    let ghost lists = id_lists(g);
    let mut table = seed_table(&nodes);
    assert(Seq::new(nodes@.len(), |p: int| nodes@[p].id_spec()) =~= node_ids(g.node_seq()));
    let ghost mut done: Seq<(usize, usize)> = Seq::empty();
    let mut k: usize = 0;
    assert(lists == member_lists(g.edge_seq()));
    while k < edges.len()
        invariant
            k <= edges.len(),
            known == known_ids(g),
            lists == id_lists(g),
            edges@.len() == lists.len(),
            forall|q: int| 0 <= q < edges@.len() ==> (#[trigger] edges@[q]).ids() == lists[q],
            tabulates(lists_of(table@), known, done),
            done == graph_entries(rule, lists, k as int),
            forall|k2: int, i2: int| 0 <= k2 < k ==> !#[trigger] dangling(known, lists, k2, i2),
        decreases edges.len() - k,
    {
        let ids = edges[k].id();
        assert(ids@ == lists[k as int]);
        match first_missing(&ids, &table) {
            Some(i) => {
                let id = ids[i];
                proof {
                    assert(!known.contains(id));
                    assert forall|k2: int, i2: int| #[trigger]
                        dangling(known, lists, k2, i2) implies k < k2 || (k == k2 && i <= i2) by {
                        if k2 == k && i2 < i {
                            assert(table@.contains_key(ids@[i2]));
                            assert(lists_of(table@).dom().contains(ids@[i2]));
                        }
                    }
                }
                return Err(DanglingMember { edge: k, position: i, id });
            },
            None => {},
        }
        proof {
            assert forall|q: int| 0 <= q < ids@.len() implies known.contains(#[trigger] ids@[q]) by {
                assert(table@.contains_key(ids@[q]));
                assert(lists_of(table@).dom().contains(ids@[q]));
            }
        }
        let members = distinct_ids(&ids);
        proof {
            lemma_distinct(ids@);
            assert forall|q: int| 0 <= q < members@.len() implies known.contains(
                #[trigger] members@[q],
            ) by {
                assert(members@.contains(members@[q]));
                assert(ids@.contains(members@[q]));
                let p = choose|p: int| 0 <= p < ids@.len() && ids@[p] == members@[q];
                assert(known.contains(ids@[p]));
            }
        }
        let ghost base = done;
        let mut i: usize = 0;
        while i < members.len()
            invariant
                i <= members.len(),
                forall|q: int| 0 <= q < ids@.len() ==> known.contains(#[trigger] ids@[q]),
                forall|q: int| 0 <= q < members@.len() ==> known.contains(#[trigger] members@[q]),
                tabulates(lists_of(table@), known, done),
                done == base + edge_entries_upto(rule, members@, i as int),
            decreases members.len() - i,
        {
            let ghost row_base = done;
            let mut j: usize = i + 1;
            while j < members.len()
                invariant
                    i < members.len(),
                    i + 1 <= j <= members.len(),
                    forall|q: int| 0 <= q < ids@.len() ==> known.contains(#[trigger] ids@[q]),
                forall|q: int| 0 <= q < members@.len() ==> known.contains(#[trigger] members@[q]),
                    tabulates(lists_of(table@), known, done),
                    done == row_base + row_entries(rule, members@, i as int, j as int),
                decreases members.len() - j,
            {
                let a = members[i];
                let b = members[j];
                let ghost before = done;
                match rule {
                    PairRule::Mutual => {
                        extend_list(&mut table, a, b, Ghost(known), Ghost(done));
                        proof {
                            done = done.push((a, b));
                        }
                        extend_list(&mut table, b, a, Ghost(known), Ghost(done));
                        proof {
                            done = done.push((b, a));
                        }
                    },
                    PairRule::Precursor => {
                        extend_list(&mut table, b, a, Ghost(known), Ghost(done));
                        proof {
                            done = done.push((b, a));
                        }
                    },
                    PairRule::Successor => {
                        extend_list(&mut table, a, b, Ghost(known), Ghost(done));
                        proof {
                            done = done.push((a, b));
                        }
                    },
                }
                proof {
                    assert(done =~= before + pair_entries(rule, a, b));
                    assert(done =~= row_base + row_entries(rule, members@, i as int, j + 1));
                }
                j += 1;
            }
            proof {
                assert(done =~= base + edge_entries_upto(rule, members@, i + 1));
            }
            i += 1;
        }
        proof {
            assert(done =~= graph_entries(rule, lists, k + 1));
            assert forall|k2: int, i2: int| 0 <= k2 < k + 1 implies !#[trigger] dangling(
                known,
                lists,
                k2,
                i2,
            ) by {
                if k2 == k && 0 <= i2 < ids@.len() {
                    assert(known.contains(ids@[i2]));
                }
            }
        }
        k += 1;
    }
    Ok(AdjacencyList { table })
}

/// Lists of hyperedge positions, one for each node id of a hypergraph.
#[derive(Debug)]
pub struct HyperedgeList {
    table: HashMap<usize, Vec<usize>>,
}

impl View for HyperedgeList {
    type V = Map<usize, Seq<usize>>;

    closed spec fn view(&self) -> Map<usize, Seq<usize>> {
        lists_of(self.table@)
    }
}

impl HyperedgeList {
    /// True when the index has a list for `id`.
    pub fn contains(&self, id: usize) -> (b: bool)
        ensures
            b == self@.contains_key(id),
    {
        broadcast use group_hash_axioms;
        self.table.contains_key(&id)
    }

    /// The list for `id`, if the index has one.
    pub fn get(&self, id: usize) -> (r: Option<&Vec<usize>>)
        ensures
            match r {
                Some(list) => self@.contains_key(id) && list@ == self@[id],
                None => !self@.contains_key(id),
            },
    {
        broadcast use group_hash_axioms;
        self.table.get(&id)
    }

    /// The number of lists.
    pub fn len(&self) -> (n: usize)
        ensures
            n == self@.dom().len(),
    {
        broadcast use group_hash_axioms;
        assert(self@.dom() =~= self.table@.dom());
        self.table.len()
    }
}

/// The incidence index of `g`: under each node id, the positions of the hyperedges
/// that list it, each hyperedge once.
pub fn build_incidence<H: Hypergraph>(g: &H) -> (r: Result<HyperedgeList, DanglingMember>)
    ensures
        match r {
            Ok(inc) => {
                &&& intact(known_ids(g), id_lists(g))
                &&& tabulates(
                    inc@,
                    known_ids(g),
                    incidence_entries(id_lists(g), id_lists(g).len() as int),
                )
            },
            Err(d) => {
                &&& first_dangling(known_ids(g), id_lists(g), d.edge as int, d.position as int)
                &&& d.id == id_lists(g)[d.edge as int][d.position as int]
            },
        },
{
    let nodes = g.nodes();
    let edges = g.hyperedges();
    let ghost known = known_ids(g);
    let ghost lists = id_lists(g);
    let mut table = seed_table(&nodes);
    assert(Seq::new(nodes@.len(), |p: int| nodes@[p].id_spec()) =~= node_ids(g.node_seq()));
    let ghost mut done: Seq<(usize, usize)> = Seq::empty();
    let mut k: usize = 0;
    while k < edges.len()
        invariant
            k <= edges.len(),
            known == known_ids(g),
            lists == id_lists(g),
            edges@.len() == lists.len(),
            forall|q: int| 0 <= q < edges@.len() ==> (#[trigger] edges@[q]).ids() == lists[q],
            tabulates(lists_of(table@), known, done),
            done == incidence_entries(lists, k as int),
            forall|k2: int, i2: int| 0 <= k2 < k ==> !#[trigger] dangling(known, lists, k2, i2),
        decreases edges.len() - k,
    {
        let ids = edges[k].id();
        assert(ids@ == lists[k as int]);
        match first_missing(&ids, &table) {
            Some(i) => {
                let id = ids[i];
                proof {
                    assert(!known.contains(id));
                    assert forall|k2: int, i2: int| #[trigger]
                        dangling(known, lists, k2, i2) implies k < k2 || (k == k2 && i <= i2) by {
                        if k2 == k && i2 < i {
                            assert(table@.contains_key(ids@[i2]));
                            assert(lists_of(table@).dom().contains(ids@[i2]));
                        }
                    }
                }
                return Err(DanglingMember { edge: k, position: i, id });
            },
            None => {},
        }
        proof {
            assert forall|q: int| 0 <= q < ids@.len() implies known.contains(#[trigger] ids@[q]) by {
                assert(table@.contains_key(ids@[q]));
                assert(lists_of(table@).dom().contains(ids@[q]));
            }
        }
        let members = distinct_ids(&ids);
        proof {
            lemma_distinct(ids@);
            assert forall|q: int| 0 <= q < members@.len() implies known.contains(
                #[trigger] members@[q],
            ) by {
                assert(members@.contains(members@[q]));
                assert(ids@.contains(members@[q]));
                let p = choose|p: int| 0 <= p < ids@.len() && ids@[p] == members@[q];
                assert(known.contains(ids@[p]));
            }
        }
        let ghost base = done;
        let mut i: usize = 0;
        while i < members.len()
            invariant
                i <= members.len(),
                forall|q: int| 0 <= q < ids@.len() ==> known.contains(#[trigger] ids@[q]),
                forall|q: int| 0 <= q < members@.len() ==> known.contains(#[trigger] members@[q]),
                tabulates(lists_of(table@), known, done),
                done == base + member_entries(members@, k).subrange(0, i as int),
            decreases members.len() - i,
        {
            extend_list(&mut table, members[i], k, Ghost(known), Ghost(done));
            proof {
                done = done.push((members@[i as int], k));
                assert(done =~= base + member_entries(members@, k).subrange(0, i + 1));
            }
            i += 1;
        }
        proof {
            assert(member_entries(members@, k).subrange(0, members@.len() as int) =~= member_entries(
                members@,
                k,
            ));
            assert(done =~= incidence_entries(lists, k + 1));
            assert forall|k2: int, i2: int| 0 <= k2 < k + 1 implies !#[trigger] dangling(
                known,
                lists,
                k2,
                i2,
            ) by {
                if k2 == k && 0 <= i2 < ids@.len() {
                    assert(known.contains(ids@[i2]));
                }
            }
        }
        k += 1;
    }
    Ok(HyperedgeList { table })
}

/// Node `p` bears `id`, and no later node does.
pub open spec fn is_last_bearer<N: SingleId>(nodes: Seq<N>, id: usize, p: int) -> bool {
    &&& 0 <= p < nodes.len()
    &&& nodes[p].id_spec() == id
    &&& forall|q: int| p < q < nodes.len() ==> (#[trigger] nodes[q]).id_spec() != id
}

/// Node `p` bears `id`, and no earlier node does.
pub open spec fn is_first_bearer<N: SingleId>(nodes: Seq<N>, id: usize, p: int) -> bool {
    &&& 0 <= p < nodes.len()
    &&& nodes[p].id_spec() == id
    &&& forall|q: int| 0 <= q < p ==> (#[trigger] nodes[q]).id_spec() != id
}

/// `node` is the last of the nodes that bears `id`.
pub open spec fn is_last_with<N: SingleId>(nodes: Seq<N>, id: usize, node: N) -> bool {
    exists|p: int| is_last_bearer(nodes, id, p) && node == nodes[p]
}

/// `node` is the first of the nodes that bears `id`.
pub open spec fn is_first_with<N: SingleId>(nodes: Seq<N>, id: usize, node: N) -> bool {
    exists|p: int| is_first_bearer(nodes, id, p) && node == nodes[p]
}

/// `found` holds, for each of the `ids` in turn, the last node that bears it.
pub open spec fn resolved<N: SingleId>(nodes: Seq<N>, ids: Seq<usize>, found: Seq<&N>) -> bool {
    &&& found.len() == ids.len()
    &&& forall|i: int| 0 <= i < ids.len() ==> is_last_with(nodes, ids[i], *#[trigger] found[i])
}

/// `found` holds, for each of the `ids` in turn, the first node that bears it.
pub open spec fn resolved_first<N: SingleId>(nodes: Seq<N>, ids: Seq<usize>, found: Seq<&N>) -> bool {
    &&& found.len() == ids.len()
    &&& forall|i: int| 0 <= i < ids.len() ==> is_first_with(nodes, ids[i], *#[trigger] found[i])
}

/// The values behind the references.
pub open spec fn shown<T>(refs: Seq<&T>) -> Seq<T> {
    Seq::new(refs.len(), |p: int| *refs[p])
}

/// For each id that a node bears, the position of the last node that bears it.
pub fn index_positions<N: Vertex>(nodes: &Vec<&N>) -> (index: HashMap<usize, usize>)
    ensures
        forall|id: usize|
            index@.contains_key(id) <==> node_ids(shown(nodes@)).to_set().contains(id),
        forall|id: usize| #[trigger]
            index@.contains_key(id) ==> is_last_bearer(shown(nodes@), id, index@[id] as int),
{
    broadcast use group_hash_axioms;
    let ghost all = shown(nodes@);
    let mut index: HashMap<usize, usize> = HashMap::new();
    let mut p: usize = 0;
    while p < nodes.len()
        invariant
            p <= nodes.len(),
            all == shown(nodes@),
            forall|id: usize|
                index@.contains_key(id) <==> exists|q: int|
                    0 <= q < p && (#[trigger] all[q]).id_spec() == id,
            forall|id: usize| #[trigger]
                index@.contains_key(id) ==> is_last_bearer(
                    all.subrange(0, p as int),
                    id,
                    index@[id] as int,
                ),
        decreases nodes.len() - p,
    {
        let id = nodes[p].id();
        let ghost before = index@;
        assert(all[p as int].id_spec() == id);
        index.insert(id, p);
        proof {
            let next = all.subrange(0, p + 1);
            assert forall|key: usize| #[trigger] index@.contains_key(key) implies is_last_bearer(
                next,
                key,
                index@[key] as int,
            ) by {
                if key != id {
                    assert(before.contains_key(key));
                    assert(is_last_bearer(all.subrange(0, p as int), key, before[key] as int));
                    let at = before[key] as int;
                    assert(next[at] == all.subrange(0, p as int)[at]);
                    assert forall|q: int| at < q < next.len() implies (#[trigger] next[q]).id_spec()
                        != key by {
                        if q < p {
                            assert(next[q] == all.subrange(0, p as int)[q]);
                        }
                    }
                }
            }
        }
        p += 1;
    }
    proof {
        assert(all.subrange(0, nodes@.len() as int) =~= all);
        assert forall|id: usize| index@.contains_key(id) <==> node_ids(all).to_set().contains(
            id,
        ) by {
            if index@.contains_key(id) {
                let q = choose|q: int| 0 <= q < p && (#[trigger] all[q]).id_spec() == id;
                assert(node_ids(all)[q] == id);
            }
            if node_ids(all).to_set().contains(id) {
                let q = choose|q: int| 0 <= q < node_ids(all).len() && node_ids(all)[q] == id;
                assert(all[q].id_spec() == id);
            }
        }
    }
    index
}

/// Each of the hyperedges with its members as nodes: for each listed id the last of
/// the nodes that bears it.
pub fn resolve_members<'a, N: Vertex, E: Hyperedge>(
    nodes: &Vec<&'a N>,
    edges: &Vec<&'a E>,
) -> (r: Result<Vec<(&'a E, Vec<&'a N>)>, DanglingMember>)
    ensures
        match r {
            Ok(v) => {
                &&& intact(node_ids(shown(nodes@)).to_set(), member_lists(shown(edges@)))
                &&& v@.len() == shown(edges@).len()
                &&& forall|k: int|
                    0 <= k < v@.len() ==> {
                        &&& *(#[trigger] v@[k]).0 == shown(edges@)[k]
                        &&& resolved(shown(nodes@), shown(edges@)[k].ids(), v@[k].1@)
                    }
            },
            Err(d) => {
                &&& first_dangling(node_ids(shown(nodes@)).to_set(), member_lists(shown(edges@)), d.edge as int, d.position as int)
                &&& d.id == member_lists(shown(edges@))[d.edge as int][d.position as int]
            },
        },
{
    broadcast use group_hash_axioms;
    let index = index_positions(nodes);
    let ghost all = shown(nodes@);
    let ghost known = node_ids(shown(nodes@)).to_set();
    let ghost lists = member_lists(shown(edges@));
    let mut out: Vec<(&'a E, Vec<&'a N>)> = Vec::new();
    let mut k: usize = 0;
    while k < edges.len()
        invariant
            k <= edges.len(),
            all == shown(nodes@),
            known == node_ids(all).to_set(),
            lists == member_lists(shown(edges@)),
            forall|id: usize| index@.contains_key(id) <==> known.contains(id),
            forall|id: usize| #[trigger]
                index@.contains_key(id) ==> is_last_bearer(all, id, index@[id] as int),
            out@.len() == k,
            forall|q: int|
                0 <= q < k ==> {
                    &&& *(#[trigger] out@[q]).0 == shown(edges@)[q]
                    &&& resolved(all, shown(edges@)[q].ids(), out@[q].1@)
                },
            forall|k2: int, i2: int| 0 <= k2 < k ==> !#[trigger] dangling(known, lists, k2, i2),
        decreases edges.len() - k,
    {
        let edge = edges[k];
        let ids = edge.id();
        assert(ids@ == lists[k as int]);
        let mut members: Vec<&'a N> = Vec::new();
        let mut i: usize = 0;
        while i < ids.len()
            invariant
                i <= ids.len(),
                all == shown(nodes@),
                known == node_ids(all).to_set(),
                lists == member_lists(shown(edges@)),
                0 <= k < lists.len(),
                ids@ == lists[k as int],
                forall|id: usize| index@.contains_key(id) <==> known.contains(id),
                forall|id: usize| #[trigger]
                    index@.contains_key(id) ==> is_last_bearer(
                        all,
                        id,
                        index@[id] as int,
                    ),
                members@.len() == i,
                forall|q: int| 0 <= q < i ==> is_last_with(all, ids@[q], *#[trigger] members@[q]),
                forall|q: int| 0 <= q < i ==> known.contains(#[trigger] ids@[q]),
                forall|k2: int, i2: int| 0 <= k2 < k ==> !#[trigger] dangling(known, lists, k2, i2),
            decreases ids.len() - i,
        {
            let id = ids[i];
            match index.get(&id) {
                Some(at) => {
                    let at: usize = *at;
                    assert(is_last_bearer(all, id, at as int));
                    assert(all[at as int] == *nodes@[at as int]);
                    assert(is_last_with(all, id, *nodes@[at as int]));
                    members.push(nodes[at]);
                },
                None => {
                    proof {
                        assert(!known.contains(id));
                        assert forall|k2: int, i2: int| #[trigger]
                            dangling(known, lists, k2, i2) implies k < k2 || (k == k2 && i
                            <= i2) by {
                            if k2 == k && i2 < i {
                                assert(known.contains(ids@[i2]));
                            }
                        }
                    }
                    return Err(DanglingMember { edge: k, position: i, id });
                },
            }
            i += 1;
        }
        assert(lists[k as int] == shown(edges@)[k as int].ids());
        assert(members@.len() == ids@.len());
        assert(resolved(all, ids@, members@));
        let ghost before = out@;
        out.push((edge, members));
        proof {
            assert forall|q: int| 0 <= q < k + 1 implies {
                &&& *(#[trigger] out@[q]).0 == shown(edges@)[q]
                &&& resolved(all, shown(edges@)[q].ids(), out@[q].1@)
            } by {
                if q < k {
                    assert(out@[q] == before[q]);
                }
            }
            assert forall|k2: int, i2: int| 0 <= k2 < k + 1 implies !#[trigger] dangling(
                known,
                lists,
                k2,
                i2,
            ) by {
                if k2 == k && 0 <= i2 < ids@.len() {
                    assert(known.contains(ids@[i2]));
                }
            }
        }
        k += 1;
    }
    Ok(out)
}

/// The position of the first node that bears `id`.
fn find_first<N: Vertex>(nodes: &Vec<&N>, id: usize) -> (r: Option<usize>)
    ensures
        match r {
            Some(p) => is_first_bearer(shown(nodes@), id, p as int),
            None => !node_ids(shown(nodes@)).to_set().contains(id),
        },
{
    let ghost all = shown(nodes@);
    let mut p: usize = 0;
    while p < nodes.len()
        invariant
            p <= nodes.len(),
            all == shown(nodes@),
            forall|q: int| 0 <= q < p ==> (#[trigger] all[q]).id_spec() != id,
        decreases nodes.len() - p,
    {
        assert(all[p as int] == *nodes@[p as int]);
        if nodes[p].id() == id {
            return Some(p);
        }
        p += 1;
    }
    proof {
        if node_ids(all).to_set().contains(id) {
            let q = choose|q: int| 0 <= q < node_ids(all).len() && node_ids(all)[q] == id;
            assert(all[q].id_spec() == id);
        }
    }
    None
}

/// For each of the `ids` in turn, the first of the nodes that bears it; nothing when
/// an id has no bearer.
pub fn resolve_first<'a, N: Vertex>(nodes: &Vec<&'a N>, ids: &Vec<usize>) -> (r: Option<
    Vec<&'a N>,
>)
    ensures
        match r {
            Some(v) => resolved_first(shown(nodes@), ids@, v@),
            None => exists|i: int|
                0 <= i < ids@.len() && !node_ids(shown(nodes@)).to_set().contains(
                    #[trigger] ids@[i],
                ),
        },
{
    let ghost all = shown(nodes@);
    let mut out: Vec<&'a N> = Vec::new();
    let mut i: usize = 0;
    while i < ids.len()
        invariant
            i <= ids.len(),
            all == shown(nodes@),
            out@.len() == i,
            forall|q: int| 0 <= q < i ==> is_first_with(all, ids@[q], *#[trigger] out@[q]),
        decreases ids.len() - i,
    {
        match find_first(nodes, ids[i]) {
            Some(p) => {
                assert(all[p as int] == *nodes@[p as int]);
                assert(is_first_with(all, ids@[i as int], *nodes@[p as int]));
                out.push(nodes[p]);
            },
            None => {
                return None;
            },
        }
        i += 1;
    }
    Some(out)
}

/// `found` is the edge at position `at`.
pub open spec fn is_edge_at<E>(edges: Seq<E>, at: usize, found: E) -> bool {
    at < edges.len() && found == edges[at as int]
}

/// The edges at the given positions; nothing when a position is past the last edge.
pub fn pick_edges<'a, E: Hyperedge>(edges: &Vec<&'a E>, positions: &Vec<usize>) -> (r: Option<
    Vec<&'a E>,
>)
    ensures
        match r {
            Some(v) => {
                &&& v@.len() == positions@.len()
                &&& forall|i: int|
                    0 <= i < v@.len() ==> is_edge_at(
                        shown(edges@),
                        positions@[i],
                        *#[trigger] v@[i],
                    )
            },
            None => exists|i: int|
                0 <= i < positions@.len() && #[trigger] positions@[i] >= edges@.len(),
        },
{
    let mut out: Vec<&'a E> = Vec::new();
    let mut i: usize = 0;
    while i < positions.len()
        invariant
            i <= positions.len(),
            out@.len() == i,
            forall|q: int|
                0 <= q < i ==> is_edge_at(shown(edges@), positions@[q], *#[trigger] out@[q]),
        decreases positions.len() - i,
    {
        let at = positions[i];
        if at >= edges.len() {
            return None;
        }
        assert(is_edge_at(shown(edges@), at, *edges@[at as int]));
        out.push(edges[at]);
        i += 1;
    }
    Some(out)
}

/// A hypergraph whose hyperedges are directed.
pub trait DirectedHypergraph: Hypergraph + Sized where Self::Edge: DirectedHyperedge {

}

/// Co-membership: two nodes are neighbours when a hyperedge lists both.
pub trait Neighbor: Hypergraph + Sized {
    /// Under each node id, the ids that share a hyperedge with it. The members of a
    /// hyperedge are the ids it lists, each once; for every hyperedge and every pair of
    /// its members, each of the two is listed under the other. Fails when a hyperedge
    /// lists an id that no node bears.
    fn get_neighbors(&self) -> (r: Result<AdjacencyList, DanglingMember>)
        ensures
            match r {
                Ok(adj) => {
                    &&& intact(known_ids(self), id_lists(self))
                    &&& tabulates(
                        adj@,
                        known_ids(self),
                        graph_entries(PairRule::Mutual, id_lists(self), id_lists(self).len() as int),
                    )
                },
                Err(d) => {
                    &&& first_dangling(
                        known_ids(self),
                        id_lists(self),
                        d.edge as int,
                        d.position as int,
                    )
                    &&& d.id == id_lists(self)[d.edge as int][d.position as int]
                },
            },
    {
        build_pairwise(self, PairRule::Mutual)
    }

    /// The neighbours that `adj` lists for `node`, each as the first node of `self` that
    /// bears the listed id. Nothing when `adj` has no list for the node's id, or lists
    /// an id that no node of `self` bears.
    fn neighbors(&self, adj: &AdjacencyList, node: &Self::Node) -> (r: Option<Vec<&Self::Node>>)
        ensures
            match r {
                Some(v) => {
                    &&& adj@.contains_key(node.id_spec())
                    &&& resolved_first(self.node_seq(), adj@[node.id_spec()], v@)
                },
                None => !adj@.contains_key(node.id_spec()) || exists|i: int|
                    0 <= i < adj@[node.id_spec()].len() && !known_ids(self).contains(
                        #[trigger] adj@[node.id_spec()][i],
                    ),
            },
    {
        let nodes = self.nodes();
        assert(shown(nodes@) =~= self.node_seq());
        match adj.get(node.id()) {
            Some(list) => resolve_first(&nodes, list),
            None => None,
        }
    }
}

/// Precursors: within a directed hyperedge, earlier members precede later ones.
pub trait Precursor: DirectedHypergraph where Self::Edge: DirectedHyperedge {
    /// Under each node id, the ids that precede it: for every hyperedge and every pair
    /// of its members, the one that first occurs earlier is listed under the other.
    /// Fails when a hyperedge lists an id that no node bears.
    fn get_precursor(&self) -> (r: Result<AdjacencyList, DanglingMember>)
        ensures
            match r {
                Ok(adj) => {
                    &&& intact(known_ids(self), id_lists(self))
                    &&& tabulates(
                        adj@,
                        known_ids(self),
                        graph_entries(
                            PairRule::Precursor,
                            id_lists(self),
                            id_lists(self).len() as int,
                        ),
                    )
                },
                Err(d) => {
                    &&& first_dangling(
                        known_ids(self),
                        id_lists(self),
                        d.edge as int,
                        d.position as int,
                    )
                    &&& d.id == id_lists(self)[d.edge as int][d.position as int]
                },
            },
    {
        build_pairwise(self, PairRule::Precursor)
    }
}

/// Successors: within a directed hyperedge, later members succeed earlier ones.
pub trait Successor: DirectedHypergraph where Self::Edge: DirectedHyperedge {
    /// Under each node id, the ids that succeed it: for every hyperedge and every pair
    /// of its members, the one that first occurs later is listed under the other.
    /// Fails when a hyperedge lists an id that no node bears.
    fn get_postcursor(&self) -> (r: Result<AdjacencyList, DanglingMember>)
        ensures
            match r {
                Ok(adj) => {
                    &&& intact(known_ids(self), id_lists(self))
                    &&& tabulates(
                        adj@,
                        known_ids(self),
                        graph_entries(
                            PairRule::Successor,
                            id_lists(self),
                            id_lists(self).len() as int,
                        ),
                    )
                },
                Err(d) => {
                    &&& first_dangling(
                        known_ids(self),
                        id_lists(self),
                        d.edge as int,
                        d.position as int,
                    )
                    &&& d.id == id_lists(self)[d.edge as int][d.position as int]
                },
            },
    {
        build_pairwise(self, PairRule::Successor)
    }
}

/// Incidence: a node is incident to the hyperedges that list it.
pub trait ContainedHyperedge: Hypergraph + Sized {
    /// Under each node id, the positions of the hyperedges that list it, in order, each
    /// hyperedge once. Fails when a hyperedge lists an id that no node bears.
    fn get_hyperedges_list(&self) -> (r: Result<HyperedgeList, DanglingMember>)
        ensures
            match r {
                Ok(inc) => {
                    &&& intact(known_ids(self), id_lists(self))
                    &&& tabulates(
                        inc@,
                        known_ids(self),
                        incidence_entries(id_lists(self), id_lists(self).len() as int),
                    )
                },
                Err(d) => {
                    &&& first_dangling(
                        known_ids(self),
                        id_lists(self),
                        d.edge as int,
                        d.position as int,
                    )
                    &&& d.id == id_lists(self)[d.edge as int][d.position as int]
                },
            },
    {
        build_incidence(self)
    }

    /// The hyperedges that `inc` lists for `node`. Nothing when `inc` has no list for
    /// the node's id, or lists a position past the last hyperedge of `self`.
    fn contained_hyperedges(&self, inc: &HyperedgeList, node: &Self::Node) -> (r: Option<
        Vec<&Self::Edge>,
    >)
        ensures
            match r {
                Some(v) => {
                    &&& inc@.contains_key(node.id_spec())
                    &&& v@.len() == inc@[node.id_spec()].len()
                    &&& forall|i: int|
                        0 <= i < v@.len() ==> is_edge_at(
                            self.edge_seq(),
                            inc@[node.id_spec()][i],
                            *#[trigger] v@[i],
                        )
                },
                None => !inc@.contains_key(node.id_spec()) || exists|i: int|
                    0 <= i < inc@[node.id_spec()].len() && #[trigger] inc@[node.id_spec()][i]
                        >= self.edge_seq().len(),
            },
    {
        let edges = self.hyperedges();
        assert(shown(edges@) =~= self.edge_seq());
        match inc.get(node.id()) {
            Some(list) => pick_edges(&edges, list),
            None => None,
        }
    }
}

} // verus!
