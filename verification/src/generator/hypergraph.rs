//! Generation and expansion of any hypergraph that can sample its own nodes.

use vstd::prelude::*;
use vstd::pervasive::cloned;
use rand::rngs::StdRng;
use crate::generator::{
    random_range, grown, lemma_grown_intact, relabelled_all, ExactClone, RandomExpand, RandomGenerate,
};
use crate::interfaces::edge::NodeSet;
use crate::interfaces::graph::SingleId;
use crate::interfaces::hypergraph::{id_lists, known_ids, node_ids, shown, Hypergraph};
use crate::interfaces::relations::{dangling, intact};
use crate::interfaces::vertex::Vertex;

verus! {

/// A hypergraph that can pick some of its nodes to form a new hyperedge.
pub trait NodeSample: Hypergraph {
    /// What one sample of a hypergraph with these nodes may be: how many nodes and
    /// which is up to the representation.
    spec fn admits(nodes: Seq<Self::Node>, picked: Seq<Self::Node>) -> bool;

    /// Some nodes of `self`, as the representation admits them.
    fn sample(&self, rng: &mut StdRng) -> (picked: Vec<&Self::Node>)
        ensures
            Self::admits(self.node_seq(), shown(picked@)),
            forall|i: int|
                0 <= i < picked@.len() ==> self.node_seq().contains(*#[trigger] picked@[i]),
    ;
}

/// Every one of `picked` is one of `nodes`.
pub open spec fn all_among<N>(nodes: Seq<N>, picked: Seq<N>) -> bool {
    forall|i: int| 0 <= i < picked.len() ==> nodes.contains(#[trigger] picked[i])
}

/// `ids` are the ids, in order, of a sample that a hypergraph `H` with these nodes may
/// give.
pub open spec fn sampled<H: NodeSample>(nodes: Seq<H::Node>, ids: Seq<usize>) -> bool {
    exists|picked: Seq<H::Node>|
        #[trigger] H::admits(nodes, picked) && all_among(nodes, picked) && node_ids(picked)
            == ids
}

/// The items of `v` in reverse order.
fn reversed<T>(v: Vec<T>) -> (r: Vec<T>)
    ensures
        r@ == v@.reverse(),
{
    let ghost all = v@;
    let mut v = v;
    let mut r: Vec<T> = Vec::new();
    while v.len() > 0
        invariant
            v@.len() + r@.len() == all.len(),
            v@ == all.subrange(0, v@.len() as int),
            forall|q: int| 0 <= q < r@.len() ==> #[trigger] r@[q] == all[all.len() - 1 - q],
        decreases v.len(),
    {
        match v.pop() {
            Some(item) => {
                r.push(item);
            },
            None => {},
        }
        assert(v@ =~= all.subrange(0, v@.len() as int));
    }
    assert(r@ =~= all.reverse());
    r
}

/// The ids of the picked nodes, in order.
fn ids_of<N: Vertex>(picked: &Vec<&N>) -> (ids: Vec<usize>)
    ensures
        ids@.len() == picked@.len(),
        forall|i: int| 0 <= i < ids@.len() ==> #[trigger] ids@[i] == picked@[i].id_spec(),
{
    let mut ids: Vec<usize> = Vec::new();
    let mut i: usize = 0;
    while i < picked.len()
        invariant
            i <= picked.len(),
            ids@.len() == i,
            forall|q: int| 0 <= q < i ==> #[trigger] ids@[q] == picked@[q].id_spec(),
        decreases picked.len() - i,
    {
        ids.push(picked[i].id());
        i += 1;
    }
    ids
}

/// Appends `count` hyperedges to `g`, each made of the ids of one sample of its nodes.
fn add_sampled_edges<H: NodeSample>(g: &mut H, count: usize, rng: &mut StdRng) where
    H::Edge: NodeSet,

    ensures
        final(g).node_seq() == old(g).node_seq(),
        final(g).edge_seq().len() == old(g).edge_seq().len() + count,
        final(g).edge_seq().subrange(0, old(g).edge_seq().len() as int) == old(g).edge_seq(),
        forall|k: int|
            old(g).edge_seq().len() <= k < final(g).edge_seq().len() ==> sampled::<H>(
                final(g).node_seq(),
                #[trigger] id_lists(final(g))[k],
            ),
        forall|k: int, i: int|
            old(g).edge_seq().len() <= k < final(g).edge_seq().len() && 0 <= i < id_lists(
                final(g),
            )[k].len() ==> known_ids(final(g)).contains(#[trigger] id_lists(final(g))[k][i]),
{
    let ghost start = *g;
    let mut k: usize = 0;
    while k < count
        invariant
            k <= count,
            g.node_seq() == start.node_seq(),
            g.edge_seq().len() == start.edge_seq().len() + k,
            g.edge_seq().subrange(0, start.edge_seq().len() as int) == start.edge_seq(),
            forall|q: int|
                start.edge_seq().len() <= q < g.edge_seq().len() ==> sampled::<H>(
                    start.node_seq(),
                    #[trigger] id_lists(g)[q],
                ),
            forall|q: int, i: int|
                start.edge_seq().len() <= q < g.edge_seq().len() && 0 <= i < id_lists(g)[q].len()
                    ==> known_ids(g).contains(#[trigger] id_lists(g)[q][i]),
        decreases count - k,
    {
        let ghost before = *g;
        let picked = g.sample(rng);
        let ids = ids_of(&picked);
        proof {
            assert forall|i: int| 0 <= i < ids@.len() implies known_ids(g).contains(
                #[trigger] ids@[i],
            ) by {
                let node = *picked@[i];
                assert(g.node_seq().contains(node));
                let p = choose|p: int| 0 <= p < g.node_seq().len() && g.node_seq()[p] == node;
                assert(node_ids(g.node_seq())[p] == ids@[i]);
            }
            assert(node_ids(shown(picked@)) =~= ids@);
            assert(all_among(g.node_seq(), shown(picked@))) by {
                assert forall|i: int| 0 <= i < shown(picked@).len() implies g.node_seq().contains(
                    #[trigger] shown(picked@)[i],
                ) by {
                    assert(g.node_seq().contains(*picked@[i]));
                }
            }
            assert(sampled::<H>(start.node_seq(), ids@));
        }
        let edge = H::Edge::from_nodes(ids);
        g.add_hyperedge(edge);
        proof {
            let at = before.edge_seq().len() as int;
            assert(g.edge_seq().subrange(0, start.edge_seq().len() as int) =~= start.edge_seq());
            assert forall|q: int|
                start.edge_seq().len() <= q < g.edge_seq().len() implies sampled::<H>(
                start.node_seq(),
                #[trigger] id_lists(g)[q],
            ) by {
                if q < at {
                    assert(id_lists(g)[q] == id_lists(&before)[q]);
                } else {
                    assert(id_lists(g)[q] == ids@);
                }
            }
            assert forall|q: int, i: int|
                start.edge_seq().len() <= q < g.edge_seq().len() && 0 <= i < id_lists(
                    g,
                )[q].len() implies known_ids(g).contains(#[trigger] id_lists(g)[q][i]) by {
                if q < at {
                    assert(id_lists(g)[q] == id_lists(&before)[q]);
                    assert(known_ids(&before).contains(id_lists(&before)[q][i]));
                } else {
                    assert(id_lists(g)[q] == ids@);
                }
            }
        }
        k += 1;
    }
}

impl<H: NodeSample> RandomGenerate for H where H::Edge: NodeSet {
    fn random_generate(seeds: Vec<H::Node>, e: usize, rng: &mut StdRng) -> (g: H) {
        let ghost all = seeds@;
        let n: usize = seeds.len();
        let mut g = H::new();
        let mut stack = reversed(seeds);
        let mut i: usize = 0;
        while stack.len() > 0
            invariant
                i + stack@.len() == all.len(),
                forall|q: int| 0 <= q < stack@.len() ==> #[trigger] stack@[q] == all[all.len() - 1 - q],
                all.len() == n,
                g.node_seq() == relabelled_all(all).subrange(0, i as int),
                forall|q: int| 0 <= q < i ==> (#[trigger] g.node_seq()[q]).id_spec() == q,
                g.edge_seq().len() == 0,
            decreases stack.len(),
        {
            match stack.pop() {
                Some(seed) => {
                    assert(seed == all[i as int]);
                    let ghost before = g.node_seq();
                    g.add_node(seed.with_id(i));
                    assert(g.node_seq() =~= relabelled_all(all).subrange(0, i + 1));
                    assert forall|q: int| 0 <= q < i + 1 implies (#[trigger] g.node_seq()[q]).id_spec()
                        == q by {
                        if q < i {
                            assert(g.node_seq()[q] == before[q]);
                        }
                    }
                    i += 1;
                },
                None => {},
            }
        }
        assert(relabelled_all(all).subrange(0, all.len() as int) =~= relabelled_all(all));
        add_sampled_edges(&mut g, e, rng);
        proof {
            assert forall|k: int, i: int| !#[trigger] dangling(
                known_ids(&g),
                id_lists(&g),
                k,
                i,
            ) by {
                if 0 <= k < id_lists(&g).len() && 0 <= i < id_lists(&g)[k].len() {
                    assert(known_ids(&g).contains(id_lists(&g)[k][i]));
                }
            }
        }
        g
    }
}

impl<H: NodeSample + ExactClone> RandomExpand for H where H::Edge: NodeSet {
    fn random_expand(&self, fresh: Vec<H::Node>, e_plus: usize, rng: &mut StdRng) -> (g: H) {
        let ghost all = fresh@;
        let n: usize = fresh.len();
        let mut g = self.clone();
        let ghost base = g;
        let mut stack = reversed(fresh);
        let mut i: usize = 0;
        while stack.len() > 0
            invariant
                i + stack@.len() == all.len(),
                forall|q: int| 0 <= q < stack@.len() ==> #[trigger] stack@[q] == all[all.len() - 1 - q],
                all.len() == n,
                g.node_seq() == base.node_seq() + relabelled_all(all).subrange(0, i as int),
                forall|q: int|
                    0 <= q < i ==> (#[trigger] g.node_seq()[base.node_seq().len() + q]).id_spec()
                        == q,
                g.edge_seq() == base.edge_seq(),
            decreases stack.len(),
        {
            match stack.pop() {
                Some(node) => {
                    assert(node == all[i as int]);
                    let ghost before = g.node_seq();
                    g.add_node(node.with_id(i));
                    assert(g.node_seq() =~= base.node_seq() + relabelled_all(all).subrange(
                        0,
                        i + 1,
                    ));
                    assert forall|q: int| 0 <= q < i + 1 implies (#[trigger] g.node_seq()[
                        base.node_seq().len() + q]).id_spec() == q by {
                        if q < i {
                            assert(g.node_seq()[base.node_seq().len() + q] == before[
                                base.node_seq().len() + q]);
                        }
                    }
                    i += 1;
                },
                None => {},
            }
        }
        assert(relabelled_all(all).subrange(0, all.len() as int) =~= relabelled_all(all));
        let ghost mid = g;
        add_sampled_edges(&mut g, e_plus, rng);
        proof {
            assert(id_lists(&g).subrange(0, base.edge_seq().len() as int) =~= id_lists(&base)) by {
                assert forall|k: int| 0 <= k < base.edge_seq().len() implies id_lists(&g)[k]
                    == id_lists(&base)[k] by {
                    assert(g.edge_seq().subrange(0, mid.edge_seq().len() as int)[k]
                        == g.edge_seq()[k]);
                }
            }
            let batch = relabelled_all(all);
            assert(grown(base, batch, e_plus, g));
            assert(cloned(*self, base));
            self.lemma_clone_is_exact(base);
            assert(grown(*self, batch, e_plus, g));
            if intact(known_ids(self), id_lists(self)) {
                lemma_grown_intact(*self, batch, e_plus, g);
            }
            let first = self.node_seq().len() as int;
            assert forall|p: int| first <= p < first + all.len() implies (
            #[trigger] g.node_seq()[p]).id_spec() == p - first by {
                assert(g.node_seq()[first + (p - first)].id_spec() == p - first);
            }
            let tail = node_ids(g.node_seq().subrange(first, first + all.len()));
            assert forall|a: int, b: int| 0 <= a < tail.len() && 0 <= b < tail.len() && a
                != b implies tail[a] != tail[b] by {
                assert(g.node_seq()[first + a].id_spec() == a);
                assert(g.node_seq()[first + b].id_spec() == b);
            }
        }
        g
    }
}

/// `amount` pairwise distinct positions below `length`, or all `length` positions
/// where `amount` is more, drawn by a partial shuffle: each next position is drawn
/// uniformly from those not yet drawn.
pub fn distinct_positions(length: usize, amount: usize, rng: &mut StdRng) -> (r: Vec<usize>)
    ensures
        r@.len() == if amount <= length {
            amount
        } else {
            length
        },
        r@.no_duplicates(),
        forall|i: int| 0 <= i < r@.len() ==> #[trigger] r@[i] < length,
{
    let amount = if amount <= length {
        amount
    } else {
        length
    };
    let mut pool: Vec<usize> = Vec::new();
    let mut p: usize = 0;
    while p < length
        invariant
            p <= length,
            pool@.len() == p,
            forall|q: int| 0 <= q < p ==> #[trigger] pool@[q] == q,
        decreases length - p,
    {
        pool.push(p);
        p += 1;
    }
    let mut t: usize = 0;
    while t < amount
        invariant
            t <= amount <= length,
            pool@.len() == length,
            pool@.no_duplicates(),
            forall|q: int| 0 <= q < length ==> #[trigger] pool@[q] < length,
        decreases amount - t,
    {
        let j = random_range(rng, t, length);
        let a = pool[t];
        let b = pool[j];
        pool.set(t, b);
        pool.set(j, a);
        t += 1;
    }
    let mut r: Vec<usize> = Vec::new();
    let mut i: usize = 0;
    while i < amount
        invariant
            i <= amount <= length,
            pool@.len() == length,
            pool@.no_duplicates(),
            forall|q: int| 0 <= q < length ==> #[trigger] pool@[q] < length,
            r@ == pool@.subrange(0, i as int),
        decreases amount - i,
    {
        r.push(pool[i]);
        assert(r@ =~= pool@.subrange(0, i + 1));
        i += 1;
    }
    r
}

} // verus!
