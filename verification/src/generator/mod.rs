//! Random growth of hypergraphs.

pub mod hypergraph;

use crate::generator::hypergraph::{sampled, NodeSample};

use vstd::prelude::*;
use vstd::pervasive::cloned;
use rand::rngs::StdRng;
use rand::Rng;
use crate::interfaces::graph::SingleId;
use crate::interfaces::hypergraph::{id_lists, known_ids, node_ids, Hypergraph};
use crate::interfaces::relations::{dangling, intact};
use crate::interfaces::vertex::Vertex;

verus! {

/// `rand::rngs::StdRng`, the pseudo-random generator that the library draws from; it is
/// carried through as an opaque value.
#[verifier::external_type_specification]
#[verifier::external_body]
pub struct ExStdRng(rand::rngs::StdRng);

/// Draws an integer from `low .. high` with `Rng::random_range`, which returns a
/// value of the range it is given and panics on an empty one.
#[verifier::external_body]
pub(crate) fn random_range(rng: &mut StdRng, low: usize, high: usize) -> (r: usize)
    requires
        low < high,
    ensures
        low <= r < high,
{
    rng.random_range(low..high)
}

/// The seeds relabelled `0, 1, 2, ...` in order.
pub open spec fn relabelled_all<N: Vertex>(seeds: Seq<N>) -> Seq<N> {
    Seq::new(seeds.len(), |i: int| seeds[i].relabelled(i as usize))
}

/// `g` is `base` with the nodes `fresh` appended and `extra` hyperedges appended, each
/// of which lists the ids of one sample of the nodes of `g`, in the order of the
/// sample, and so only ids that nodes of `g` bear.
pub open spec fn grown<H: NodeSample>(base: H, fresh: Seq<H::Node>, extra: usize, g: H) -> bool {
    &&& g.node_seq() == base.node_seq() + fresh
    &&& g.edge_seq().len() == base.edge_seq().len() + extra
    &&& id_lists(&g).subrange(0, base.edge_seq().len() as int) == id_lists(&base)
    &&& forall|k: int|
        base.edge_seq().len() <= k < g.edge_seq().len() ==> sampled::<H>(
            g.node_seq(),
            #[trigger] id_lists(&g)[k],
        )
    &&& forall|k: int, i: int|
        base.edge_seq().len() <= k < g.edge_seq().len() && 0 <= i < id_lists(&g)[k].len()
            ==> known_ids(&g).contains(#[trigger] id_lists(&g)[k][i])
}

/// Hypergraphs that can be drawn from scratch.
pub trait RandomGenerate: NodeSample {
    /// A hypergraph with one node for each seed and `e` sampled hyperedges. The nodes
    /// are the seeds in order, relabelled `0 .. n`, so that their ids are pairwise
    /// distinct and below `n`; all nodes are in place before the first hyperedge is
    /// sampled, and every hyperedge lists the ids of one sample of these nodes.
    fn random_generate(seeds: Vec<Self::Node>, e: usize, rng: &mut StdRng) -> (g: Self)
        ensures
            g.node_seq() == relabelled_all(seeds@),
            g.node_seq().len() == seeds@.len(),
            forall|i: int| 0 <= i < seeds@.len() ==> (#[trigger] g.node_seq()[i]).id_spec() == i,
            node_ids(g.node_seq()).no_duplicates(),
            forall|i: int|
                0 <= i < seeds@.len() ==> #[trigger] node_ids(g.node_seq())[i] < seeds@.len(),
            g.edge_seq().len() == e,
            forall|k: int|
                0 <= k < e ==> sampled::<Self>(g.node_seq(), #[trigger] id_lists(&g)[k]),
            intact(known_ids(&g), id_lists(&g)),
    ;
}

/// A hypergraph whose clones have its nodes and the id vectors of its hyperedges.
pub trait ExactClone: Hypergraph + Clone {
    /// Whatever `clone` may return has the nodes of `self` and the id vectors of its
    /// hyperedges.
    proof fn lemma_clone_is_exact(&self, copy: Self)
        requires
            cloned(*self, copy),
        ensures
            copy.node_seq() == self.node_seq(),
            id_lists(&copy) == id_lists(self),
    ;
}

/// Hypergraphs that can be grown.
pub trait RandomExpand: ExactClone + NodeSample {
    /// A copy of `self` with the nodes `fresh` appended and `e_plus` sampled hyperedges
    /// appended; `self` is left as it was. The fresh nodes are one batch: they are
    /// relabelled `0 .. a` in order, so that their ids are pairwise distinct; these ids
    /// do not continue those of the nodes that were there. The node count grows by the
    /// number of fresh nodes and the hyperedge count by `e_plus`; each new hyperedge
    /// lists the ids of one sample of the nodes of the result.
    fn random_expand(&self, fresh: Vec<Self::Node>, e_plus: usize, rng: &mut StdRng) -> (g: Self)
        ensures
            grown(*self, relabelled_all(fresh@), e_plus, g),
            forall|p: int|
                self.node_seq().len() <= p < self.node_seq().len() + fresh@.len() ==> (
                #[trigger] g.node_seq()[p]).id_spec() == p - self.node_seq().len(),
            node_ids(
                g.node_seq().subrange(
                    self.node_seq().len() as int,
                    (self.node_seq().len() + fresh@.len()) as int,
                ),
            ).no_duplicates(),
            g.node_seq().len() == self.node_seq().len() + fresh@.len(),
            g.edge_seq().len() == self.edge_seq().len() + e_plus,
            intact(known_ids(self), id_lists(self)) ==> intact(known_ids(&g), id_lists(&g)),
    ;
}

/// Growth by no node and no hyperedge leaves the nodes, the number of hyperedges and
/// their id vectors as they were.
pub proof fn lemma_grown_by_nothing<H: NodeSample>(base: H, g: H)
    requires
        grown(base, Seq::<H::Node>::empty(), 0, g),
    ensures
        g.node_seq() == base.node_seq(),
        g.node_seq().len() == base.node_seq().len(),
        g.edge_seq().len() == base.edge_seq().len(),
        id_lists(&g) == id_lists(&base),
{
    assert(g.node_seq() =~= base.node_seq());
    assert(id_lists(&g).subrange(0, base.edge_seq().len() as int) =~= id_lists(&g));
}

/// Growth adds as many nodes as it is given and as many hyperedges as it is asked for.
pub proof fn lemma_grown_counts<H: NodeSample>(base: H, fresh: Seq<H::Node>, extra: usize, g: H)
    requires
        grown(base, fresh, extra, g),
    ensures
        g.node_seq().len() == base.node_seq().len() + fresh.len(),
        g.edge_seq().len() == base.edge_seq().len() + extra,
{
}

/// Growth keeps referential integrity: when every member id of `base` is borne by a
/// node of `base`, every member id of `g` is borne by a node of `g`.
pub proof fn lemma_grown_intact<H: NodeSample>(base: H, fresh: Seq<H::Node>, extra: usize, g: H)
    requires
        grown(base, fresh, extra, g),
        intact(known_ids(&base), id_lists(&base)),
    ensures
        intact(known_ids(&g), id_lists(&g)),
{
    let old_len = base.edge_seq().len() as int;
    assert forall|k: int, i: int| !#[trigger] dangling(known_ids(&g), id_lists(&g), k, i) by {
        if 0 <= k < id_lists(&g).len() && 0 <= i < id_lists(&g)[k].len() {
            if k < old_len {
                assert(id_lists(&g).subrange(0, old_len)[k] == id_lists(&g)[k]);
                let id = id_lists(&base)[k][i];
                assert(!dangling(known_ids(&base), id_lists(&base), k, i));
                assert(known_ids(&base).contains(id));
                let p = choose|p: int|
                    0 <= p < node_ids(base.node_seq()).len() && node_ids(base.node_seq())[p] == id;
                assert(node_ids(g.node_seq())[p] == id);
            } else {
                assert(known_ids(&g).contains(id_lists(&g)[k][i]));
            }
        }
    }
}

/// Hypergraphs that can be thinned out.
pub trait RandomShrink: Sized {
    fn random_shrink(&self, n_minus: usize, e_minus: usize, rng: &mut StdRng) -> Self;
}

/// Hypergraphs that can be rewired.
pub trait RandomModify: Sized {
    fn random_modify(&self, n_modify: usize, e_modify: usize, rng: &mut StdRng) -> Self;
}

} // verus!
