//! The registry of cluster centroids, the generation parameters, and the decisions
//! that turn a candidate draw into the descriptor of a new node.

use vstd::prelude::*;
use rand::rngs::StdRng;
use crate::generator::random_range;
use crate::impls::hypergraph::{Desc, Node, NodeType};
use crate::interfaces::graph::SingleId;

verus! {

/// The bit pattern of the number one.
pub const ONE_BITS: u64 = 0x3FF0_0000_0000_0000;

/// The bit pattern of negative zero.
pub const NEGATIVE_ZERO_BITS: u64 = 0x8000_0000_0000_0000;

/// How often an orthogonal direction is drawn before the search is given up.
pub const MAX_ATTEMPTS: usize = 1024;

/// The bit pattern is that of a number `x` with `0 <= x <= 1`: the patterns of the
/// non-negative numbers up to one are the integers up to `ONE_BITS`, and negative zero
/// equals zero. Every other pattern is a negative number, a number above one, or not
/// a number.
pub open spec fn in_unit_interval(bits: u64) -> bool {
    bits <= ONE_BITS || bits == NEGATIVE_ZERO_BITS
}

/// Why generation parameters are refused.
#[derive(Clone, Copy, Debug, PartialEq, Eq, Structural)]
pub enum ConfigError {
    /// There is no cluster type to draw from.
    NoClusterType,
    /// The affinity probability is not in the unit interval.
    AffinityOutOfRange,
    /// The mixing weight is not in the unit interval.
    MixingOutOfRange,
}

/// Generation parameters that have been checked: the number of cluster types, the
/// affinity probability and the mixing weight, the latter two as bit patterns.
#[derive(Clone, Copy, Debug, PartialEq, Eq, Structural)]
pub struct GeneratorConfig {
    k: usize,
    p_bits: u64,
    alpha_bits: u64,
}

impl GeneratorConfig {
    /// The number of cluster types.
    pub closed spec fn k_spec(&self) -> usize {
        self.k
    }

    /// The bit pattern of the affinity probability.
    pub closed spec fn p_spec(&self) -> u64 {
        self.p_bits
    }

    /// The bit pattern of the mixing weight.
    pub closed spec fn alpha_spec(&self) -> u64 {
        self.alpha_bits
    }

    /// The parameters are in range.
    #[verifier::type_invariant]
    pub closed spec fn valid(&self) -> bool {
        &&& self.k > 0
        &&& in_unit_interval(self.p_bits)
        &&& in_unit_interval(self.alpha_bits)
    }

    /// Checks the parameters, before any generation work: the number of cluster types
    /// first, then the affinity probability, then the mixing weight.
    pub fn new(k: usize, p_bits: u64, alpha_bits: u64) -> (r: Result<Self, ConfigError>)
        ensures
            match r {
                Ok(c) => {
                    &&& k > 0
                    &&& in_unit_interval(p_bits)
                    &&& in_unit_interval(alpha_bits)
                    &&& c.k_spec() == k
                    &&& c.p_spec() == p_bits
                    &&& c.alpha_spec() == alpha_bits
                },
                Err(ConfigError::NoClusterType) => k == 0,
                Err(ConfigError::AffinityOutOfRange) => k > 0 && !in_unit_interval(p_bits),
                Err(ConfigError::MixingOutOfRange) => {
                    &&& k > 0
                    &&& in_unit_interval(p_bits)
                    &&& !in_unit_interval(alpha_bits)
                },
            },
    {
        if k == 0 {
            return Err(ConfigError::NoClusterType);
        }
        if !(p_bits <= ONE_BITS || p_bits == NEGATIVE_ZERO_BITS) {
            return Err(ConfigError::AffinityOutOfRange);
        }
        if !(alpha_bits <= ONE_BITS || alpha_bits == NEGATIVE_ZERO_BITS) {
            return Err(ConfigError::MixingOutOfRange);
        }
        Ok(GeneratorConfig { k, p_bits, alpha_bits })
    }

    /// The number of cluster types.
    pub fn k(&self) -> (k: usize)
        ensures
            k == self.k_spec(),
            k > 0,
    {
        proof {
            use_type_invariant(self);
        }
        self.k
    }

    /// The bit pattern of the affinity probability.
    pub fn p_bits(&self) -> (bits: u64)
        ensures
            bits == self.p_spec(),
            in_unit_interval(bits),
    {
        proof {
            use_type_invariant(self);
        }
        self.p_bits
    }

    /// The bit pattern of the mixing weight.
    pub fn alpha_bits(&self) -> (bits: u64)
        ensures
            bits == self.alpha_spec(),
            in_unit_interval(bits),
    {
        proof {
            use_type_invariant(self);
        }
        self.alpha_bits
    }

    /// Draws a cluster type uniformly from `0 .. k`.
    pub fn draw_type(&self, rng: &mut StdRng) -> (t: usize)
        ensures
            t < self.k_spec(),
    {
        proof {
            use_type_invariant(self);
        }
        random_range(rng, 0, self.k)
    }
}

/// The search for an orthogonal direction found none that is far enough from zero.
#[derive(Clone, Copy, Debug, PartialEq, Eq, Structural)]
pub struct DegenerateVector {
    /// The number of directions that were drawn.
    pub attempts: usize,
}

/// Decides what follows the drawing of a direction, `attempts` directions having been
/// drawn so far: a usable one is accepted (`true`); after an unusable one another is
/// drawn (`false`) until `MAX_ATTEMPTS` have been drawn, and then the search fails.
pub fn judge_attempt(usable: bool, attempts: usize) -> (r: Result<bool, DegenerateVector>)
    ensures
        match r {
            Ok(accepted) => accepted == usable && (usable || attempts < MAX_ATTEMPTS),
            Err(e) => !usable && attempts >= MAX_ATTEMPTS && e.attempts == attempts,
        },
{
    if usable {
        Ok(true)
    } else if attempts < MAX_ATTEMPTS {
        Ok(false)
    } else {
        Err(DegenerateVector { attempts })
    }
}

/// The map that the entries make, a later entry for a key replacing an earlier one.
pub open spec fn entries_map(entries: Seq<(usize, Desc)>) -> Map<usize, Desc>
    decreases entries.len(),
{
    if entries.len() == 0 {
        Map::empty()
    } else {
        entries_map(entries.drop_last()).insert(entries.last().0, entries.last().1)
    }
}

/// The keys of the entries, in order.
pub open spec fn entry_keys(entries: Seq<(usize, Desc)>) -> Seq<usize> {
    Seq::new(entries.len(), |i: int| entries[i].0)
}

/// A key is in the map of the entries exactly when an entry has it; where no key
/// occurs twice, each entry's key maps to that entry's descriptor.
pub proof fn lemma_entries_map(entries: Seq<(usize, Desc)>)
    ensures
        forall|t: usize|
            entries_map(entries).contains_key(t) <==> exists|i: int|
                0 <= i < entries.len() && (#[trigger] entries[i]).0 == t,
        entry_keys(entries).no_duplicates() ==> forall|i: int|
            0 <= i < entries.len() ==> entries_map(entries)[(#[trigger] entries[i]).0]
                == entries[i].1,
    decreases entries.len(),
{
    if entries.len() > 0 {
        let front = entries.drop_last();
        let last = entries.last();
        lemma_entries_map(front);
        assert(entries_map(entries) == entries_map(front).insert(last.0, last.1));
        assert forall|t: usize|
            entries_map(entries).contains_key(t) <==> exists|i: int|
                0 <= i < entries.len() && (#[trigger] entries[i]).0 == t by {
            if entries_map(entries).contains_key(t) {
                if t == last.0 {
                    assert(entries[entries.len() - 1].0 == t);
                } else {
                    assert(entries_map(front).contains_key(t));
                    let i = choose|i: int| 0 <= i < front.len() && (#[trigger] front[i]).0 == t;
                    assert(entries[i] == front[i]);
                }
            }
            if exists|i: int| 0 <= i < entries.len() && (#[trigger] entries[i]).0 == t {
                let i = choose|i: int| 0 <= i < entries.len() && (#[trigger] entries[i]).0 == t;
                if i < front.len() {
                    assert(front[i] == entries[i]);
                    assert(entries_map(front).contains_key(t));
                }
            }
        }
        if entry_keys(entries).no_duplicates() {
            assert(entry_keys(front).no_duplicates()) by {
                assert forall|a: int, b: int|
                    0 <= a < front.len() && 0 <= b < front.len() && a != b implies entry_keys(
                    front,
                )[a] != entry_keys(front)[b] by {
                    assert(entry_keys(entries)[a] == entry_keys(front)[a]);
                    assert(entry_keys(entries)[b] == entry_keys(front)[b]);
                }
            }
            assert forall|i: int| 0 <= i < entries.len() implies entries_map(
                entries,
            )[(#[trigger] entries[i]).0] == entries[i].1 by {
                if i < front.len() {
                    assert(front[i] == entries[i]);
                    assert(entry_keys(entries)[i] != entry_keys(entries)[entries.len() - 1]);
                }
            }
        }
    }
}

/// What is to be done with a candidate draw for a node of some cluster type.
#[derive(Debug)]
pub enum DrawPlan {
    /// The registry is empty: the candidate becomes the centroid of the type as it is.
    Adopt,
    /// The type is new to a registry that knows others, whose centroids these are in
    /// the order of their arrival: the centroid of the type is a unit vector orthogonal
    /// to their sum, plus the candidate.
    Found { centroids: Vec<Desc> },
    /// The type is known and this is its centroid: the descriptor is a blend of the
    /// candidate with the centroid, or with a unit vector orthogonal to the centroid.
    Blend { centroid: Desc },
}

/// The centroids of the cluster types seen so far. An entry, once made, is neither
/// replaced nor removed; only `clear` empties the registry.
#[derive(Debug)]
pub struct ClusterRegistry {
    kinds: Vec<usize>,
    centroids: Vec<Desc>,
}

impl View for ClusterRegistry {
    type V = Map<usize, Desc>;

    open spec fn view(&self) -> Map<usize, Desc> {
        entries_map(self.history())
    }
}

impl ClusterRegistry {
    /// The entries in the order of their arrival.
    pub closed spec fn history(&self) -> Seq<(usize, Desc)> {
        Seq::new(self.kinds@.len(), |i: int| (self.kinds@[i], self.centroids@[i]))
    }

    /// Each type has one centroid.
    #[verifier::type_invariant]
    pub closed spec fn well_formed(&self) -> bool {
        &&& self.kinds@.len() == self.centroids@.len()
        &&& self.kinds@.no_duplicates()
    }

    /// No type occurs twice among the entries.
    proof fn lemma_one_entry_per_type(&self)
        requires
            self.well_formed(),
        ensures
            entry_keys(self.history()).no_duplicates(),
    {
        assert(entry_keys(self.history()) =~= self.kinds@);
    }

    /// The registry without entries.
    pub fn new() -> (r: Self)
        ensures
            r.history() == Seq::<(usize, Desc)>::empty(),
            r@ == Map::<usize, Desc>::empty(),
    {
        let r = ClusterRegistry { kinds: Vec::new(), centroids: Vec::new() };
        assert(r.history() =~= Seq::<(usize, Desc)>::empty());
        r
    }

    /// The number of types seen.
    pub fn len(&self) -> (n: usize)
        ensures
            n == self.history().len(),
    {
        self.kinds.len()
    }

    /// True when no type has been seen.
    pub fn is_empty(&self) -> (b: bool)
        ensures
            b == (self.history().len() == 0),
            b == (self@ == Map::<usize, Desc>::empty()),
    {
        proof {
            lemma_entries_map(self.history());
            if self.history().len() > 0 {
                assert(self@.contains_key(self.history()[0].0));
            }
        }
        self.kinds.len() == 0
    }

    /// The position of the entry for `kind`.
    fn position(&self, kind: usize) -> (r: Option<usize>)
        ensures
            match r {
                Some(i) => i < self.history().len() && self.history()[i as int].0 == kind,
                None => forall|i: int|
                    0 <= i < self.history().len() ==> (#[trigger] self.history()[i]).0 != kind,
            },
    {
        let mut i: usize = 0;
        while i < self.kinds.len()
            invariant
                i <= self.kinds.len(),
                forall|q: int| 0 <= q < i ==> self.kinds@[q] != kind,
            decreases self.kinds.len() - i,
        {
            if self.kinds[i] == kind {
                return Some(i);
            }
            i += 1;
        }
        None
    }

    /// True when `kind` has been seen.
    pub fn contains_key(&self, kind: usize) -> (b: bool)
        ensures
            b == self@.contains_key(kind),
    {
        proof {
            lemma_entries_map(self.history());
        }
        self.position(kind).is_some()
    }

    /// The centroid of `kind`, if it has been seen.
    pub fn get(&self, kind: usize) -> (r: Option<Desc>)
        ensures
            match r {
                Some(d) => self@.contains_key(kind) && d == self@[kind],
                None => !self@.contains_key(kind),
            },
    {
        proof {
            use_type_invariant(self);
            self.lemma_one_entry_per_type();
            lemma_entries_map(self.history());
        }
        match self.position(kind) {
            Some(i) => Some(self.centroids[i]),
            None => None,
        }
    }

    /// All centroids, in the order of their arrival.
    pub fn centroids(&self) -> (v: Vec<Desc>)
        ensures
            v@.len() == self.history().len(),
            forall|i: int| 0 <= i < v@.len() ==> #[trigger] v@[i] == self.history()[i].1,
    {
        proof {
            use_type_invariant(self);
        }
        let mut v: Vec<Desc> = Vec::new();
        let mut i: usize = 0;
        while i < self.centroids.len()
            invariant
                i <= self.centroids.len(),
                self.kinds@.len() == self.centroids@.len(),
                v@.len() == i,
                forall|q: int| 0 <= q < i ==> #[trigger] v@[q] == self.centroids@[q],
            decreases self.centroids.len() - i,
        {
            v.push(self.centroids[i]);
            i += 1;
        }
        v
    }

    /// Forgets every type.
    pub fn clear(&mut self)
        ensures
            final(self).history() == Seq::<(usize, Desc)>::empty(),
            final(self)@ == Map::<usize, Desc>::empty(),
    {
        *self = ClusterRegistry::new();
    }

    /// Makes `centroid` the centroid of `kind` unless `kind` has one; says whether it
    /// did. The test and the entry are one step.
    pub fn register(&mut self, kind: usize, centroid: Desc) -> (inserted: bool)
        ensures
            inserted == !old(self)@.contains_key(kind),
            inserted ==> final(self).history() == old(self).history().push((kind, centroid)),
            inserted ==> final(self)@ == old(self)@.insert(kind, centroid),
            !inserted ==> final(self).history() == old(self).history(),
    {
        proof {
            use_type_invariant(&*self);
            lemma_entries_map(self.history());
        }
        match self.position(kind) {
            Some(_) => false,
            None => {
                let ghost before = self.history();
                let ghost kinds_before = self.kinds@;
                let mut taken = ClusterRegistry::new();
                std::mem::swap(self, &mut taken);
                let ClusterRegistry { kinds, centroids } = taken;
                let mut kinds = kinds;
                let mut centroids = centroids;
                kinds.push(kind);
                centroids.push(centroid);
                proof {
                    assert forall|a: int, b: int|
                        0 <= a < kinds@.len() && 0 <= b < kinds@.len() && a != b implies kinds@[a]
                        != kinds@[b] by {
                        if a < kinds_before.len() {
                            assert(before[a].0 == kinds_before[a]);
                        }
                        if b < kinds_before.len() {
                            assert(before[b].0 == kinds_before[b]);
                        }
                    }
                }
                *self = ClusterRegistry { kinds, centroids };
                proof {
                    assert(self.history() =~= before.push((kind, centroid)));
                    assert(self.history().drop_last() =~= before);
                    assert forall|a: int, b: int|
                        0 <= a < self.kinds@.len() && 0 <= b < self.kinds@.len() && a
                            != b implies self.kinds@[a] != self.kinds@[b] by {
                        if a < kinds_before.len() {
                            assert(before[a].0 == kinds_before[a]);
                        }
                        if b < kinds_before.len() {
                            assert(before[b].0 == kinds_before[b]);
                        }
                    }
                }
                true
            },
        }
    }

    /// What is to be done with a candidate draw for a node of type `kind`.
    pub fn plan(&self, kind: usize) -> (r: DrawPlan)
        ensures
            match r {
                DrawPlan::Adopt => self.history().len() == 0,
                DrawPlan::Found { centroids } => {
                    &&& self.history().len() > 0
                    &&& !self@.contains_key(kind)
                    &&& centroids@.len() == self.history().len()
                    &&& forall|i: int|
                        0 <= i < centroids@.len() ==> #[trigger] centroids@[i]
                            == self.history()[i].1
                },
                DrawPlan::Blend { centroid } => self@.contains_key(kind) && centroid == self@[kind],
            },
    {
        proof {
            lemma_entries_map(self.history());
        }
        if self.is_empty() {
            return DrawPlan::Adopt;
        }
        match self.get(kind) {
            Some(centroid) => DrawPlan::Blend { centroid },
            None => DrawPlan::Found { centroids: self.centroids() },
        }
    }

    /// Settles the descriptor of a new node of type `kind`, given the candidate draw
    /// and `derived`, the descriptor that the plan for `kind` derives from it.
    ///
    /// In an empty registry the candidate becomes the centroid of `kind` and is
    /// returned as it is; `derived` is not read. A type that is new to a registry that
    /// knows others gets `derived` as its centroid, and `derived` is returned. For a
    /// known type `derived` is returned and nothing is stored.
    pub fn observe_or_update(&mut self, kind: usize, candidate: Desc, derived: Desc) -> (r: Desc)
        ensures
            old(self).history().len() == 0 ==> {
                &&& r == candidate
                &&& final(self).history() == seq![(kind, candidate)]
                &&& final(self)@ == Map::<usize, Desc>::empty().insert(kind, candidate)
            },
            old(self).history().len() > 0 && !old(self)@.contains_key(kind) ==> {
                &&& r == derived
                &&& final(self).history() == old(self).history().push((kind, derived))
                &&& final(self)@ == old(self)@.insert(kind, derived)
            },
            old(self)@.contains_key(kind) ==> {
                &&& r == derived
                &&& final(self).history() == old(self).history()
                &&& final(self)@ == old(self)@
            },
    {
        proof {
            lemma_entries_map(self.history());
        }
        if self.is_empty() {
            self.register(kind, candidate);
            assert(self.history() =~= seq![(kind, candidate)]);
            candidate
        } else {
            self.register(kind, derived);
            derived
        }
    }
}

impl Node {
    /// The node `id` of cluster type `kind`, its descriptor settled by the registry from
    /// the candidate draw and from `derived`, the descriptor that the registry's plan
    /// for `kind` derives from the candidate: in an empty registry the node carries the
    /// candidate, which becomes the centroid of `kind`; else it carries `derived`,
    /// which becomes the centroid of `kind` where `kind` had none.
    pub fn from_random(
        id: usize,
        kind: usize,
        candidate: Desc,
        derived: Desc,
        registry: &mut ClusterRegistry,
    ) -> (n: Node)
        ensures
            n.id_spec() == id,
            n.type_spec() == NodeType(kind),
            n.desc_spec() == if old(registry).history().len() == 0 {
                candidate
            } else {
                derived
            },
            final(registry).history() == if old(registry)@.contains_key(kind) {
                old(registry).history()
            } else {
                old(registry).history().push((kind, n.desc_spec()))
            },
            final(registry)@ == if old(registry)@.contains_key(kind) {
                old(registry)@
            } else {
                old(registry)@.insert(kind, n.desc_spec())
            },
    {
        proof {
            lemma_entries_map(registry.history());
            assert(registry.history().len() == 0 ==> registry.history().push((kind, candidate))
                =~= seq![(kind, candidate)]);
        }
        let desc = registry.observe_or_update(kind, candidate, derived);
        Node::new(id, NodeType::new(kind), desc)
    }
}

} // verus!
