//! Hyperedges as ordered id vectors with set semantics.

use vstd::prelude::*;
use std::hash::Hash;
use std::collections::HashSet;

verus! {

/// A value that lists node ids in a fixed order.
pub trait IdVector {
    /// The listed ids, in order.
    spec fn ids(&self) -> Seq<usize>;

    /// The listed ids, in order.
    fn id(&self) -> (v: Vec<usize>)
        ensures
            v@ == self.ids(),
    ;
}

/// The set of the values that `v` lists.
pub fn collect_set(v: &Vec<usize>) -> (s: HashSet<usize>)
    ensures
        s@ == v@.to_set(),
{
    broadcast use vstd::std_specs::hash::group_hash_axioms;
    let mut s: HashSet<usize> = HashSet::new();
    let mut i: usize = 0;
    while i < v.len()
        invariant
            i <= v.len(),
            s@ == v@.subrange(0, i as int).to_set(),
        decreases v.len() - i,
    {
        proof {
            let before = v@.subrange(0, i as int);
            let after = v@.subrange(0, i + 1);
            assert(after == before.push(v@[i as int]));
            assert(after.to_set() =~= before.to_set().insert(v@[i as int])) by {
                assert forall|x: usize| after.to_set().contains(x) implies before.to_set().insert(
                    v@[i as int],
                ).contains(x) by {
                    let k = choose|k: int| 0 <= k < after.len() && after[k] == x;
                    if k < i {
                        assert(before[k] == x);
                    }
                }
                assert forall|x: usize| before.to_set().insert(v@[i as int]).contains(
                    x,
                ) implies after.to_set().contains(x) by {
                    if x == v@[i as int] {
                        assert(after[i as int] == x);
                    } else {
                        let k = choose|k: int| 0 <= k < before.len() && before[k] == x;
                        assert(after[k] == x);
                    }
                }
            }
        }
        s.insert(v[i]);
        i += 1;
    }
    assert(v@.subrange(0, v@.len() as int) == v@);
    s
}

/// True when every value that `a` lists is in `set`.
pub fn all_in(a: &Vec<usize>, set: &HashSet<usize>) -> (b: bool)
    ensures
        b == a@.to_set().subset_of(set@),
{
    broadcast use vstd::std_specs::hash::group_hash_axioms;
    let mut i: usize = 0;
    while i < a.len()
        invariant
            i <= a.len(),
            forall|k: int| 0 <= k < i ==> set@.contains(#[trigger] a@[k]),
        decreases a.len() - i,
    {
        if !set.contains(&a[i]) {
            assert(a@.to_set().contains(a@[i as int]));
            return false;
        }
        i += 1;
    }
    true
}

/// True when no value that `a` lists is in `set`.
pub fn none_in(a: &Vec<usize>, set: &HashSet<usize>) -> (b: bool)
    ensures
        b == a@.to_set().disjoint(set@),
{
    broadcast use vstd::std_specs::hash::group_hash_axioms;
    let mut i: usize = 0;
    while i < a.len()
        invariant
            i <= a.len(),
            forall|k: int| 0 <= k < i ==> !set@.contains(#[trigger] a@[k]),
        decreases a.len() - i,
    {
        if set.contains(&a[i]) {
            assert(a@.to_set().contains(a@[i as int]));
            return false;
        }
        i += 1;
    }
    true
}

/// A hyperedge: its members form a set, whatever the order they are listed in.
pub trait Hyperedge: Eq + Hash + Clone + IdVector {
    /// The member ids as a set.
    fn id_set(&self) -> (s: HashSet<usize>)
        ensures
            s@ == self.ids().to_set(),
    ;

    /// Every member of `self` is a member of `other`.
    fn is_subset(&self, other: &Self) -> (b: bool)
        ensures
            b == self.ids().to_set().subset_of(other.ids().to_set()),
    {
        let mine = self.id();
        let theirs = other.id_set();
        all_in(&mine, &theirs)
    }

    /// Both edges have the same members.
    fn is_equal(&self, other: &Self) -> (b: bool)
        ensures
            b == (self.ids().to_set() == other.ids().to_set()),
    {
        let forth = self.is_subset(other);
        let back = other.is_subset(self);
        proof {
            if forth && back {
                assert(self.ids().to_set() =~= other.ids().to_set());
            }
        }
        forth && back
    }

    /// The edges share at least one member.
    fn has_intersection(&self, other: &Self) -> (b: bool)
        ensures
            b == !self.ids().to_set().disjoint(other.ids().to_set()),
    {
        !self.is_disjoint(other)
    }

    /// The edges share no member.
    fn is_disjoint(&self, other: &Self) -> (b: bool)
        ensures
            b == self.ids().to_set().disjoint(other.ids().to_set()),
    {
        let mine = self.id();
        let theirs = other.id_set();
        none_in(&mine, &theirs)
    }

    /// The edge has no member.
    fn is_empty(&self) -> (b: bool)
        ensures
            b == (self.ids().len() == 0),
            b == (self.ids().to_set() == Set::<usize>::empty()),
    {
        let mine = self.id();
        proof {
            if mine@.len() > 0 {
                assert(mine@.to_set().contains(mine@[0]));
            } else {
                assert(mine@.to_set() =~= Set::<usize>::empty());
            }
        }
        mine.len() == 0
    }

    /// The edge has exactly one distinct member.
    fn is_singleton(&self) -> (b: bool)
        ensures
            b == (self.ids().to_set().len() == 1),
    {
        broadcast use vstd::std_specs::hash::group_hash_axioms;
        let set = self.id_set();
        set.len() == 1
    }
}

/// A hyperedge with a source side and a destination side.
pub trait DirectedHyperedge: Hyperedge {
    /// The ids on the source side, in order.
    spec fn src_ids(&self) -> Seq<usize>;

    /// The ids on the destination side, in order.
    spec fn dst_ids(&self) -> Seq<usize>;

    /// The members are the source ids followed by the destination ids.
    proof fn members_are_endpoints(&self)
        ensures
            self.ids() == self.src_ids() + self.dst_ids(),
    ;

    /// The source ids as a set.
    fn src(&self) -> (s: HashSet<usize>)
        ensures
            s@ == self.src_ids().to_set(),
    ;

    /// The destination ids as a set.
    fn dst(&self) -> (s: HashSet<usize>)
        ensures
            s@ == self.dst_ids().to_set(),
    ;

    /// The source set and the destination set.
    fn id_set_pair(&self) -> (p: (HashSet<usize>, HashSet<usize>))
        ensures
            p.0@ == self.src_ids().to_set(),
            p.1@ == self.dst_ids().to_set(),
    {
        (self.src(), self.dst())
    }
}

/// A hyperedge that is no more than its member list.
pub trait NodeSet: Hyperedge {
    /// The hyperedge whose members are `nodes`, in that order.
    fn from_nodes(nodes: Vec<usize>) -> (e: Self)
        ensures
            e.ids() == nodes@,
    ;
}

/// A directed hyperedge that is no more than its two member lists.
pub trait NodeSetPair: DirectedHyperedge {
    /// The hyperedge from `src` to `dst`.
    fn from_nodes_pair(src: Vec<usize>, dst: Vec<usize>) -> (e: Self)
        ensures
            e.src_ids() == src@,
            e.dst_ids() == dst@,
    ;
}

} // verus!
