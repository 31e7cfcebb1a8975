//! Vertices.

use vstd::prelude::*;
use crate::interfaces::graph::SingleId;
use std::hash::Hash;

verus! {

/// A vertex: a cloneable, hashable value whose identity is its id.
pub trait Vertex: Eq + Hash + Clone + Sized + SingleId {
    /// The same vertex under another id, as a mathematical value.
    spec fn relabelled(self, id: usize) -> Self;

    /// The same vertex under another id.
    fn with_id(self, id: usize) -> (r: Self)
        ensures
            r == self.relabelled(id),
            r.id_spec() == id,
    ;
}

} // verus!
