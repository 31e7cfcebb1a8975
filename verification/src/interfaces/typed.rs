//! Type tags on vertices.

use vstd::prelude::*;

verus! {

/// A tag with an integer identity.
pub trait Type {
    /// The tag's identity, as a mathematical value.
    spec fn type_id_spec(&self) -> usize;

    /// The tag's identity.
    fn type_id(&self) -> (r: usize)
        ensures
            r == self.type_id_spec(),
    ;
}

/// A policy that decides whether two tags count as the same.
pub trait Typed {
    fn type_same<X: Type, Y: Type>(&self, x: &X, y: &Y) -> bool;
}

} // verus!
