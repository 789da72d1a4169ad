use std::fmt::Debug;
use std::hash::Hash;
use vstd::prelude::*;

verus! {

/// An ordinal describes a finite type with a unique integer
/// representation (and thus a _finite_ integer representation).
///
/// It models enumeration types, which are much cheaper to pass around
/// and describe than the full types.
pub trait Ordinal: Debug + Hash + Eq + Clone + Copy + PartialEq + Sized {
    /// The number of values of the type.
    const COUNT: usize;

    /// The integer that represents `self`.
    spec fn spec_ord(self) -> nat;

    /// The integer that represents `self`: below the count, and different
    /// for different values.
    fn ord(&self) -> (r: usize)
        ensures
            r == self.spec_ord(),
            r < Self::COUNT,
    ;

    /// Every ordinal is below the count.
    proof fn lemma_ord_bound(a: Self)
        ensures
            a.spec_ord() < Self::COUNT,
    ;

    /// Different values have different ordinals.
    proof fn lemma_ord_injective(a: Self, b: Self)
        ensures
            a.spec_ord() == b.spec_ord() ==> a == b,
    ;
}

} // verus!
