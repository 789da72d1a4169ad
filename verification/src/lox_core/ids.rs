use vstd::prelude::*;

verus! {

/// A type of identifiers that are plain indices: each identifier stands
/// for one `usize` and back.
pub trait UsizeId: Copy + Sized {
    spec fn spec_usize(self) -> usize;

    fn from_usize(i: usize) -> (r: Self)
        ensures
            r.spec_usize() == i,
    ;

    fn into_usize(self) -> (r: usize)
        ensures
            r == self.spec_usize(),
    ;
}

/// Identifies a parser state.
#[derive(Debug, Hash, Eq, PartialEq, Clone, Copy, PartialOrd, Ord, Structural)]
pub struct StateId(pub usize);

impl UsizeId for StateId {
    open spec fn spec_usize(self) -> usize {
        self.0
    }

    fn from_usize(i: usize) -> (r: Self) {
        StateId(i)
    }

    fn into_usize(self) -> (r: usize) {
        self.0
    }
}

} // verus!
