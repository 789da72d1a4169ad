use vstd::prelude::*;

use super::header::GcHeader;

verus! {

/// One slot of the heap: its header and, once allocated, its object.
pub struct GcBlock<U> {
    pub header: GcHeader,
    pub data: Option<U>,
}

impl<U> GcBlock<U> {
    /// An empty slot whose header carries the given generation.
    pub fn new(valid_until: usize) -> (r: Self)
        ensures
            r.header.spec_generation() == valid_until,
            !r.header.spec_marked(),
            r.header.spec_borrow_state() == super::header::BorrowState::Unborrowed,
            r.data is None,
    {
        Self { header: GcHeader::new(valid_until), data: None }
    }
}

} // verus!
