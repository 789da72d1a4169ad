use vstd::prelude::*;

use super::header::{after_end_borrow, after_start_borrow, BorrowState, GcHeader};
use super::heap::Handle;

verus! {

/// A shared borrow of the object that a handle refers to. Starting one
/// counts it in the header of the object's block; giving it back with
/// [`Ref::release`] takes it off the count again. While a block is counted
/// as shared, it cannot be borrowed mutably.
pub struct Ref<U> {
    handle: Handle<U>,
}

impl<U> Ref<U> {
    /// The handle of the borrowed object.
    pub closed spec fn spec_handle(&self) -> Handle<U> {
        self.handle
    }

    /// Starts a shared borrow of the object that `handle` refers to, whose
    /// block has the header `header`: one more shared borrow is counted
    /// there. A mutably borrowed block cannot be borrowed.
    pub fn new(header: &mut GcHeader, handle: Handle<U>) -> (r: Self)
        requires
            old(header).spec_borrow_state() != BorrowState::BorrowedMut,
            old(header).spec_borrow_state() != BorrowState::Shared(u32::MAX),
        ensures
            r.spec_handle() == handle,
            final(header).spec_borrow_state() == after_start_borrow(old(header).spec_borrow_state()),
            final(header).spec_generation() == old(header).spec_generation(),
            final(header).spec_marked() == old(header).spec_marked(),
    {
        header.start_borrow();
        Self { handle }
    }

    /// Ends the borrow: one shared borrow fewer is counted in `header`.
    pub fn release(self, header: &mut GcHeader)
        requires
            old(header).spec_borrow_state() matches BorrowState::Shared(k) && k >= 1,
        ensures
            final(header).spec_borrow_state() == after_end_borrow(old(header).spec_borrow_state()),
            final(header).spec_generation() == old(header).spec_generation(),
            final(header).spec_marked() == old(header).spec_marked(),
    {
        header.end_borrow();
    }

    /// The handle of the borrowed object.
    pub fn handle(&self) -> (r: Handle<U>)
        ensures
            r == self.spec_handle(),
    {
        self.handle
    }
}

/// The one mutable borrow of the object that a handle refers to. While it
/// lasts, the header of the object's block records it, and no other borrow
/// of the block can start; [`RefMut::release`] ends it.
pub struct RefMut<U> {
    handle: Handle<U>,
}

impl<U> RefMut<U> {
    /// The handle of the borrowed object.
    pub closed spec fn spec_handle(&self) -> Handle<U> {
        self.handle
    }

    /// Starts the mutable borrow of the object that `handle` refers to,
    /// whose block has the header `header`; the block must not be
    /// borrowed at all.
    pub fn new(header: &mut GcHeader, handle: Handle<U>) -> (r: Self)
        requires
            old(header).spec_borrow_state() == BorrowState::Unborrowed,
        ensures
            r.spec_handle() == handle,
            final(header).spec_borrow_state() == BorrowState::BorrowedMut,
            final(header).spec_generation() == old(header).spec_generation(),
            final(header).spec_marked() == old(header).spec_marked(),
    {
        header.start_borrow_mut();
        Self { handle }
    }

    /// Ends the mutable borrow: the block is unborrowed again.
    pub fn release(self, header: &mut GcHeader)
        requires
            old(header).spec_borrow_state() == BorrowState::BorrowedMut,
        ensures
            final(header).spec_borrow_state() == BorrowState::Unborrowed,
            final(header).spec_generation() == old(header).spec_generation(),
            final(header).spec_marked() == old(header).spec_marked(),
    {
        header.end_borrow_mut();
    }

    /// The handle of the borrowed object.
    pub fn handle(&self) -> (r: Handle<U>)
        ensures
            r == self.spec_handle(),
    {
        self.handle
    }
}

} // verus!
