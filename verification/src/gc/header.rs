use vstd::prelude::*;

verus! {

/// How a heap object is currently borrowed.
#[derive(Clone, Copy, Debug, PartialEq, Eq, Structural)]
pub enum BorrowState {
    Unborrowed,
    /// Borrowed by this many shared borrows (at least one).
    Shared(u32),
    BorrowedMut,
}

/// Mark colour of the tri-colour collector (grey objects are black ones
/// that still wait in the tracer's worklist).
#[derive(Clone, Copy, Debug, PartialEq, Eq, Structural)]
pub enum Color {
    White,
    Black,
}

/// The borrow state after one more shared borrow starts.
pub open spec fn after_start_borrow(s: BorrowState) -> BorrowState {
    match s {
        BorrowState::Shared(k) => BorrowState::Shared((k + 1) as u32),
        _ => BorrowState::Shared(1),
    }
}

/// The borrow state after a shared borrow ends.
pub open spec fn after_end_borrow(s: BorrowState) -> BorrowState {
    match s {
        BorrowState::Shared(k) => if k == 1 {
            BorrowState::Unborrowed
        } else {
            BorrowState::Shared((k - 1) as u32)
        },
        other => other,
    }
}

/// A borrow state that the header can be in: a shared count is positive.
pub open spec fn valid_borrow_state(s: BorrowState) -> bool {
    !(s matches BorrowState::Shared(k) && k == 0)
}

/// How many shared borrows a borrow state counts.
pub open spec fn shared_count(s: BorrowState) -> nat {
    match s {
        BorrowState::Shared(k) => k as nat,
        _ => 0,
    }
}

/// Starting a shared borrow of a block that is not mutably borrowed counts
/// one more shared borrow, and ending one counts one fewer, down to an
/// unborrowed block; neither leaves the block mutably borrowed.
pub proof fn lemma_borrow_counts(s: BorrowState)
    requires
        valid_borrow_state(s),
        s != BorrowState::BorrowedMut,
        s != BorrowState::Shared(u32::MAX),
    ensures
        shared_count(after_start_borrow(s)) == shared_count(s) + 1,
        after_start_borrow(s) is Shared,
        s is Shared ==> shared_count(after_end_borrow(s)) + 1 == shared_count(s),
        s is Shared ==> (after_end_borrow(s) is Unborrowed <==> shared_count(s) == 1),
        after_end_borrow(s) != BorrowState::BorrowedMut,
{
}

/// Ending a shared borrow undoes starting one, from any state in which a
/// shared borrow can start.
pub proof fn lemma_borrow_round_trip(s: BorrowState)
    requires
        valid_borrow_state(s),
        s != BorrowState::BorrowedMut,
        s != BorrowState::Shared(u32::MAX),
    ensures
        valid_borrow_state(after_start_borrow(s)),
        after_end_borrow(after_start_borrow(s)) == s,
{
}

/// Bookkeeping that the collector keeps for each heap block.
#[derive(Debug)]
pub struct GcHeader {
    borrow_state: BorrowState,
    /// The collection generation when this header was allocated; used to
    /// detect use after free.
    generation: usize,
    marking: Color,
}

impl GcHeader {
    pub closed spec fn spec_borrow_state(&self) -> BorrowState {
        self.borrow_state
    }

    pub closed spec fn spec_generation(&self) -> usize {
        self.generation
    }

    pub closed spec fn spec_marked(&self) -> bool {
        self.marking == Color::Black
    }

    /// A fresh, unborrowed and unmarked header of the given generation.
    pub fn new(cur_generation: usize) -> (r: Self)
        ensures
            r.spec_borrow_state() == BorrowState::Unborrowed,
            r.spec_generation() == cur_generation,
            !r.spec_marked(),
    {
        Self { borrow_state: BorrowState::Unborrowed, generation: cur_generation, marking: Color::White }
    }

    /// Marks the block as reachable. Returns whether it was unmarked before,
    /// that is, whether it still has to be explored.
    pub fn mark(&mut self) -> (first: bool)
        ensures
            first == !old(self).spec_marked(),
            final(self).spec_marked(),
            final(self).spec_generation() == old(self).spec_generation(),
            final(self).spec_borrow_state() == old(self).spec_borrow_state(),
    {
        let was_white = self.marking == Color::White;
        self.marking = Color::Black;
        was_white
    }

    /// Clears the mark of a marked block.
    pub fn unmark(&mut self)
        requires
            old(self).spec_marked(),
        ensures
            !final(self).spec_marked(),
            final(self).spec_generation() == old(self).spec_generation(),
            final(self).spec_borrow_state() == old(self).spec_borrow_state(),
    {
        self.marking = Color::White;
    }

    /// Whether the block is marked.
    pub fn is_marked(&self) -> (r: bool)
        ensures
            r == self.spec_marked(),
    {
        self.marking == Color::Black
    }

    /// How the block is borrowed.
    pub fn borrow_state(&self) -> (r: BorrowState)
        ensures
            r == self.spec_borrow_state(),
    {
        self.borrow_state
    }

    /// The generation the block was allocated in.
    pub fn generation(&self) -> (r: usize)
        ensures
            r == self.spec_generation(),
    {
        self.generation
    }

    /// Records one more shared borrow. A mutably borrowed block cannot be
    /// borrowed.
    pub fn start_borrow(&mut self)
        requires
            old(self).spec_borrow_state() != BorrowState::BorrowedMut,
            old(self).spec_borrow_state() != BorrowState::Shared(u32::MAX),
        ensures
            final(self).spec_borrow_state() == after_start_borrow(old(self).spec_borrow_state()),
            final(self).spec_generation() == old(self).spec_generation(),
            final(self).spec_marked() == old(self).spec_marked(),
    {
        let after = match self.borrow_state {
            BorrowState::Shared(k) => BorrowState::Shared(k + 1),
            _ => BorrowState::Shared(1),
        };
        self.borrow_state = after;
    }

    /// Ends one shared borrow.
    pub fn end_borrow(&mut self)
        requires
            old(self).spec_borrow_state() matches BorrowState::Shared(k) && k >= 1,
        ensures
            final(self).spec_borrow_state() == after_end_borrow(old(self).spec_borrow_state()),
            final(self).spec_generation() == old(self).spec_generation(),
            final(self).spec_marked() == old(self).spec_marked(),
    {
        let after = match self.borrow_state {
            BorrowState::Shared(k) => if k == 1 {
                BorrowState::Unborrowed
            } else {
                BorrowState::Shared(k - 1)
            },
            other => other,
        };
        self.borrow_state = after;
    }

    /// Starts the one mutable borrow of an unborrowed block.
    pub fn start_borrow_mut(&mut self)
        requires
            old(self).spec_borrow_state() == BorrowState::Unborrowed,
        ensures
            final(self).spec_borrow_state() == BorrowState::BorrowedMut,
            final(self).spec_generation() == old(self).spec_generation(),
            final(self).spec_marked() == old(self).spec_marked(),
    {
        self.borrow_state = BorrowState::BorrowedMut;
    }

    /// Ends the mutable borrow.
    pub fn end_borrow_mut(&mut self)
        requires
            old(self).spec_borrow_state() == BorrowState::BorrowedMut,
        ensures
            final(self).spec_borrow_state() == BorrowState::Unborrowed,
            final(self).spec_generation() == old(self).spec_generation(),
            final(self).spec_marked() == old(self).spec_marked(),
    {
        self.borrow_state = BorrowState::Unborrowed;
    }
}

} // verus!
