use std::collections::HashSet;
use std::marker::PhantomData;
use vstd::prelude::*;

use super::block::GcBlock;
use super::gc_ref::{Ref, RefMut};
use super::header::{
    after_end_borrow, after_start_borrow, lemma_borrow_round_trip, valid_borrow_state, BorrowState,
    GcHeader,
};
use super::trace::{lemma_mark_all, mark_all, refers_to, unmarked, Trace, Tracer};

verus! {

broadcast use vstd::std_specs::hash::group_hash_axioms;

/// A reference to an object on a [`Heap`]: the index of its block and the
/// collection generation in which it was allocated.
#[derive(Debug)]
pub struct Handle<U> {
    index: usize,
    generation: usize,
    _data: PhantomData<U>,
}

impl<U> Clone for Handle<U> {
    fn clone(&self) -> (r: Self)
        ensures
            r.spec_index() == self.spec_index(),
            r.spec_generation() == self.spec_generation(),
    {
        Handle::new(self.index, self.generation)
    }
}

impl<U> Copy for Handle<U> {

}

impl<U> Handle<U> {
    pub closed spec fn spec_index(&self) -> usize {
        self.index
    }

    pub closed spec fn spec_generation(&self) -> usize {
        self.generation
    }

    fn new(index: usize, generation: usize) -> (r: Self)
        ensures
            r.spec_index() == index,
            r.spec_generation() == generation,
    {
        Self { index, generation, _data: PhantomData }
    }

    /// The index of the block the handle refers to.
    pub fn index(&self) -> (r: usize)
        ensures
            r == self.spec_index(),
    {
        self.index
    }

    /// The collection generation in which the object was allocated.
    pub fn generation(&self) -> (r: usize)
        ensures
            r == self.spec_generation(),
    {
        self.generation
    }
}

/// The sizes that steer a [`Heap`]: how many blocks it starts with, and
/// by which factor the live bytes after a collection are multiplied to give
/// the threshold of the next one.
pub struct HeapConfig {
    pub initial_size: usize,
    pub gc_growth_factor: usize,
}

/// A mark-and-sweep garbage collected heap of objects of type `U`.
pub struct Heap<U> {
    storage: Vec<GcBlock<U>>,
    live_blocks: HashSet<usize>,
    free_blocks: Vec<usize>,
    cur_generation: usize,
    config: HeapConfig,
    next_gc: usize,
}

/// The result of an allocation.
pub type AllocResult<U> = Result<Handle<U>, AllocFailure<U>>;

/// When the allocation of an object fails, the object is handed back to
/// the caller.
#[derive(Debug)]
pub enum AllocFailure<U> {
    NeedGc(U),
}

/// `n * size`, or `usize::MAX` when that does not fit in a `usize`.
pub open spec fn saturating_product(n: nat, size: nat) -> usize {
    if n * size <= usize::MAX {
        (n * size) as usize
    } else {
        usize::MAX
    }
}

impl<U> Heap<U> {
    /// Number of blocks, allocated or free.
    pub closed spec fn spec_len(&self) -> nat {
        self.storage@.len()
    }

    /// Indices of the allocated blocks.
    pub closed spec fn spec_live(&self) -> Set<usize> {
        self.live_blocks@
    }

    /// Indices of the free blocks; the last one is allocated next.
    pub closed spec fn spec_free(&self) -> Seq<usize> {
        self.free_blocks@
    }

    /// The object stored in block `i`, if one was ever stored there.
    pub closed spec fn spec_data(&self, i: int) -> Option<U> {
        self.storage@[i].data
    }

    /// The generation recorded in the header of block `i`.
    pub closed spec fn spec_block_generation(&self, i: int) -> usize {
        self.storage@[i].header.spec_generation()
    }

    /// Whether each block is marked.
    pub closed spec fn spec_marks(&self) -> Seq<bool> {
        Seq::new(self.storage@.len(), |i: int| self.storage@[i].header.spec_marked())
    }

    /// The indices of the marked blocks.
    pub closed spec fn marked_set(&self) -> Set<int> {
        Set::new(|i: int| 0 <= i < self.storage@.len() && self.storage@[i].header.spec_marked())
    }

    /// The borrow state recorded in the header of block `i`.
    pub closed spec fn spec_block_borrow_state(&self, i: int) -> BorrowState {
        self.storage@[i].header.spec_borrow_state()
    }

    pub closed spec fn spec_cur_generation(&self) -> usize {
        self.cur_generation
    }

    pub closed spec fn spec_next_gc(&self) -> usize {
        self.next_gc
    }

    pub closed spec fn spec_growth_factor(&self) -> usize {
        self.config.gc_growth_factor
    }

    /// The bytes taken by the allocated objects (saturating).
    pub open spec fn spec_bytes_allocated(&self) -> usize {
        saturating_product(self.spec_live().len(), vstd::layout::size_of::<U>())
    }

    /// `h` refers to a block of this heap that holds an object and that was
    /// not reallocated since `h` was handed out.
    pub open spec fn valid_handle(&self, h: Handle<U>) -> bool {
        &&& h.spec_index() < self.spec_len()
        &&& self.spec_block_generation(h.spec_index() as int) == h.spec_generation()
        &&& self.spec_data(h.spec_index() as int) is Some
    }

    /// `self` is what a collection of `before` leaves: a well formed heap
    /// of the same blocks holding the same objects, whose allocated blocks
    /// are some of those of `before`, the others being appended to the free
    /// list; a new generation; and a threshold of the growth factor times
    /// the bytes still allocated (saturating).
    pub open spec fn collection_of(&self, before: &Self) -> bool {
        &&& self.wf()
        &&& self.spec_len() == before.spec_len()
        &&& self.spec_live().subset_of(before.spec_live())
        &&& self.spec_free().subrange(0, before.spec_free().len() as int) == before.spec_free()
        &&& forall|k: int|
            before.spec_free().len() <= k < self.spec_free().len() ==> before.spec_live().contains(
                #[trigger] self.spec_free()[k],
            ) && !self.spec_live().contains(self.spec_free()[k])
        &&& forall|i: usize|
            before.spec_live().contains(i) && !self.spec_live().contains(i)
                ==> #[trigger] self.spec_free().contains(i)
        &&& forall|i: int|
            0 <= i < before.spec_len() ==> self.spec_data(i) == before.spec_data(i)
                && self.spec_block_generation(i) == before.spec_block_generation(i)
        &&& self.spec_cur_generation() == before.spec_cur_generation() + 1
        &&& self.spec_growth_factor() == before.spec_growth_factor()
        &&& self.spec_next_gc() == saturating_product(
            before.spec_growth_factor() as nat,
            self.spec_bytes_allocated() as nat,
        )
    }

    /// The heap's invariant.
    pub closed spec fn wf(&self) -> bool {
        &&& self.storage@.len() > 0
        &&& self.live_blocks@.finite()
        &&& forall|i: usize| #[trigger] self.live_blocks@.contains(i) ==> i < self.storage@.len()
        &&& forall|i: usize| #[trigger]
            self.live_blocks@.contains(i) ==> self.storage@[i as int].data is Some
        &&& forall|k: int|
            0 <= k < self.free_blocks@.len() ==> #[trigger] self.free_blocks@[k]
                < self.storage@.len() && !self.live_blocks@.contains(self.free_blocks@[k])
        &&& self.free_blocks@.no_duplicates()
    }

    /// A heap of `config.initial_size` free blocks.
    pub fn new(config: HeapConfig) -> (r: Self)
        requires
            config.initial_size > 0,
        ensures
            r.wf(),
            r.spec_len() == config.initial_size,
            r.spec_live() == Set::<usize>::empty(),
            r.spec_free() == Seq::new(config.initial_size as nat, |k: int| k as usize),
            r.spec_cur_generation() == 0,
            r.spec_growth_factor() == config.gc_growth_factor,
            r.spec_next_gc() == saturating_product(
                (2 * config.initial_size) as nat,
                vstd::layout::size_of::<U>(),
            ),
            forall|i: int| 0 <= i < r.spec_len() ==> r.spec_data(i) is None,
            r.marked_set() == Set::<int>::empty(),
    {
        let initial_size = config.initial_size;
        let twice: usize = if initial_size <= usize::MAX / 2 {
            2 * initial_size
        } else {
            usize::MAX
        };
        let next_gc = saturating_mul(twice, core::mem::size_of::<U>());
        proof {
            let size = vstd::layout::size_of::<U>();
            if initial_size > usize::MAX / 2 && size > 0 {
                assert(2 * initial_size * size >= 2 * initial_size) by (nonlinear_arith)
                    requires
                        size >= 1,
                ;
                assert(usize::MAX * size >= usize::MAX) by (nonlinear_arith)
                    requires
                        size >= 1,
                ;
                assert(saturating_product(twice as nat, size) == usize::MAX);
                assert(saturating_product((2 * initial_size) as nat, size) == usize::MAX);
            }
            if initial_size > usize::MAX / 2 && size == 0 {
                assert((twice as nat) * size == 0) by (nonlinear_arith)
                    requires
                        size == 0,
                ;
                assert(((2 * initial_size) as nat) * size == 0) by (nonlinear_arith)
                    requires
                        size == 0,
                ;
            }
        }
        let mut heap = Self {
            storage: Vec::new(),
            live_blocks: HashSet::new(),
            free_blocks: Vec::new(),
            cur_generation: 0,
            next_gc,
            config,
        };
        heap.grow(initial_size);
        assert(heap.free_blocks@ =~= Seq::new(initial_size as nat, |k: int| k as usize));
        assert(heap.marked_set() =~= Set::<int>::empty());
        heap
    }

    /// The bytes taken by the allocated objects, or `usize::MAX` when that
    /// number does not fit in a `usize`.
    pub fn bytes_allocated(&self) -> (r: usize)
        requires
            self.wf(),
        ensures
            r == self.spec_bytes_allocated(),
    {
        saturating_mul(self.live_blocks.len(), core::mem::size_of::<U>())
    }

    /// Adds `by` free blocks at the end of the storage.
    fn grow(&mut self, by: usize)
        requires
            old(self).storage@.len() + by <= usize::MAX,
            old(self).live_blocks@.finite(),
            forall|i: usize| #[trigger] old(self).live_blocks@.contains(i) ==> i < old(self).storage@.len(),
            forall|i: usize| #[trigger]
                old(self).live_blocks@.contains(i) ==> old(self).storage@[i as int].data is Some,
            forall|k: int|
                0 <= k < old(self).free_blocks@.len() ==> #[trigger] old(self).free_blocks@[k]
                    < old(self).storage@.len() && !old(self).live_blocks@.contains(old(self).free_blocks@[k]),
            old(self).free_blocks@.no_duplicates(),
            old(self).storage@.len() + by > 0,
        ensures
            final(self).wf(),
            final(self).storage@.len() == old(self).storage@.len() + by,
            final(self).storage@.subrange(0, old(self).storage@.len() as int) == old(self).storage@,
            forall|i: int|
                old(self).storage@.len() <= i < final(self).storage@.len() ==> (#[trigger] final(self).storage@[i]).data is None
                    && final(self).storage@[i].header.spec_generation() == old(self).cur_generation
                    && !final(self).storage@[i].header.spec_marked(),
            final(self).free_blocks@ == old(self).free_blocks@ + Seq::new(
                by as nat,
                |k: int| (old(self).storage@.len() + k) as usize,
            ),
            final(self).live_blocks@ == old(self).live_blocks@,
            final(self).cur_generation == old(self).cur_generation,
            final(self).next_gc == old(self).next_gc,
            final(self).config == old(self).config,
    {
        let old_len = self.storage.len();
        let mut i: usize = 0;
        while i < by
            invariant
                0 <= i <= by,
                old_len == old(self).storage@.len(),
                old_len + by <= usize::MAX,
                self.storage@.len() == old_len + i,
                self.storage@.subrange(0, old_len as int) == old(self).storage@,
                forall|j: int|
                    old_len <= j < self.storage@.len() ==> (#[trigger] self.storage@[j]).data is None
                        && self.storage@[j].header.spec_generation() == old(self).cur_generation
                        && !self.storage@[j].header.spec_marked(),
                self.free_blocks@ == old(self).free_blocks@ + Seq::new(
                    i as nat,
                    |k: int| (old_len + k) as usize,
                ),
                self.live_blocks@ == old(self).live_blocks@,
                self.cur_generation == old(self).cur_generation,
                self.next_gc == old(self).next_gc,
                self.config == old(self).config,
            decreases by - i,
        {
            self.storage.push(GcBlock::new(self.cur_generation));
            self.free_blocks.push(old_len + i);
            i = i + 1;
            assert(self.free_blocks@ =~= old(self).free_blocks@ + Seq::new(
                i as nat,
                |k: int| (old_len + k) as usize,
            ));
        }
        proof {
            let f = self.free_blocks@;
            let of = old(self).free_blocks@;
            assert forall|a: int, b: int| 0 <= a < f.len() && 0 <= b < f.len() && a != b implies f[a]
                != f[b] by {
                if a < of.len() && b < of.len() {
                    assert(of[a] != of[b]);
                }
            }
            assert forall|x: usize| #[trigger] self.live_blocks@.contains(x) implies self.storage@[x as int].data is Some by {
                assert(self.storage@[x as int] == self.storage@.subrange(0, old_len as int)[x as int]);
            }
        }
    }

    /// Number of free blocks.
    pub fn capacity(&self) -> (r: usize)
        ensures
            r == self.spec_free().len(),
    {
        self.free_blocks.len()
    }

    /// Whether block `index` is allocated.
    pub fn is_live(&self, index: usize) -> (r: bool)
        requires
            self.wf(),
        ensures
            r == self.spec_live().contains(index),
    {
        self.live_blocks.contains(&index)
    }

    /// Stores `insertee` in a free block, growing the storage when none is
    /// left. When more bytes are allocated than the collection threshold,
    /// nothing is stored and `insertee` comes back in `NeedGc`.
    pub fn allocate(&mut self, insertee: U) -> (r: AllocResult<U>)
        requires
            old(self).wf(),
            old(self).spec_len() * 2 <= usize::MAX,
        ensures
            final(self).wf(),
            old(self).spec_bytes_allocated() > old(self).spec_next_gc() ==> {
                &&& r == AllocResult::<U>::Err(AllocFailure::NeedGc(insertee))
                &&& final(self).marked_set() == old(self).marked_set()
                &&& final(self).spec_len() == old(self).spec_len()
                &&& final(self).spec_live() == old(self).spec_live()
                &&& final(self).spec_free() == old(self).spec_free()
                &&& forall|i: int| 0 <= i < old(self).spec_len() ==> final(self).spec_data(i) == old(self).spec_data(i)
                    && final(self).spec_block_generation(i) == old(self).spec_block_generation(i)
                &&& forall|g: Handle<U>| #[trigger] old(self).valid_handle(g) ==> final(self).valid_handle(g)
            },
            old(self).spec_bytes_allocated() <= old(self).spec_next_gc() ==> {
                &&& r matches Ok(h)
                &&& h.spec_generation() == old(self).spec_cur_generation()
                &&& !old(self).spec_live().contains(h.spec_index())
                &&& final(self).spec_live() == old(self).spec_live().insert(h.spec_index())
                &&& final(self).valid_handle(h)
                &&& final(self).spec_data(h.spec_index() as int) == Some(insertee)
                &&& final(self).spec_block_borrow_state(h.spec_index() as int) == BorrowState::Unborrowed
                &&& final(self).marked_set() == old(self).marked_set().remove(h.spec_index() as int)
                &&& old(self).spec_free().len() > 0 ==> {
                    &&& final(self).spec_len() == old(self).spec_len()
                    &&& h.spec_index() == old(self).spec_free().last()
                    &&& final(self).spec_free() == old(self).spec_free().drop_last()
                }
                &&& old(self).spec_free().len() == 0 ==> {
                    &&& final(self).spec_len() == 2 * old(self).spec_len()
                    &&& h.spec_index() == 2 * old(self).spec_len() - 1
                    &&& final(self).spec_free() == Seq::new(
                        (old(self).spec_len() - 1) as nat,
                        |k: int| (old(self).spec_len() + k) as usize,
                    )
                }
                &&& forall|i: int|
                    0 <= i < old(self).spec_len() && i != h.spec_index() ==> final(self).spec_data(i)
                        == old(self).spec_data(i) && final(self).spec_block_generation(i)
                        == old(self).spec_block_generation(i)
                &&& forall|g: Handle<U>|
                    #[trigger] old(self).valid_handle(g) && g.spec_index() != h.spec_index()
                        ==> final(self).valid_handle(g)
                &&& forall|g: Handle<U>|
                    #[trigger] old(self).valid_handle(g) && g.spec_index() != h.spec_index() ==> final(self).spec_data(g.spec_index() as int) == old(self).spec_data(g.spec_index() as int)
            },
            final(self).spec_cur_generation() == old(self).spec_cur_generation(),
            final(self).spec_next_gc() == old(self).spec_next_gc(),
            final(self).spec_growth_factor() == old(self).spec_growth_factor(),
    {
        if self.bytes_allocated() > self.next_gc {
            return Err(AllocFailure::NeedGc(insertee));
        }
        if self.capacity() == 0 {
            self.grow(self.storage.len());
        }
        let ghost before = self.free_blocks@;
        let block = self.free_blocks.pop().unwrap();
        assert(before.no_duplicates());
        assert forall|k: int| 0 <= k < self.free_blocks@.len() implies self.free_blocks@[k] != block by {
            assert(before[k] == self.free_blocks@[k]);
            assert(before[before.len() - 1] == block);
        }
        let ghost grown = self.storage@;
        self.storage[block].data = Some(insertee);
        self.storage[block].header = GcHeader::new(self.cur_generation);
        self.live_blocks.insert(block);
        proof {
            assert forall|i: int| 0 <= i < old(self).storage@.len() implies #[trigger] grown[i] == old(self).storage@[i] by {
                assert(grown[i] == grown.subrange(0, old(self).storage@.len() as int)[i]);
            }
            assert(self.marked_set() =~= old(self).marked_set().remove(block as int));
        }
        Ok(Handle::<U>::new(block, self.cur_generation))
    }

    /// Everything in `self` is as in `before` but the borrow state of
    /// block `i`; and `self` is well formed when `before` is.
    pub open spec fn same_but_borrow_of(&self, before: &Self, i: int) -> bool {
        &&& self.spec_len() == before.spec_len()
        &&& self.spec_live() == before.spec_live()
        &&& self.spec_free() == before.spec_free()
        &&& self.spec_cur_generation() == before.spec_cur_generation()
        &&& self.spec_next_gc() == before.spec_next_gc()
        &&& self.spec_growth_factor() == before.spec_growth_factor()
        &&& self.spec_marks() == before.spec_marks()
        &&& self.marked_set() == before.marked_set()
        &&& forall|j: int|
            0 <= j < self.spec_len() ==> self.spec_data(j) == before.spec_data(j)
                && self.spec_block_generation(j) == before.spec_block_generation(j)
        &&& forall|j: int|
            0 <= j < self.spec_len() && j != i ==> self.spec_block_borrow_state(j)
                == before.spec_block_borrow_state(j)
        &&& (before.wf() ==> self.wf())
    }

    /// The borrow state of the block that `gc` refers to.
    pub fn borrow_state(&self, gc: Handle<U>) -> (r: BorrowState)
        requires
            gc.spec_index() < self.spec_len(),
        ensures
            r == self.spec_block_borrow_state(gc.spec_index() as int),
    {
        self.storage[gc.index].header.borrow_state()
    }

    /// Starts a shared borrow of the object that `gc` refers to: the
    /// block's count of shared borrows goes up by one, until the borrow is
    /// given back with [`Heap::release`]. A mutably borrowed block cannot
    /// be borrowed.
    pub fn borrow(&mut self, gc: Handle<U>) -> (r: Ref<U>)
        requires
            old(self).valid_handle(gc),
            old(self).spec_block_borrow_state(gc.spec_index() as int) != BorrowState::BorrowedMut,
            old(self).spec_block_borrow_state(gc.spec_index() as int) != BorrowState::Shared(
                u32::MAX,
            ),
        ensures
            r.spec_handle() == gc,
            final(self).spec_block_borrow_state(gc.spec_index() as int) == after_start_borrow(
                old(self).spec_block_borrow_state(gc.spec_index() as int),
            ),
            final(self).same_but_borrow_of(old(self), gc.spec_index() as int),
    {
        let ghost before = *self;
        let r = Ref::new(&mut self.storage[gc.index].header, gc);
        proof {
            assert(self.spec_marks() =~= before.spec_marks());
            assert(self.marked_set() =~= before.marked_set());
        }
        r
    }

    /// Gives back a shared borrow: the count of shared borrows of its block
    /// goes down by one.
    pub fn release(&mut self, r: Ref<U>)
        requires
            r.spec_handle().spec_index() < old(self).spec_len(),
            old(self).spec_block_borrow_state(r.spec_handle().spec_index() as int) matches BorrowState::Shared(k) && k >= 1,
        ensures
            final(self).spec_block_borrow_state(r.spec_handle().spec_index() as int) == after_end_borrow(
                old(self).spec_block_borrow_state(r.spec_handle().spec_index() as int),
            ),
            final(self).same_but_borrow_of(old(self), r.spec_handle().spec_index() as int),
    {
        let ghost before = *self;
        let i = r.handle().index;
        r.release(&mut self.storage[i].header);
        proof {
            assert(self.spec_marks() =~= before.spec_marks());
            assert(self.marked_set() =~= before.marked_set());
        }
    }

    /// The object of a shared borrow.
    pub fn get(&self, r: &Ref<U>) -> (v: &U)
        requires
            self.valid_handle(r.spec_handle()),
            self.spec_block_borrow_state(r.spec_handle().spec_index() as int) is Shared,
        ensures
            Some(*v) == self.spec_data(r.spec_handle().spec_index() as int),
    {
        self.storage[r.handle().index].data.as_ref().unwrap()
    }

    /// Starts the mutable borrow of the object that `gc` refers to; the
    /// block must not be borrowed at all. It lasts until
    /// [`Heap::release_mut`].
    pub fn borrow_mut(&mut self, gc: Handle<U>) -> (r: RefMut<U>)
        requires
            old(self).valid_handle(gc),
            old(self).spec_block_borrow_state(gc.spec_index() as int) == BorrowState::Unborrowed,
        ensures
            r.spec_handle() == gc,
            final(self).spec_block_borrow_state(gc.spec_index() as int) == BorrowState::BorrowedMut,
            final(self).same_but_borrow_of(old(self), gc.spec_index() as int),
    {
        let ghost before = *self;
        let r = RefMut::new(&mut self.storage[gc.index].header, gc);
        proof {
            assert(self.spec_marks() =~= before.spec_marks());
            assert(self.marked_set() =~= before.marked_set());
        }
        r
    }

    /// Ends the mutable borrow: its block is unborrowed again.
    pub fn release_mut(&mut self, r: RefMut<U>)
        requires
            r.spec_handle().spec_index() < old(self).spec_len(),
            old(self).spec_block_borrow_state(r.spec_handle().spec_index() as int)
                == BorrowState::BorrowedMut,
        ensures
            final(self).spec_block_borrow_state(r.spec_handle().spec_index() as int)
                == BorrowState::Unborrowed,
            final(self).same_but_borrow_of(old(self), r.spec_handle().spec_index() as int),
    {
        let ghost before = *self;
        let i = r.handle().index;
        r.release(&mut self.storage[i].header);
        proof {
            assert(self.spec_marks() =~= before.spec_marks());
            assert(self.marked_set() =~= before.marked_set());
        }
    }

    /// The object of the mutable borrow, to read or write.
    pub fn get_mut(&mut self, r: &RefMut<U>) -> (v: &mut U)
        requires
            old(self).valid_handle(r.spec_handle()),
            old(self).spec_block_borrow_state(r.spec_handle().spec_index() as int)
                == BorrowState::BorrowedMut,
        ensures
            Some(*v) == old(self).spec_data(r.spec_handle().spec_index() as int),
            final(self).spec_data(r.spec_handle().spec_index() as int) == Some(*final(v)),
            final(self).spec_len() == old(self).spec_len(),
            final(self).spec_live() == old(self).spec_live(),
            final(self).spec_free() == old(self).spec_free(),
            final(self).spec_cur_generation() == old(self).spec_cur_generation(),
            final(self).spec_next_gc() == old(self).spec_next_gc(),
            final(self).spec_growth_factor() == old(self).spec_growth_factor(),
            final(self).spec_marks() == old(self).spec_marks(),
            final(self).marked_set() == old(self).marked_set(),
            forall|i: int|
                0 <= i < old(self).spec_len() && i != r.spec_handle().spec_index() ==> final(self).spec_data(i)
                    == old(self).spec_data(i),
            forall|i: int|
                0 <= i < old(self).spec_len() ==> final(self).spec_block_generation(i)
                    == old(self).spec_block_generation(i) && final(self).spec_block_borrow_state(i)
                    == old(self).spec_block_borrow_state(i),
            old(self).wf() ==> final(self).wf(),
    {
        let i = r.handle().index;
        let block = &mut self.storage[i];
        block.data.as_mut().unwrap()
    }
}

impl<U: Trace<U>> Heap<U> {
    /// Marks from `root` and frees every allocated block that ends up not
    /// marked, then starts a new generation and sets the next collection
    /// threshold to `gc_growth_factor` times the bytes still allocated
    /// (saturating). Marks are never cleared: a block marked by an earlier
    /// collection stays marked, survives, and is not traced through again.
    /// So the blocks marked afterwards are those marked before and those
    /// that the root reaches through blocks not marked before; on a heap
    /// with no marked block, such as a new one, the blocks kept are exactly
    /// the allocated blocks reachable from the root. (A root that is a
    /// handle marks its block and traces that block's object each time.)
    /// Every handle that the root and the objects mark must refer to a block
    /// of this heap.
    pub fn collect<Root: Trace<U>>(&mut self, root: &Root)
        requires
            old(self).wf(),
            old(self).objects_refer_within(),
            old(self).refers_within(root.traced(&*old(self))),
            old(self).spec_cur_generation() < usize::MAX,
        ensures
            final(self).collection_of(old(self)),
            forall|i: int|
                0 <= i < old(self).spec_len() ==> (#[trigger] final(self).marked_set().contains(i) <==> old(
                    self,
                ).marked_set().contains(i) || old(self).reachable_avoiding(
                    root.traced(&*old(self)),
                    old(self).marked_set(),
                    i,
                )),
            forall|i: usize|
                #[trigger] final(self).spec_live().contains(i) <==> old(self).spec_live().contains(i)
                    && final(self).marked_set().contains(i as int),
            old(self).marked_set() == Set::<int>::empty() ==> forall|i: usize|
                #[trigger] final(self).spec_live().contains(i) <==> old(self).spec_live().contains(i)
                    && old(self).reachable(root.traced(&*old(self)), i as int),
    {
        let ghost start = *self;
        let ghost skip = start.marked_set();
        self.mark(root);
        let ghost marked = *self;
        self.sweep();
        proof {
            let fresh = marked.marked_set().difference(skip);
            assert(self.marked_set() == marked.marked_set());
            assert forall|i: int|
                0 <= i < start.spec_len() implies (#[trigger] self.marked_set().contains(i) <==> skip.contains(i)
                    || start.reachable_avoiding(root.traced(&start), skip, i)) by {
                if start.reachable_avoiding(root.traced(&start), skip, i) {
                    assert(start.closed_avoiding(root.traced(&start), skip, fresh));
                    assert(fresh.contains(i));
                }
                if self.marked_set().contains(i) && !skip.contains(i) {
                    assert forall|s: Set<int>| #[trigger] start.closed_avoiding(root.traced(&start), skip, s) implies s.contains(i) by {
                        assert(marked.marked_set().subset_of(skip.union(s)));
                    }
                }
            }
            assert forall|i: usize|
                #[trigger] self.spec_live().contains(i) <==> start.spec_live().contains(i)
                    && self.marked_set().contains(i as int) by {
            }
            if skip =~= Set::<int>::empty() {
                assert(skip == Set::<int>::empty());
                assert forall|i: usize|
                    #[trigger] self.spec_live().contains(i) <==> start.spec_live().contains(i)
                        && start.reachable(root.traced(&start), i as int) by {
                    if start.spec_live().contains(i) {
                        assert(i < start.spec_len());
                        assert(!skip.contains(i as int));
                        assert(self.marked_set().contains(i as int) <==> start.reachable_avoiding(root.traced(&start), skip, i as int));
                        assert(start.reachable(root.traced(&start), i as int) == start.reachable_avoiding(root.traced(&start), skip, i as int));
                    }
                }
            }
        }
        self.cur_generation = self.cur_generation + 1;
        self.next_gc = saturating_mul(self.config.gc_growth_factor, self.bytes_allocated());
    }

    /// Every handle of `hs` refers to a block of this heap.
    pub open spec fn refers_within(&self, hs: Seq<Handle<U>>) -> bool {
        forall|k: int| 0 <= k < hs.len() ==> (#[trigger] hs[k]).spec_index() < self.spec_len()
    }

    /// The handles that each object of the heap marks refer to blocks of
    /// the heap.
    pub open spec fn objects_refer_within(&self) -> bool {
        forall|i: int| 0 <= i < self.spec_len() ==> #[trigger] self.refers_within(self.children(i))
    }

    /// The handles that the object in block `i` reaches directly (none for
    /// a block that holds no object).
    pub open spec fn children(&self, i: int) -> Seq<Handle<U>> {
        match self.spec_data(i) {
            Some(d) => d.traced(self),
            None => Seq::empty(),
        }
    }

    /// `s` holds the blocks (of this heap) outside `skip` that `roots`
    /// refer to, and every block outside `skip` that the object of a block
    /// of `s` reaches directly.
    pub open spec fn closed_avoiding(&self, roots: Seq<Handle<U>>, skip: Set<int>, s: Set<int>) -> bool {
        &&& forall|k: int|
            0 <= k < roots.len() && (#[trigger] roots[k]).spec_index() < self.spec_len() && !skip.contains(
                roots[k].spec_index() as int,
            ) ==> s.contains(roots[k].spec_index() as int)
        &&& forall|i: int, k: int|
            #![trigger s.contains(i), self.children(i)[k]]
            s.contains(i) && 0 <= i < self.spec_len() && 0 <= k < self.children(i).len()
                && self.children(i)[k].spec_index() < self.spec_len() && !skip.contains(
                self.children(i)[k].spec_index() as int,
            ) ==> s.contains(self.children(i)[k].spec_index() as int)
    }

    /// Block `i` is reachable from `roots` through blocks outside `skip`:
    /// it is in every set that `closed_avoiding` accepts.
    pub open spec fn reachable_avoiding(&self, roots: Seq<Handle<U>>, skip: Set<int>, i: int) -> bool {
        forall|s: Set<int>| #[trigger] self.closed_avoiding(roots, skip, s) ==> s.contains(i)
    }

    /// Block `i` is reachable from `roots`: it is in every set that holds
    /// the blocks that `roots` refer to and every block that the object of
    /// one of its blocks reaches directly (no block is skipped).
    pub open spec fn reachable(&self, roots: Seq<Handle<U>>, i: int) -> bool {
        self.reachable_avoiding(roots, Set::empty(), i)
    }

    /// Marks the blocks reached from `root`, following the handles that
    /// the `trace` of each object marked for the first time marks: a block
    /// that was marked already is not traced again. Afterwards the marked
    /// blocks are those marked before and those that the root reaches,
    /// directly or through objects of blocks that were not marked before.
    fn mark<Root: Trace<U>>(&mut self, root: &Root)
        requires
            old(self).wf(),
            old(self).objects_refer_within(),
            old(self).refers_within(root.traced(&*old(self))),
        ensures
            final(self).marking_frame(old(self)),
            old(self).marked_set().subset_of(final(self).marked_set()),
            old(self).closed_avoiding(
                root.traced(&*old(self)),
                old(self).marked_set(),
                final(self).marked_set().difference(old(self).marked_set()),
            ),
            forall|s: Set<int>|
                #[trigger] old(self).closed_avoiding(root.traced(&*old(self)), old(self).marked_set(), s)
                    ==> final(self).marked_set().subset_of(old(self).marked_set().union(s)),
    {
        let ghost start = *self;
        let ghost roots = root.traced(&start);
        let ghost skip = start.marked_set();
        let n = self.storage.len();
        let mut tracer = Tracer::new(self);
        proof {
            lemma_mark_all(tracer.marks(), tracer.grey(), roots);
        }
        root.trace(self, &mut tracer);
        proof {
            let m = tracer.marks();
            assert forall|s: Set<int>| #[trigger] start.closed_avoiding(roots, skip, s) implies flagged(m).subset_of(skip.union(s)) by {
                assert forall|i: int| flagged(m).contains(i) implies skip.union(s).contains(i) by {
                    if !start.storage@[i].header.spec_marked() {
                        let k = choose|k: int| 0 <= k < roots.len() && (#[trigger] roots[k]).spec_index() == i;
                    }
                }
            }
            assert forall|k: int| 0 <= k < roots.len() && (#[trigger] roots[k]).spec_index() < n implies
                m[roots[k].spec_index() as int] by {
                assert(refers_to(roots, roots[k].spec_index() as int));
            }
            assert forall|i: int| 0 <= i < n && #[trigger] m[i] && !start.storage@[i].header.spec_marked() implies queued(tracer.grey(), 0, i) by {
            }
        }
        loop
            invariant
                *self == start,
                start.wf(),
                start.objects_refer_within(),
                n == start.storage@.len(),
                roots == root.traced(&start),
                skip == start.marked_set(),
                tracer.marks().len() == n,
                forall|k: int|
                    0 <= k < tracer.grey().len() ==> (#[trigger] tracer.grey()[k]).spec_index() < n
                        && tracer.marks()[tracer.grey()[k].spec_index() as int]
                        && !start.storage@[tracer.grey()[k].spec_index() as int].header.spec_marked(),
                forall|i: int|
                    0 <= i < n && (#[trigger] start.storage@[i]).header.spec_marked() ==> tracer.marks()[i],
                forall|s: Set<int>| #[trigger] start.closed_avoiding(roots, skip, s) ==> flagged(tracer.marks()).subset_of(skip.union(s)),
                forall|k: int|
                    0 <= k < roots.len() && (#[trigger] roots[k]).spec_index() < n ==> tracer.marks()[roots[k].spec_index() as int],
                forall|i: int|
                    0 <= i < n && #[trigger] tracer.marks()[i] && !start.storage@[i].header.spec_marked()
                        ==> queued(tracer.grey(), 0, i) || (forall|k: int|
                        0 <= k < start.children(i).len() && (#[trigger] start.children(i)[k]).spec_index() < n
                            ==> tracer.marks()[start.children(i)[k].spec_index() as int]),
            ensures
                tracer.grey().len() == 0,
            decreases 2 * unmarked(tracer.marks()) + tracer.grey().len(),
        {
            let ghost m0 = tracer.marks();
            let ghost g0 = tracer.grey();
            let next = match tracer.pop() {
                Some(h) => h,
                None => break,
            };
            let ghost g1 = tracer.grey();
            let ghost j = next.spec_index() as int;
            proof {
                assert(g0[g0.len() - 1] == next);
                lemma_mark_all(m0, g1, start.children(j));
                assert(start.refers_within(start.children(j)));
            }
            match &self.storage[next.index].data {
                Some(d) => d.trace(self, &mut tracer),
                None => {},
            }
            proof {
                let kids = start.children(j);
                let m2 = tracer.marks();
                let g2 = tracer.grey();
                assert(mark_all(m0, g1, kids) == (m2, g2)) by {
                    if start.storage@[j].data is None {
                        assert(kids =~= Seq::<Handle<U>>::empty());
                    }
                }
                assert(!start.storage@[j].header.spec_marked());
                assert forall|k: int| 0 <= k < g2.len() implies (#[trigger] g2[k]).spec_index() < n
                    && m2[g2[k].spec_index() as int]
                    && !start.storage@[g2[k].spec_index() as int].header.spec_marked() by {
                    if k < g1.len() {
                        assert(g1[k] == g0[k]);
                    } else {
                        assert(!m0[g2[k].spec_index() as int]);
                    }
                }
                assert forall|s: Set<int>| #[trigger] start.closed_avoiding(roots, skip, s) implies flagged(m2).subset_of(skip.union(s)) by {
                    assert(flagged(m0).subset_of(skip.union(s)));
                    assert forall|i: int| flagged(m2).contains(i) implies skip.union(s).contains(i) by {
                        if !m0[i] {
                            let k = choose|k: int| 0 <= k < kids.len() && (#[trigger] kids[k]).spec_index() == i;
                            assert(flagged(m0).contains(j));
                            assert(!skip.contains(j));
                            assert(s.contains(j));
                            assert(start.children(j)[k].spec_index() < n);
                            assert(!start.storage@[i].header.spec_marked());
                            assert(!skip.contains(i));
                        }
                    }
                }
                assert forall|k: int| 0 <= k < roots.len() && (#[trigger] roots[k]).spec_index() < n implies
                    m2[roots[k].spec_index() as int] by {
                }
                assert forall|i: int| 0 <= i < n && #[trigger] m2[i] && !start.storage@[i].header.spec_marked()
                    implies queued(g2, 0, i) || (forall|k: int|
                    0 <= k < start.children(i).len() && (#[trigger] start.children(i)[k]).spec_index() < n
                        ==> m2[start.children(i)[k].spec_index() as int]) by {
                    if !m0[i] {
                        let k = choose|k: int| g1.len() <= k < g2.len() && (#[trigger] g2[k]).spec_index() == i;
                    } else if i == j {
                        assert forall|k: int|
                            0 <= k < start.children(i).len() && (#[trigger] start.children(i)[k]).spec_index() < n
                                implies m2[start.children(i)[k].spec_index() as int] by {
                            assert(refers_to(kids, start.children(i)[k].spec_index() as int));
                        }
                    } else if queued(g0, 0, i) {
                        let k = choose|k: int| 0 <= k < g0.len() && (#[trigger] g0[k]).spec_index() == i;
                        assert(k < g1.len());
                        assert(g2[k] == g1[k]);
                        assert(g1[k] == g0[k]);
                    } else {
                        assert forall|k: int|
                            0 <= k < start.children(i).len() && (#[trigger] start.children(i)[k]).spec_index() < n
                                implies m2[start.children(i)[k].spec_index() as int] by {
                            assert(m0[start.children(i)[k].spec_index() as int]);
                        }
                    }
                }
            }
        }
        let ghost m = tracer.marks();
        let mut i: usize = 0;
        while i < n
            invariant
                i <= n,
                n == start.storage@.len(),
                m == tracer.marks(),
                m.len() == n,
                self.storage@.len() == n,
                forall|k: int|
                    0 <= k < n ==> (#[trigger] self.storage@[k]).data == start.storage@[k].data
                        && self.storage@[k].header.spec_generation() == start.storage@[k].header.spec_generation(),
                forall|k: int| 0 <= k < i ==> (#[trigger] self.storage@[k]).header.spec_marked() == m[k],
                forall|k: int|
                    i <= k < n ==> (#[trigger] self.storage@[k]).header.spec_marked()
                        == start.storage@[k].header.spec_marked(),
                forall|k: int| 0 <= k < n && (#[trigger] start.storage@[k]).header.spec_marked() ==> m[k],
                self.live_blocks@ == start.live_blocks@,
                self.free_blocks@ == start.free_blocks@,
                self.cur_generation == start.cur_generation,
                self.next_gc == start.next_gc,
                self.config == start.config,
                start.wf(),
            decreases n - i,
        {
            if tracer.is_marked(i) {
                self.storage[i].header.mark();
            }
            i += 1;
        }
        proof {
            assert(self.marking_frame(&start));
            assert(self.marked_set() =~= flagged(m));
            assert forall|i: int| skip.contains(i) implies self.marked_set().contains(i) by {
                assert(start.storage@[i].header.spec_marked());
            }
            let fresh = self.marked_set().difference(skip);
            assert forall|i: int, k: int|
                fresh.contains(i) && 0 <= i < start.spec_len() && 0 <= k < start.children(i).len()
                    && start.children(i)[k].spec_index() < start.spec_len() && !skip.contains(
                    start.children(i)[k].spec_index() as int,
                ) implies fresh.contains(start.children(i)[k].spec_index() as int) by {
                assert(m[i]);
                assert(!start.storage@[i].header.spec_marked());
                assert(!queued(tracer.grey(), 0, i));
            }
            assert(start.closed_avoiding(roots, skip, fresh));
        }
    }
}

/// The blocks whose flag is set.
pub open spec fn flagged(marks: Seq<bool>) -> Set<int> {
    Set::new(|i: int| 0 <= i < marks.len() && marks[i])
}

/// A handle of `worklist` from position `from` on refers to block `i`.
pub open spec fn queued<U>(worklist: Seq<Handle<U>>, from: int, i: int) -> bool {
    exists|k: int| from <= k < worklist.len() && (#[trigger] worklist[k]).spec_index() == i
}

impl<U> Heap<U> {
    /// Whether each block is marked.
    pub(crate) fn mark_flags(&self) -> (r: Vec<bool>)
        ensures
            r@ == self.spec_marks(),
    {
        let mut r: Vec<bool> = Vec::new();
        let mut i: usize = 0;
        while i < self.storage.len()
            invariant
                i <= self.storage@.len(),
                r@.len() == i,
                forall|k: int| 0 <= k < i ==> r@[k] == self.storage@[k].header.spec_marked(),
            decreases self.storage@.len() - i,
        {
            r.push(self.storage[i].header.is_marked());
            i += 1;
        }
        assert(r@ =~= self.spec_marks());
        r
    }

    /// The header of block `index`.
    fn index_header(&self, index: usize) -> (r: &GcHeader)
        requires
            index < self.storage@.len(),
        ensures
            *r == self.storage@[index as int].header,
    {
        &self.storage[index].header
    }

    /// The header of the block that `handle` refers to: its generation and
    /// its mark.
    pub fn header(&self, handle: Handle<U>) -> (r: &GcHeader)
        requires
            handle.spec_index() < self.spec_len(),
        ensures
            r.spec_generation() == self.spec_block_generation(handle.spec_index() as int),
            r.spec_marked() == self.spec_marks()[handle.spec_index() as int],
    {
        self.index_header(handle.index)
    }

    /// Everything but the marks is as in `before`, and `before` was well
    /// formed.
    closed spec fn marking_frame(&self, before: &Self) -> bool {
        &&& before.wf()
        &&& self.storage@.len() == before.storage@.len()
        &&& forall|i: int|
            0 <= i < self.storage@.len() ==> (#[trigger] self.storage@[i]).data == before.storage@[i].data
                && self.storage@[i].header.spec_generation()
                == before.storage@[i].header.spec_generation()
        &&& self.live_blocks@ == before.live_blocks@
        &&& self.free_blocks@ == before.free_blocks@
        &&& self.cur_generation == before.cur_generation
        &&& self.next_gc == before.next_gc
        &&& self.config == before.config
    }

    /// Moves every allocated block whose header is not marked to the free
    /// list; the marks stay as they are.
    fn sweep(&mut self)
        requires
            exists|before: Self| old(self).marking_frame(&before),
        ensures
            final(self).wf(),
            final(self).storage@ == old(self).storage@,
            forall|x: usize|
                #[trigger] final(self).live_blocks@.contains(x) <==> old(self).live_blocks@.contains(x)
                    && old(self).storage@[x as int].header.spec_marked(),
            final(self).free_blocks@.subrange(0, old(self).free_blocks@.len() as int) == old(self).free_blocks@,
            forall|k: int|
                old(self).free_blocks@.len() <= k < final(self).free_blocks@.len() ==> old(self).live_blocks@.contains(#[trigger] final(self).free_blocks@[k]) && !final(self).live_blocks@.contains(final(self).free_blocks@[k]),
            forall|x: usize|
                old(self).live_blocks@.contains(x) && !final(self).live_blocks@.contains(x)
                    ==> #[trigger] final(self).free_blocks@.contains(x),
            final(self).cur_generation == old(self).cur_generation,
            final(self).next_gc == old(self).next_gc,
            final(self).config == old(self).config,
    {
        let ghost s0 = self.storage@;
        let ghost live0 = self.live_blocks@;
        let ghost free0 = self.free_blocks@;
        let ghost before = choose|before: Self| self.marking_frame(&before);
        let n = self.storage.len();
        let mut k: usize = 0;
        while k < n
            invariant
                0 <= k <= n,
                n == s0.len(),
                self.storage@ == s0,
                live0.finite(),
                forall|x: usize| #[trigger] live0.contains(x) ==> x < n && s0[x as int].data is Some,
                forall|m: int|
                    0 <= m < free0.len() ==> #[trigger] free0[m] < n && !live0.contains(free0[m]),
                free0.no_duplicates(),
                forall|x: usize|
                    #[trigger] self.live_blocks@.contains(x) <==> live0.contains(x) && (x >= k
                        || s0[x as int].header.spec_marked()),
                self.free_blocks@.subrange(0, free0.len() as int) == free0,
                self.free_blocks@.len() >= free0.len(),
                forall|m: int|
                    free0.len() <= m < self.free_blocks@.len() ==> #[trigger] self.free_blocks@[m] < k
                        && live0.contains(self.free_blocks@[m]) && !s0[self.free_blocks@[m] as int].header.spec_marked(),
                self.free_blocks@.no_duplicates(),
                forall|x: usize|
                    x < k && live0.contains(x) && !s0[x as int].header.spec_marked()
                        ==> #[trigger] self.free_blocks@.contains(x),
                self.cur_generation == before.cur_generation,
                self.next_gc == before.next_gc,
                self.config == before.config,
                self.cur_generation == old(self).cur_generation,
                self.next_gc == old(self).next_gc,
                self.config == old(self).config,
            decreases n - k,
        {
            if !self.index_header(k).is_marked() && self.live_blocks.contains(&k) {
                let ghost f = self.free_blocks@;
                self.live_blocks.remove(&k);
                self.free_blocks.push(k);
                proof {
                    assert(self.free_blocks@.subrange(0, free0.len() as int) =~= free0);
                    assert forall|a: int, b: int|
                        0 <= a < self.free_blocks@.len() && 0 <= b < self.free_blocks@.len() && a
                            != b implies self.free_blocks@[a] != self.free_blocks@[b] by {
                        if a < f.len() && b < f.len() {
                            assert(f[a] != f[b]);
                        } else if a == f.len() {
                            if b < free0.len() {
                                assert(f[b] == free0[b]);
                            }
                        } else if b == f.len() {
                            if a < free0.len() {
                                assert(f[a] == free0[a]);
                            }
                        }
                    }
                    assert(self.free_blocks@[f.len() as int] == k);
                    assert forall|x: usize|
                        x < k + 1 && live0.contains(x) && !s0[x as int].header.spec_marked() implies #[trigger] self.free_blocks@.contains(x) by {
                        if x < k {
                            assert(f.contains(x));
                            let m = choose|m: int| 0 <= m < f.len() && f[m] == x;
                            assert(self.free_blocks@[m] == x);
                        } else {
                            assert(self.free_blocks@[f.len() as int] == x);
                        }
                    }
                }
            }
            k = k + 1;
        }
        proof {
            assert forall|m: int|
                0 <= m < self.free_blocks@.len() implies #[trigger] self.free_blocks@[m] < n
                && !self.live_blocks@.contains(self.free_blocks@[m]) by {
                if m < free0.len() {
                    assert(self.free_blocks@[m] == self.free_blocks@.subrange(0, free0.len() as int)[m]);
                }
            }
            assert(self.live_blocks@.subset_of(live0));
            vstd::set_lib::lemma_len_subset(self.live_blocks@, live0);
        }
    }
}

/// Starting a shared borrow of a block and giving it back leaves the heap
/// as it was, borrow states included.
pub proof fn lemma_borrow_then_release<U>(h0: Heap<U>, h1: Heap<U>, h2: Heap<U>, i: int)
    requires
        0 <= i < h0.spec_len(),
        valid_borrow_state(h0.spec_block_borrow_state(i)),
        h0.spec_block_borrow_state(i) != BorrowState::BorrowedMut,
        h0.spec_block_borrow_state(i) != BorrowState::Shared(u32::MAX),
        h1.same_but_borrow_of(&h0, i),
        h1.spec_block_borrow_state(i) == after_start_borrow(h0.spec_block_borrow_state(i)),
        h2.same_but_borrow_of(&h1, i),
        h2.spec_block_borrow_state(i) == after_end_borrow(h1.spec_block_borrow_state(i)),
    ensures
        h2.same_but_borrow_of(&h0, i),
        forall|j: int| 0 <= j < h0.spec_len() ==> h2.spec_block_borrow_state(j) == h0.spec_block_borrow_state(j),
{
    lemma_borrow_round_trip(h0.spec_block_borrow_state(i));
}

/// Starting the mutable borrow of an unborrowed block and ending it leaves
/// the heap as it was, borrow states included.
pub proof fn lemma_borrow_mut_then_release<U>(h0: Heap<U>, h1: Heap<U>, h2: Heap<U>, i: int)
    requires
        0 <= i < h0.spec_len(),
        h0.spec_block_borrow_state(i) == BorrowState::Unborrowed,
        h1.same_but_borrow_of(&h0, i),
        h1.spec_block_borrow_state(i) == BorrowState::BorrowedMut,
        h2.same_but_borrow_of(&h1, i),
        h2.spec_block_borrow_state(i) == BorrowState::Unborrowed,
    ensures
        h2.same_but_borrow_of(&h0, i),
        forall|j: int| 0 <= j < h0.spec_len() ==> h2.spec_block_borrow_state(j) == h0.spec_block_borrow_state(j),
{
}

/// A handle that refers to an object before a collection still refers to
/// that object afterwards: collecting moves no object and changes no
/// block's generation.
pub proof fn lemma_collect_keeps_handles<U>(before: Heap<U>, after: Heap<U>, h: Handle<U>)
    requires
        after.collection_of(&before),
        before.valid_handle(h),
    ensures
        after.valid_handle(h),
        after.spec_data(h.spec_index() as int) == before.spec_data(h.spec_index() as int),
{
}

/// A collection never increases the bytes allocated.
pub proof fn lemma_collect_shrinks<U>(before: Heap<U>, after: Heap<U>)
    requires
        after.collection_of(&before),
        before.spec_live().finite(),
    ensures
        after.spec_bytes_allocated() <= before.spec_bytes_allocated(),
{
    vstd::set_lib::lemma_len_subset(after.spec_live(), before.spec_live());
    let size = vstd::layout::size_of::<U>();
    let a = after.spec_live().len();
    let b = before.spec_live().len();
    assert(a * size <= b * size) by (nonlinear_arith)
        requires
            a <= b,
    ;
}

/// Every block that a collection frees can be allocated again: it is on
/// the free list, and no longer allocated.
pub proof fn lemma_collect_frees_to_free_list<U>(before: Heap<U>, after: Heap<U>, i: usize)
    requires
        after.collection_of(&before),
        before.spec_live().contains(i),
        !after.spec_live().contains(i),
    ensures
        after.spec_free().contains(i),
{
}

fn saturating_mul(a: usize, b: usize) -> (r: usize)
    ensures
        r == saturating_product(a as nat, b as nat),
{
    match a.checked_mul(b) {
        Some(p) => p,
        None => usize::MAX,
    }
}

impl<U: Trace<U>> Trace<U> for Handle<U> {
    /// A handle marks the block it refers to, then what the object in that
    /// block marks.
    open spec fn traced(&self, heap: &Heap<U>) -> Seq<Handle<U>> {
        seq![*self] + heap.children(self.spec_index() as int)
    }

    fn trace(&self, heap: &Heap<U>, tracer: &mut Tracer<U>) {
        let ghost m0 = tracer.marks();
        let ghost g0 = tracer.grey();
        let ghost hs = self.traced(heap);
        proof {
            assert(hs[0] == *self);
        }
        tracer.mark(*self);
        proof {
            assert(hs.drop_first() =~= heap.children(self.spec_index() as int));
            assert(hs.len() > 0);
        }
        match &heap.storage[self.index].data {
            Some(d) => {
                proof {
                    assert forall|k: int| 0 <= k < d.traced(heap).len() implies (#[trigger] d.traced(heap)[k]).spec_index() < heap.spec_len() by {
                        assert(d.traced(heap)[k] == hs[k + 1]);
                    }
                }
                d.trace(heap, tracer);
            },
            None => {
                proof {
                    assert(hs.drop_first().len() == 0);
                    reveal_with_fuel(mark_all, 2);
                }
            },
        }
    }
}

} // verus!
