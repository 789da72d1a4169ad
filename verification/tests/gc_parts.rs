use lox::gc::block::GcBlock;
use lox::gc::header::{BorrowState, GcHeader};
use lox::gc::{Heap, HeapConfig, Ref, RefMut, Tracer};

#[test]
fn header_marks_once() {
    let mut h = GcHeader::new(3);
    assert_eq!(h.generation(), 3);
    assert!(!h.is_marked());
    assert!(h.mark());
    assert!(!h.mark());
    assert!(h.is_marked());
    h.unmark();
    assert!(!h.is_marked());
}

#[test]
fn header_borrow_states() {
    let mut h = GcHeader::new(0);
    h.start_borrow();
    h.start_borrow();
    h.end_borrow();
    h.end_borrow();
    h.start_borrow_mut();
    h.end_borrow_mut();
    h.start_borrow();
    assert_eq!(h.borrow_state(), BorrowState::Shared(1));
    h.end_borrow();
    assert_eq!(h.borrow_state(), BorrowState::Unborrowed);
}

#[test]
fn block_starts_empty() {
    let b: GcBlock<u32> = GcBlock::new(9);
    assert!(b.data.is_none());
    assert_eq!(b.header.generation(), 9);
}

#[test]
fn alloc_then_borrow_reads_back() {
    let mut heap: Heap<u64> = Heap::new(HeapConfig { initial_size: 2, gc_growth_factor: 2 });
    assert_eq!(heap.capacity(), 2);
    let h = heap.allocate(17).unwrap();
    assert_eq!(h.index(), 1);
    assert_eq!(h.generation(), 0);
    let r = heap.borrow(h);
    assert_eq!(*heap.get(&r), 17);
    heap.release(r);
    let m = heap.borrow_mut(h);
    *heap.get_mut(&m) = 18;
    heap.release_mut(m);
    let r = heap.borrow(h);
    assert_eq!(*heap.get(&r), 18);
    heap.release(r);
    assert!(heap.is_live(1));
    assert_eq!(heap.bytes_allocated(), 8);
}

#[test]
fn heap_counts_borrows() {
    let mut heap: Heap<u64> = Heap::new(HeapConfig { initial_size: 2, gc_growth_factor: 2 });
    let h = heap.allocate(5).unwrap();
    assert_eq!(heap.borrow_state(h), BorrowState::Unborrowed);
    let r1 = heap.borrow(h);
    assert_eq!(heap.borrow_state(h), BorrowState::Shared(1));
    let r2 = heap.borrow(h);
    assert_eq!(heap.borrow_state(h), BorrowState::Shared(2));
    assert_eq!(*heap.get(&r1), 5);
    assert_eq!(r2.handle().index(), h.index());
    heap.release(r2);
    assert_eq!(heap.borrow_state(h), BorrowState::Shared(1));
    heap.release(r1);
    assert_eq!(heap.borrow_state(h), BorrowState::Unborrowed);
    let m = heap.borrow_mut(h);
    assert_eq!(heap.borrow_state(h), BorrowState::BorrowedMut);
    heap.release_mut(m);
    assert_eq!(heap.borrow_state(h), BorrowState::Unborrowed);
}

#[test]
fn heap_grows_when_full() {
    let mut heap: Heap<u64> = Heap::new(HeapConfig { initial_size: 1, gc_growth_factor: 2 });
    let a = heap.allocate(1).unwrap();
    let b = heap.allocate(2).unwrap();
    assert_eq!(a.index(), 0);
    assert_eq!(b.index(), 1);
    assert_eq!(heap.capacity(), 0);
    let c = heap.allocate(3).unwrap();
    assert_eq!(c.index(), 3);
    assert_eq!(heap.capacity(), 1);
}

#[test]
fn refs_count_in_header() {
    let mut heap: Heap<u8> = Heap::new(HeapConfig { initial_size: 1, gc_growth_factor: 2 });
    let h = heap.allocate(1).unwrap();
    let mut header = GcHeader::new(0);
    let r: Ref<u8> = Ref::new(&mut header, h);
    assert_eq!(header.borrow_state(), BorrowState::Shared(1));
    assert_eq!(r.handle().index(), h.index());
    r.release(&mut header);
    assert_eq!(header.borrow_state(), BorrowState::Unborrowed);
    let m: RefMut<u8> = RefMut::new(&mut header, h);
    assert_eq!(header.borrow_state(), BorrowState::BorrowedMut);
    m.release(&mut header);
    assert_eq!(header.borrow_state(), BorrowState::Unborrowed);
}

#[test]
fn tracer_records_marks() {
    let mut heap: Heap<u64> = Heap::new(HeapConfig { initial_size: 2, gc_growth_factor: 2 });
    let h = heap.allocate(1).unwrap();
    let mut t = Tracer::new(&heap);
    t.mark(h);
    assert_eq!(t.pop().map(|x| x.index()), Some(h.index()));
    assert!(t.pop().is_none());
}

#[test]
fn tracer_greys_a_block_once() {
    let mut heap: Heap<u64> = Heap::new(HeapConfig { initial_size: 2, gc_growth_factor: 2 });
    let h = heap.allocate(1).unwrap();
    let mut t = Tracer::new(&heap);
    t.mark(h);
    t.mark(h);
    assert_eq!(t.pop().map(|x| x.index()), Some(h.index()));
    assert!(t.pop().is_none());
    t.mark(h);
    assert!(t.pop().is_none());
}
