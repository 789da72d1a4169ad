use lox::gc::{AllocFailure, Handle, Heap, HeapConfig, Trace, Tracer};
use std::mem::size_of;

#[derive(Debug)]
struct Obj {
    reachable: Vec<Handle<Obj>>,
}

impl Obj {
    pub fn new() -> Self {
        Self { reachable: Vec::new() }
    }

    pub fn with_children(children: Vec<Handle<Obj>>) -> Self {
        Self { reachable: children }
    }
}

impl Trace<Obj> for Obj {
    fn trace(&self, _: &Heap<Obj>, t: &mut Tracer<Obj>) {
        for next in self.reachable.iter().cloned() {
            t.mark(next);
        }
    }
}

#[test]
fn test_simple() {
    let mut heap = Heap::new(HeapConfig { initial_size: 4, gc_growth_factor: 4 });

    let unreachable = heap.allocate(Obj::new()).unwrap();
    let _ = heap.allocate(Obj::with_children(vec![unreachable])).unwrap();

    let reachable = heap.allocate(Obj::new()).unwrap();

    heap.collect(&reachable);

    for i in 0..heap.capacity() {
        if i == reachable.index() {
            assert!(heap.is_live(i));
        } else {
            assert!(!heap.is_live(i));
        }
    }
}

#[test]
fn stress_test() {
    let mut heap = Heap::new(HeapConfig { initial_size: 4, gc_growth_factor: 4 });

    let root = heap.allocate(Obj::new()).expect("Root allocation failed");

    for _ in 0..10000 {
        match heap.allocate(Obj::new()) {
            Err(AllocFailure::NeedGc(obj)) => {
                heap.collect(&root);
                heap.allocate(obj).expect("Ran out of space");
            }
            _ => {}
        }
    }

    heap.collect(&root);

    assert!(heap.bytes_allocated() == size_of::<Obj>(),);
}

#[test]
fn survivors_stay_marked() {
    let mut heap = Heap::new(HeapConfig { initial_size: 4, gc_growth_factor: 4 });
    let child = heap.allocate(Obj::new()).unwrap();
    let root = heap.allocate(Obj::with_children(vec![child])).unwrap();
    heap.collect(&root);
    assert!(heap.is_live(root.index()));
    assert!(heap.is_live(child.index()));
    // The root handle traces the root's object on every collection, so a
    // new child of the root is kept.
    let second = heap.allocate(Obj::new()).unwrap();
    let m = heap.borrow_mut(root);
    heap.get_mut(&m).reachable.push(second);
    heap.release_mut(m);
    heap.collect(&root);
    assert!(heap.is_live(second.index()));
    // The child was marked by the first collection, so the later ones do
    // not trace it again and its new child is freed.
    let grandchild = heap.allocate(Obj::new()).unwrap();
    let m = heap.borrow_mut(child);
    heap.get_mut(&m).reachable.push(grandchild);
    heap.release_mut(m);
    heap.collect(&root);
    assert!(heap.is_live(child.index()));
    assert!(!heap.is_live(grandchild.index()));
}

#[test]
fn chains_are_kept_on_first_collection() {
    let mut heap = Heap::new(HeapConfig { initial_size: 4, gc_growth_factor: 4 });
    let leaf = heap.allocate(Obj::new()).unwrap();
    let middle = heap.allocate(Obj::with_children(vec![leaf])).unwrap();
    let top = heap.allocate(Obj::with_children(vec![middle])).unwrap();
    let stray = heap.allocate(Obj::new()).unwrap();
    heap.collect(&top);
    assert!(heap.is_live(top.index()));
    assert!(heap.is_live(middle.index()));
    assert!(heap.is_live(leaf.index()));
    assert!(!heap.is_live(stray.index()));
}
