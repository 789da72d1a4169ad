use vstd::prelude::*;

use super::heap::{Handle, Heap};

verus! {

/// Marks the blocks that tracing reaches, and keeps the handles of the
/// blocks marked for the first time (the grey ones), whose objects are
/// still to be traced. It starts from the marks of a heap, and the heap
/// takes the marks back once tracing is done.
pub struct Tracer<U> {
    marks: Vec<bool>,
    grey: Vec<Handle<U>>,
}

/// Marking `h`: when it refers to a block (below `marks.len()`) that is not
/// marked yet, the block is marked and `h` becomes grey; otherwise nothing
/// changes.
pub open spec fn mark_one<U>(marks: Seq<bool>, grey: Seq<Handle<U>>, h: Handle<U>) -> (
    Seq<bool>,
    Seq<Handle<U>>,
) {
    if h.spec_index() < marks.len() && !marks[h.spec_index() as int] {
        (marks.update(h.spec_index() as int, true), grey.push(h))
    } else {
        (marks, grey)
    }
}

/// Marking each of `hs` in turn.
pub open spec fn mark_all<U>(marks: Seq<bool>, grey: Seq<Handle<U>>, hs: Seq<Handle<U>>) -> (
    Seq<bool>,
    Seq<Handle<U>>,
)
    decreases hs.len(),
{
    if hs.len() == 0 {
        (marks, grey)
    } else {
        let next = mark_one(marks, grey, hs[0]);
        mark_all(next.0, next.1, hs.drop_first())
    }
}

/// The number of blocks not marked.
pub open spec fn unmarked(marks: Seq<bool>) -> nat
    decreases marks.len(),
{
    if marks.len() == 0 {
        0
    } else {
        unmarked(marks.drop_last()) + if marks.last() {
            0nat
        } else {
            1nat
        }
    }
}

proof fn lemma_unmarked_set(marks: Seq<bool>, i: int)
    requires
        0 <= i < marks.len(),
        !marks[i],
    ensures
        unmarked(marks.update(i, true)) + 1 == unmarked(marks),
    decreases marks.len(),
{
    let up = marks.update(i, true);
    if i == marks.len() - 1 {
        assert(up.drop_last() =~= marks.drop_last());
    } else {
        assert(up.drop_last() =~= marks.drop_last().update(i, true));
        lemma_unmarked_set(marks.drop_last(), i);
    }
}

/// Some handle of `hs` refers to block `i`.
pub open spec fn refers_to<U>(hs: Seq<Handle<U>>, i: int) -> bool {
    exists|k: int| 0 <= k < hs.len() && (#[trigger] hs[k]).spec_index() == i
}

/// What marking the handles `hs` does: a block is marked afterwards when
/// it was before or some handle of `hs` refers to it; the grey handles
/// grow by one handle for each block marked for the first time, in the
/// order of `hs`.
pub proof fn lemma_mark_all<U>(marks: Seq<bool>, grey: Seq<Handle<U>>, hs: Seq<Handle<U>>)
    ensures
        ({
            let (m, g) = mark_all(marks, grey, hs);
            &&& m.len() == marks.len()
            &&& forall|i: int| 0 <= i < marks.len() ==> (#[trigger] m[i] <==> (marks[i] || refers_to(hs, i)))
            &&& g.len() >= grey.len()
            &&& forall|k: int| 0 <= k < grey.len() ==> #[trigger] g[k] == grey[k]
            &&& forall|k: int|
                grey.len() <= k < g.len() ==> (#[trigger] g[k]).spec_index() < marks.len()
                    && !marks[g[k].spec_index() as int] && m[g[k].spec_index() as int]
            &&& forall|i: int|
                0 <= i < marks.len() && !marks[i] && #[trigger] m[i] ==> exists|k: int|
                    grey.len() <= k < g.len() && (#[trigger] g[k]).spec_index() == i
            &&& 2 * unmarked(m) + g.len() <= 2 * unmarked(marks) + grey.len()
        }),
    decreases hs.len(),
{
    if hs.len() > 0 {
        let (m1, g1) = mark_one(marks, grey, hs[0]);
        lemma_mark_all(m1, g1, hs.drop_first());
        let (m, g) = mark_all(marks, grey, hs);
        let h = hs[0];
        let j = h.spec_index() as int;
        let fresh = h.spec_index() < marks.len() && !marks[j];
        if fresh {
            lemma_unmarked_set(marks, j);
            assert(g1[grey.len() as int] == h);
        }
        assert forall|i: int| 0 <= i < marks.len() implies (#[trigger] m[i] <==> (marks[i] || refers_to(hs, i))) by {
            if refers_to(hs, i) && !refers_to(hs.drop_first(), i) {
                let k = choose|k: int| 0 <= k < hs.len() && (#[trigger] hs[k]).spec_index() == i;
                if k > 0 {
                    assert(hs.drop_first()[k - 1] == hs[k]);
                }
            }
            if refers_to(hs.drop_first(), i) {
                let k = choose|k: int| 0 <= k < hs.drop_first().len() && (#[trigger] hs.drop_first()[k]).spec_index() == i;
                assert(hs[k + 1] == hs.drop_first()[k]);
            }
        }
        assert forall|k: int| 0 <= k < grey.len() implies #[trigger] g[k] == grey[k] by {
            assert(g[k] == g1[k]);
        }
        assert forall|k: int|
            grey.len() <= k < g.len() implies (#[trigger] g[k]).spec_index() < marks.len()
                && !marks[g[k].spec_index() as int] && m[g[k].spec_index() as int] by {
            if k < g1.len() {
                assert(g[k] == g1[k]);
            }
        }
        assert forall|i: int|
            0 <= i < marks.len() && !marks[i] && #[trigger] m[i] implies exists|k: int|
                grey.len() <= k < g.len() && (#[trigger] g[k]).spec_index() == i by {
            if !m1[i] {
                let k = choose|k: int| g1.len() <= k < g.len() && (#[trigger] g[k]).spec_index() == i;
            } else {
                assert(fresh && i == j);
                assert(g[grey.len() as int] == g1[grey.len() as int]);
            }
        }
    }
}

impl<U> Tracer<U> {
    /// Whether each block is marked.
    pub closed spec fn marks(&self) -> Seq<bool> {
        self.marks@
    }

    /// The handles of the blocks marked for the first time that are still
    /// to be traced, the last one next.
    pub closed spec fn grey(&self) -> Seq<Handle<U>> {
        self.grey@
    }

    /// A tracer with the marks of `heap` and no grey handle.
    pub fn new(heap: &Heap<U>) -> (r: Self)
        ensures
            r.marks() == heap.spec_marks(),
            r.grey() == Seq::<Handle<U>>::empty(),
    {
        Self { marks: heap.mark_flags(), grey: Vec::new() }
    }

    /// Marks the block `elt` refers to; when it was not marked yet, `elt`
    /// becomes grey. The handle must refer to a block of the heap.
    pub fn mark(&mut self, elt: Handle<U>)
        requires
            elt.spec_index() < old(self).marks().len(),
        ensures
            (final(self).marks(), final(self).grey()) == mark_one(old(self).marks(), old(self).grey(), elt),
    {
        let i = elt.index();
        if !self.marks[i] {
            self.marks.set(i, true);
            self.grey.push(elt);
        }
    }

    /// Takes the most recently greyed handle.
    pub fn pop(&mut self) -> (r: Option<Handle<U>>)
        ensures
            final(self).marks() == old(self).marks(),
            old(self).grey().len() == 0 ==> r is None && final(self).grey() == old(self).grey(),
            old(self).grey().len() > 0 ==> r == Some(old(self).grey().last())
                && final(self).grey() == old(self).grey().drop_last(),
    {
        self.grey.pop()
    }

    /// Whether block `i` is marked.
    pub(crate) fn is_marked(&self, i: usize) -> (r: bool)
        requires
            i < self.marks().len(),
        ensures
            r == self.marks()[i as int],
    {
        self.marks[i]
    }
}

/// A type implementing trace should call `tracer.mark(handle)` for each
/// `handle` directly reachable from `self`.
pub trait Trace<U> {
    /// The handles that `trace` marks, in order, when the objects live on
    /// `heap`. An impl that does not say which handles these are leaves
    /// them unknown.
    closed spec fn traced(&self, heap: &Heap<U>) -> Seq<Handle<U>> {
        arbitrary()
    }

    /// Marks, with `tracer.mark`, each handle directly reachable from
    /// `self`, in order. The tracer works on the blocks of `heap`, and
    /// every handle marked refers to one of them.
    fn trace(&self, heap: &Heap<U>, tracer: &mut Tracer<U>)
        requires
            old(tracer).marks().len() == heap.spec_len(),
            forall|k: int|
                0 <= k < self.traced(heap).len() ==> (#[trigger] self.traced(heap)[k]).spec_index()
                    < heap.spec_len(),
        ensures
            (final(tracer).marks(), final(tracer).grey()) == mark_all(
                old(tracer).marks(),
                old(tracer).grey(),
                self.traced(heap),
            ),
    ;
}

} // verus!
