use std::collections::HashMap;
use std::hash::Hash;
use vstd::prelude::*;
use vstd::pervasive::strictly_cloned;
use vstd::std_specs::hash::obeys_key_model;

use super::ids::UsizeId;

verus! {

broadcast use vstd::std_specs::hash::group_hash_axioms;

/// Hashing and equality of `T` agree with equality of values, and cloning
/// a `T` gives an equal value: what a hash map of `T` keys needs to behave
/// as a map.
pub open spec fn exact_keys<T: Clone>() -> bool {
    &&& obeys_key_model::<T>()
    &&& forall|a: T, b: T| #[trigger] strictly_cloned(a, b) ==> a == b
}

/// One interning of `t`: a pool holding `before` holds `after` and hands
/// out `id`. A value interned before keeps its index; a new one is stored
/// at the next index.
pub open spec fn intern_step<T>(before: Seq<T>, t: T, after: Seq<T>, id: int) -> bool {
    if before.contains(t) {
        &&& after == before
        &&& 0 <= id < before.len()
        &&& before[id] == t
    } else {
        &&& after == before.push(t)
        &&& id == before.len()
    }
}

/// The identifier handed out for `t` finds `t` again.
pub proof fn lemma_intern_finds<T>(before: Seq<T>, t: T, after: Seq<T>, id: int)
    requires
        intern_step(before, t, after, id),
    ensures
        0 <= id < after.len(),
        after[id] == t,
        forall|i: int| 0 <= i < before.len() ==> after[i] == before[i],
{
}

/// Interning a value a second time hands out the same identifier and
/// leaves the pool as it was.
pub proof fn lemma_intern_again<T>(before: Seq<T>, t: T, after: Seq<T>, id: int, again: Seq<T>, id2: int)
    requires
        before.no_duplicates(),
        intern_step(before, t, after, id),
        intern_step(after, t, again, id2),
    ensures
        id2 == id,
        again == after,
        after.no_duplicates(),
{
    lemma_intern_keeps_distinct(before, t, after, id);
    assert(after.contains(t)) by {
        assert(after[id] == t);
    }
}

/// Interning keeps the stored values distinct.
pub proof fn lemma_intern_keeps_distinct<T>(before: Seq<T>, t: T, after: Seq<T>, id: int)
    requires
        before.no_duplicates(),
        intern_step(before, t, after, id),
    ensures
        after.no_duplicates(),
        after.to_set() == before.to_set().insert(t),
{
    if !before.contains(t) {
        assert forall|i: int, j: int| 0 <= i < after.len() && 0 <= j < after.len() && i != j implies after[i]
            != after[j] by {
            if i == before.len() {
                assert(!before.contains(after[j]) ==> after[j] != t);
                assert(before[j] == after[j]);
            } else if j == before.len() {
                assert(before[i] == after[i]);
            }
        }
    }
    assert(after.to_set() =~= before.to_set().insert(t)) by {
        if before.contains(t) {
            assert(before.to_set().contains(t));
        } else {
            assert(after[before.len() as int] == t);
            assert forall|u: T| after.to_set().contains(u) implies before.to_set().insert(t).contains(u) by {
                let k = choose|k: int| 0 <= k < after.len() && after[k] == u;
                if k < before.len() {
                    assert(before[k] == u);
                }
            }
            assert forall|u: T| before.to_set().contains(u) implies after.to_set().contains(u) by {
                let k = choose|k: int| 0 <= k < before.len() && before[k] == u;
                assert(after[k] == u);
            }
        }
    }
}

/// Starting from an empty pool, interning the values `ts` one after the
/// other (through the pools `states`, handing out `ids`) leaves as many
/// values as there are distinct values among `ts`.
pub proof fn lemma_len_counts_distinct<T>(ts: Seq<T>, states: Seq<Seq<T>>, ids: Seq<int>)
    requires
        states.len() == ts.len() + 1,
        ids.len() == ts.len(),
        states[0] == Seq::<T>::empty(),
        forall|k: int| 0 <= k < ts.len() ==> intern_step(states[k], ts[k], #[trigger] states[k + 1], ids[k]),
    ensures
        states.last().len() == ts.to_set().len(),
        states.last().to_set() == ts.to_set(),
    decreases ts.len(),
{
    lemma_intern_sequence(ts, states, ids, ts.len() as int);
    assert(ts.take(ts.len() as int) =~= ts);
    states.last().unique_seq_to_set();
}

proof fn lemma_intern_sequence<T>(ts: Seq<T>, states: Seq<Seq<T>>, ids: Seq<int>, n: int)
    requires
        states.len() == ts.len() + 1,
        ids.len() == ts.len(),
        states[0] == Seq::<T>::empty(),
        forall|k: int| 0 <= k < ts.len() ==> intern_step(states[k], ts[k], #[trigger] states[k + 1], ids[k]),
        0 <= n <= ts.len(),
    ensures
        states[n].no_duplicates(),
        states[n].to_set() == ts.take(n).to_set(),
    decreases n,
{
    if n == 0 {
        assert(states[0].to_set() =~= Set::empty());
        assert(ts.take(0).to_set() =~= Set::empty());
    } else {
        lemma_intern_sequence(ts, states, ids, n - 1);
        let k = n - 1;
        assert(intern_step(states[k], ts[k], states[k + 1], ids[k]));
        assert(k + 1 == n);
        lemma_intern_keeps_distinct(states[n - 1], ts[n - 1], states[n], ids[n - 1]);
        assert(ts.take(n) =~= ts.take(n - 1).push(ts[n - 1]));
        assert(ts.take(n).to_set() =~= ts.take(n - 1).to_set().insert(ts[n - 1])) by {
            assert forall|u: T| ts.take(n).to_set().contains(u) implies ts.take(n - 1).to_set().insert(ts[n - 1]).contains(u) by {
                let k = choose|k: int| 0 <= k < n && #[trigger] ts.take(n)[k] == u;
                if k < n - 1 {
                    assert(ts.take(n - 1)[k] == u);
                }
            }
            assert forall|u: T| ts.take(n - 1).to_set().insert(ts[n - 1]).contains(u) implies ts.take(n).to_set().contains(u) by {
                if u == ts[n - 1] {
                    assert(ts.take(n)[n - 1] == u);
                } else {
                    let k = choose|k: int| 0 <= k < n - 1 && #[trigger] ts.take(n - 1)[k] == u;
                    assert(ts.take(n)[k] == u);
                }
            }
        }
    }
}

/// Gives each distinct value an identifier, the index at which it was
/// first interned, and finds the value again from it.
pub struct InternPool<Id, T> {
    elt_to_id: HashMap<T, Id>,
    id_to_elt: Vec<T>,
}

impl<Id: UsizeId, T: Hash + Eq + Clone> InternPool<Id, T> {
    /// The interned values, indexed by identifier.
    pub closed spec fn elements(&self) -> Seq<T> {
        self.id_to_elt@
    }

    /// The pool's invariant: each interned value is found again under the
    /// index where it is stored, and no value is stored twice.
    pub closed spec fn wf(&self) -> bool {
        exact_keys::<T>() ==> {
            &&& forall|t: T| #[trigger]
                self.elt_to_id@.contains_key(t) <==> self.id_to_elt@.contains(t)
            &&& forall|i: int|
                0 <= i < self.id_to_elt@.len() ==> #[trigger] self.elt_to_id@[self.id_to_elt@[i]].spec_usize()
                    == i
        }
    }

    /// Each interned value is stored once: a value has a single identifier.
    pub proof fn lemma_ids_unique(&self)
        requires
            self.wf(),
            exact_keys::<T>(),
        ensures
            self.elements().no_duplicates(),
    {
        assert forall|i: int, j: int|
            0 <= i < self.id_to_elt@.len() && 0 <= j < self.id_to_elt@.len() && i != j implies self.id_to_elt@[i]
            != self.id_to_elt@[j] by {
            assert(self.elt_to_id@[self.id_to_elt@[i]].spec_usize() == i);
            assert(self.elt_to_id@[self.id_to_elt@[j]].spec_usize() == j);
        }
    }

    /// An empty pool.
    pub fn new() -> (r: Self)
        ensures
            r.wf(),
            r.elements() == Seq::<T>::empty(),
    {
        Self { elt_to_id: HashMap::new(), id_to_elt: Vec::new() }
    }

    /// The identifier of `t`: the one it was given before, or else the next
    /// index, under which `t` is then stored.
    pub fn get_or_intern(&mut self, t: T) -> (r: Id)
        requires
            old(self).wf(),
            old(self).elements().len() < usize::MAX,
        ensures
            final(self).wf(),
            exact_keys::<T>() ==> intern_step(
                old(self).elements(),
                t,
                final(self).elements(),
                r.spec_usize() as int,
            ),
    {
        match self.elt_to_id.get(&t) {
            Some(id) => {
                let id = *id;
                proof {
                    if exact_keys::<T>() {
                        let i = choose|i: int| 0 <= i < self.id_to_elt@.len() && self.id_to_elt@[i] == t;
                        assert(self.elt_to_id@[self.id_to_elt@[i]].spec_usize() == i);
                    }
                }
                id
            },
            None => {
                let id: Id = Id::from_usize(self.id_to_elt.len());
                let key = t.clone();
                let ghost old_map = self.elt_to_id@;
                let ghost old_vec = self.id_to_elt@;
                self.elt_to_id.insert(key, id);
                self.id_to_elt.push(t);
                proof {
                    if exact_keys::<T>() {
                        assert(strictly_cloned(t, key) || key == t);
                        assert forall|u: T| #[trigger]
                            self.elt_to_id@.contains_key(u) <==> self.id_to_elt@.contains(u) by {
                            if old_vec.contains(u) {
                                let i = choose|i: int| 0 <= i < old_vec.len() && old_vec[i] == u;
                                assert(self.id_to_elt@[i] == u);
                            }
                            if self.id_to_elt@.contains(u) && u != t {
                                let i = choose|i: int| 0 <= i < self.id_to_elt@.len() && self.id_to_elt@[i] == u;
                                assert(old_vec[i] == u);
                            }
                            assert(self.id_to_elt@[old_vec.len() as int] == t);
                        }
                        assert forall|i: int| 0 <= i < self.id_to_elt@.len() implies #[trigger] self.elt_to_id@[self.id_to_elt@[i]].spec_usize() == i by {
                            if i < old_vec.len() {
                                assert(self.id_to_elt@[i] == old_vec[i]);
                                assert(old_vec.contains(old_vec[i]));
                            }
                        }
                    }
                }
                id
            },
        }
    }

    /// The value interned under `i`.
    pub fn get_left(&self, i: Id) -> (r: &T)
        requires
            i.spec_usize() < self.elements().len(),
        ensures
            *r == self.elements()[i.spec_usize() as int],
    {
        &self.id_to_elt[i.into_usize()]
    }

    /// The identifiers given out so far: those of the indices below `len()`,
    /// in increasing order.
    pub fn keys(&self) -> (r: Vec<Id>)
        ensures
            r@.len() == self.elements().len(),
            forall|i: int| 0 <= i < r@.len() ==> (#[trigger] r@[i]).spec_usize() == i,
    {
        let mut out: Vec<Id> = Vec::new();
        let n = self.id_to_elt.len();
        let mut i: usize = 0;
        while i < n
            invariant
                0 <= i <= n,
                n == self.elements().len(),
                out@.len() == i,
                forall|j: int| 0 <= j < i ==> (#[trigger] out@[j]).spec_usize() == j,
            decreases n - i,
        {
            out.push(Id::from_usize(i));
            i = i + 1;
        }
        out
    }

    /// Total number of interned values.
    pub fn len(&self) -> (r: usize)
        ensures
            r == self.elements().len(),
    {
        self.id_to_elt.len()
    }
}

} // verus!
