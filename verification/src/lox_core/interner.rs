use std::collections::HashMap;
use std::hash::Hash;
use vstd::prelude::*;
use vstd::std_specs::hash::obeys_key_model;
use vstd::std_specs::iter::IteratorSpec;

use super::ids::UsizeId;

verus! {

broadcast use vstd::std_specs::hash::group_hash_axioms;

/// Stores values under consecutive identifiers. Its lookup table from
/// values to identifiers is never filled: `intern` stores each value it is
/// given under a new identifier, and `get_right` finds nothing.
pub struct Interner<Id, T> {
    elt_to_id: HashMap<T, Id>,
    id_to_elt: Vec<T>,
}

impl<Id: UsizeId, T: Hash + Eq> Interner<Id, T> {
    /// The stored values, indexed by identifier.
    pub closed spec fn elements(&self) -> Seq<T> {
        self.id_to_elt@
    }

    /// The lookup table from values to identifiers.
    pub closed spec fn table(&self) -> Map<T, Id> {
        self.elt_to_id@
    }

    /// An empty interner.
    pub fn new() -> (r: Self)
        ensures
            r.elements() == Seq::<T>::empty(),
            r.table() == Map::<T, Id>::empty(),
    {
        Self { elt_to_id: HashMap::new(), id_to_elt: Vec::new() }
    }

    /// The identifier that the table gives `t`; when there is none, `t` is
    /// stored under the next index, which is returned.
    pub fn intern(&mut self, t: T) -> (r: Id)
        requires
            old(self).elements().len() < usize::MAX,
        ensures
            final(self).table() == old(self).table(),
            obeys_key_model::<T>() ==> if old(self).table().contains_key(t) {
                &&& r == old(self).table()[t]
                &&& final(self).elements() == old(self).elements()
            } else {
                &&& r.spec_usize() == old(self).elements().len()
                &&& final(self).elements() == old(self).elements().push(t)
            },
    {
        match self.elt_to_id.get(&t) {
            Some(id) => *id,
            None => {
                let id: Id = Id::from_usize(self.id_to_elt.len());
                self.id_to_elt.push(t);
                id
            },
        }
    }

    /// The identifier that the table gives `t`.
    pub fn get_right(&self, t: &T) -> (r: Option<Id>)
        ensures
            obeys_key_model::<T>() ==> match r {
                Some(id) => self.table().contains_key(*t) && self.table()[*t] == id,
                None => !self.table().contains_key(*t),
            },
    {
        match self.elt_to_id.get(t) {
            Some(id) => Some(*id),
            None => None,
        }
    }

    /// The value stored under `i`.
    pub fn get_left(&self, i: Id) -> (r: &T)
        requires
            i.spec_usize() < self.elements().len(),
        ensures
            *r == self.elements()[i.spec_usize() as int],
    {
        &self.id_to_elt[i.into_usize()]
    }

    /// The identifiers in the lookup table, as many as it has entries.
    pub fn all(&self) -> (r: Vec<Id>)
        ensures
            obeys_key_model::<T>() ==> r@.to_set() == self.table().values() && r@.len()
                == self.table().dom().len(),
    {
        let mut out: Vec<Id> = Vec::new();
        let n = self.elt_to_id.len();
        let mut it = self.elt_to_id.values();
        let ghost all_values = vstd::std_specs::hash::spec_values_iter(&self.elt_to_id).remaining();
        let mut i: usize = 0;
        while i < n
            invariant_except_break
                i <= n,
                obeys_key_model::<T>() ==> {
                    &&& n == all_values.len()
                    &&& it.remaining() == all_values.skip(i as int)
                    &&& out@ == all_values.take(i as int).unref()
                },
            ensures
                obeys_key_model::<T>() ==> out@ == all_values.unref(),
            decreases n - i,
        {
            match next_item(&mut it) {
                Some(id) => out.push(*id),
                None => break,
            }
            proof {
                if obeys_key_model::<T>() {
                    assert(all_values.take(i + 1).unref() =~= all_values.take(i as int).unref().push(
                        *all_values[i as int],
                    ));
                    assert(all_values.skip(i + 1) =~= all_values.skip(i as int).drop_first());
                }
            }
            i += 1;
        }
        proof {
            if obeys_key_model::<T>() {
                assert(all_values.take(n as int) =~= all_values);
            }
        }
        out
    }

    /// Total number of stored values.
    pub fn len(&self) -> (r: usize)
        ensures
            r == self.elements().len(),
    {
        self.id_to_elt.len()
    }
}

/// The next item of `it`: the first of the items it has still to give,
/// for an iterator that keeps to the laws of iteration.
fn next_item<I: Iterator>(it: &mut I) -> (r: Option<I::Item>)
    ensures
        (*old(it)).obeys_prophetic_iter_laws() ==> if (*old(it)).remaining().len() > 0 {
            &&& (*final(it)).remaining() == (*old(it)).remaining().drop_first()
            &&& r == Some((*old(it)).remaining()[0])
        } else {
            r is None
        },
{
    it.next()
}

} // verus!
