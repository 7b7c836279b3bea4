use vstd::prelude::*;
use crate::object::Object;
use crate::objsys::{RefKey, fresh_key};
use rand::seq::SliceRandom;

verus! {

/// Puts the elements in a random order: calls `SliceRandom::shuffle` of the
/// `rand` crate with the thread-local generator. The contract says only that
/// the same elements remain; which order comes out is left to chance.
#[verifier::external_body]
fn shuffle_objects(v: &mut Vec<Object>)
    ensures
        final(v)@.to_multiset() == old(v)@.to_multiset(),
{
    let mut rng = rand::thread_rng();
    v.shuffle(&mut rng);
}

/// The storage of a list on the heap: its key, its elements, and its mark
/// for the garbage collector.
pub struct InternalList {
    pub id: RefKey,
    pub els: Vec<Object>,
    pub marked: bool,
}

impl InternalList {
    /// A new, empty, unmarked list under a fresh key.
    pub fn new() -> (r: InternalList)
        ensures
            r.els@.len() == 0,
            !r.marked,
            r.id.0@.len() == 22,
    {
        InternalList { id: fresh_key(), els: Vec::new(), marked: false }
    }

    pub fn set_elements(&mut self, new_els: Vec<Object>)
        ensures
            final(self).els@ == new_els@,
            final(self).id == old(self).id,
            final(self).marked == old(self).marked,
    {
        self.els = new_els;
    }

    /// The element at `index`, which must exist.
    pub fn get_el(&self, index: usize) -> (r: &Object)
        requires
            index < self.els@.len(),
        ensures
            *r == self.els@[index as int],
    {
        &self.els[index]
    }

    /// Replaces the element at `index`, which must exist.
    pub fn set_el(&mut self, index: usize, val: Object)
        requires
            index < old(self).els@.len(),
        ensures
            final(self).els@ == old(self).els@.update(index as int, val),
            final(self).id == old(self).id,
            final(self).marked == old(self).marked,
    {
        self.els.set(index, val);
    }

    pub fn add(&mut self, el: Object)
        ensures
            final(self).els@ == old(self).els@.push(el),
            final(self).id == old(self).id,
            final(self).marked == old(self).marked,
    {
        self.els.push(el);
    }

    /// Appends the elements of `iterable`, in order.
    pub fn add_all(&mut self, iterable: Vec<Object>)
        ensures
            final(self).els@ == old(self).els@ + iterable@,
            final(self).id == old(self).id,
            final(self).marked == old(self).marked,
    {
        let mut rest = iterable;
        self.els.append(&mut rest);
    }

    /// Inserts `el` at `index`, which may be the length.
    pub fn insert(&mut self, index: usize, el: Object)
        requires
            index <= old(self).els@.len(),
        ensures
            final(self).els@ == old(self).els@.insert(index as int, el),
            final(self).id == old(self).id,
            final(self).marked == old(self).marked,
    {
        self.els.insert(index, el);
    }

    /// Removes and gives the element at `index`, which must exist.
    pub fn remove_at(&mut self, index: usize) -> (r: Object)
        requires
            index < old(self).els@.len(),
        ensures
            r == old(self).els@[index as int],
            final(self).els@ == old(self).els@.remove(index as int),
            final(self).id == old(self).id,
            final(self).marked == old(self).marked,
    {
        self.els.remove(index)
    }

    /// Removes and gives the last element, or gives `Null` when there is none.
    pub fn remove_last(&mut self) -> (r: Object)
        ensures
            old(self).els@.len() > 0 ==> r == old(self).els@.last() && final(self).els@ == old(self).els@.drop_last(),
            old(self).els@.len() == 0 ==> r == Object::Null && final(self).els@ == old(self).els@,
            final(self).id == old(self).id,
            final(self).marked == old(self).marked,
    {
        if self.els.len() > 0 {
            return self.els.pop().unwrap();
        }
        Object::Null
    }

    /// Removes the elements from `start` up to, not including, `end`.
    pub fn remove_range(&mut self, start: usize, end: usize)
        requires
            start <= end <= old(self).els@.len(),
        ensures
            final(self).els@ == old(self).els@.subrange(0, start as int) + old(self).els@.subrange(end as int, old(self).els@.len() as int),
            final(self).id == old(self).id,
            final(self).marked == old(self).marked,
    {
        let mut tail = self.els.split_off(end);
        self.els.truncate(start);
        self.els.append(&mut tail);
    }

    /// Puts the elements in a random order; the same elements remain.
    pub fn shuffle(&mut self)
        ensures
            final(self).els@.to_multiset() == old(self).els@.to_multiset(),
            final(self).els@.len() == old(self).els@.len(),
            final(self).id == old(self).id,
            final(self).marked == old(self).marked,
    {
        shuffle_objects(&mut self.els);
        proof {
            vstd::seq_lib::to_multiset_len(self.els@);
            vstd::seq_lib::to_multiset_len(old(self).els@);
        }
    }
}

} // verus!
