use vstd::prelude::*;

verus! {

/// The state of an allocator: its slots and its free list.
pub struct AllocModel<T> {
    pub items: Seq<T>,
    pub freelist: Seq<usize>,
}

/// Whether `put` can run on `m`: with an empty free list it appends; otherwise
/// the slot named last on the free list must exist.
pub open spec fn put_allowed<T>(m: AllocModel<T>) -> bool {
    m.freelist.len() > 0 ==> m.freelist.last() < m.items.len()
}

/// The state after `put(itm)` and the index it gives: with an empty free list
/// the item is appended and its index is the old length; otherwise the last
/// free index is taken off the list and its slot overwritten.
pub open spec fn put_model<T>(m: AllocModel<T>, itm: T) -> (AllocModel<T>, int) {
    if m.freelist.len() == 0 {
        (AllocModel { items: m.items.push(itm), freelist: m.freelist }, m.items.len() as int)
    } else {
        let idx = m.freelist.last();
        (AllocModel { items: m.items.update(idx as int, itm), freelist: m.freelist.drop_last() }, idx as int)
    }
}

/// The state after `delete(index)`: the slot is removed, the later slots move
/// down by one, and the index goes on the free list.
pub open spec fn delete_model<T>(m: AllocModel<T>, index: usize) -> AllocModel<T> {
    AllocModel { items: m.items.remove(index as int), freelist: m.freelist.push(index) }
}

/// Slots that hand out indices and keep a list of freed ones.
pub struct Allocator<T> {
    items: Vec<T>,
    freelist: Vec<usize>,
}

impl<T> Allocator<T> {
    pub closed spec fn model(&self) -> AllocModel<T> {
        AllocModel { items: self.items@, freelist: self.freelist@ }
    }

    /// An allocator with no slots and an empty free list.
    pub fn new(capacity: usize) -> (r: Allocator<T>)
        ensures
            r.model().items.len() == 0,
            r.model().freelist.len() == 0,
    {
        assert((capacity >> 1usize) == capacity / 2) by (bit_vector);
        Allocator { items: Vec::with_capacity(capacity), freelist: Vec::with_capacity((capacity >> 1) + 1) }
    }

    /// Stores `itm` and gives its index, as `put_model` says.
    pub fn put(&mut self, itm: T) -> (index: usize)
        requires
            put_allowed(old(self).model()),
        ensures
            (final(self).model(), index as int) == put_model(old(self).model(), itm),
    {
        if self.freelist.len() == 0 {
            self.items.push(itm);
            return self.items.len() - 1;
        }
        let index = self.freelist.pop().unwrap();
        self.items.set(index, itm);
        index
    }

    /// Removes the slot at `index`, as `delete_model` says.
    pub fn delete(&mut self, index: usize)
        requires
            index < old(self).model().items.len(),
        ensures
            final(self).model() == delete_model(old(self).model(), index),
    {
        self.items.remove(index);
        self.freelist.push(index);
    }

    /// The item in slot `index`.
    pub fn get(&self, index: usize) -> (r: &T)
        requires
            index < self.model().items.len(),
        ensures
            *r == self.model().items[index as int],
    {
        &self.items[index]
    }
}

/// After a `put`, the index it gives holds the item that was put.
pub proof fn law_get_after_put<T>(m: AllocModel<T>, itm: T)
    requires
        put_allowed(m),
    ensures
        0 <= put_model(m, itm).1 < put_model(m, itm).0.items.len(),
        put_model(m, itm).0.items[put_model(m, itm).1] == itm,
{
}

/// A `put` leaves every other slot as it was.
pub proof fn law_put_keeps_others<T>(m: AllocModel<T>, itm: T, j: int)
    requires
        put_allowed(m),
        0 <= j < m.items.len(),
        j != put_model(m, itm).1,
    ensures
        put_model(m, itm).0.items[j] == m.items[j],
{
}

/// The index freed by a `delete` is the one the next `put` hands out, when
/// that slot still exists.
pub proof fn law_put_reuses_deleted<T>(m: AllocModel<T>, index: usize, itm: T)
    requires
        index + 1 < m.items.len(),
    ensures
        put_allowed(delete_model(m, index)),
        put_model(delete_model(m, index), itm).1 == index,
{
}

/// The state after putting the items `xs` in turn, and the indices handed out.
pub open spec fn put_all<T>(m: AllocModel<T>, xs: Seq<T>) -> (AllocModel<T>, Seq<int>)
    decreases xs.len(),
{
    if xs.len() == 0 {
        (m, seq![])
    } else {
        let (m1, ids) = put_all(m, xs.drop_last());
        let (m2, i) = put_model(m1, xs.last());
        (m2, ids.push(i))
    }
}

/// With no freed slots, a run of puts appends the items in order and hands
/// out the indices that follow the existing slots, one after the other.
pub proof fn law_puts_append<T>(m: AllocModel<T>, xs: Seq<T>)
    requires
        m.freelist.len() == 0,
    ensures
        put_all(m, xs).0.items == m.items + xs,
        put_all(m, xs).0.freelist.len() == 0,
        put_all(m, xs).1.len() == xs.len(),
        forall|i: int| 0 <= i < xs.len() ==> #[trigger] put_all(m, xs).1[i] == m.items.len() + i,
    decreases xs.len(),
{
    if xs.len() > 0 {
        law_puts_append(m, xs.drop_last());
        assert(m.items + xs.drop_last() + seq![xs.last()] =~= m.items + xs);
        assert((m.items + xs.drop_last()).push(xs.last()) =~= m.items + xs);
    }
}

} // verus!
