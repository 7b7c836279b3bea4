use vstd::prelude::*;
use crate::object::Object;
use crate::objsys::{RefKey, fresh_key};
use crate::assoc::{assoc_map, keys_unique, assoc_insert, assoc_find, assoc_get};

verus! {

/// An optional value: the parent part of an instance, if its class extends another.
pub enum MaybeObject {
    Present(Object),
    Absent,
}

/// An object of a class on the heap: its key, its class, its parent part,
/// its fields, and its mark for the garbage collector.
pub struct Instance {
    pub id: RefKey,
    pub classname: String,
    pub parent: MaybeObject,
    pub fields: Vec<(String, Object)>,
    pub marked: bool,
}

impl Instance {
    /// The instance's fields as a map.
    pub open spec fn field_map(&self) -> Map<Seq<char>, Object> {
        assoc_map(self.fields@)
    }

    /// A new, unmarked instance of `classname` without fields, under a fresh key.
    pub fn new(classname: String, parent: MaybeObject) -> (r: Instance)
        ensures
            r.classname == classname,
            r.parent == parent,
            r.fields@.len() == 0,
            !r.marked,
            r.id.0@.len() == 22,
    {
        Instance { id: fresh_key(), classname, parent, fields: Vec::new(), marked: false }
    }

    /// Sets field `name` to `value`.
    pub fn set_field(&mut self, name: String, value: Object)
        requires
            keys_unique(old(self).fields@),
        ensures
            keys_unique(final(self).fields@),
            final(self).field_map() == old(self).field_map().insert(name@, value),
            final(self).id == old(self).id,
            final(self).classname == old(self).classname,
            final(self).parent == old(self).parent,
            final(self).marked == old(self).marked,
    {
        assoc_insert(&mut self.fields, name, value);
    }

    /// The value of field `name`, which must exist.
    pub fn get_field(&self, name: &str) -> (r: &Object)
        requires
            keys_unique(self.fields@),
            self.field_map().contains_key(name@),
        ensures
            *r == self.field_map()[name@],
    {
        assoc_get(&self.fields, name).unwrap()
    }

    pub fn has_field(&self, name: &str) -> (r: bool)
        ensures
            r == self.field_map().contains_key(name@),
    {
        assoc_find(&self.fields, name).is_some()
    }
}

} // verus!
