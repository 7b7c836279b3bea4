use vstd::prelude::*;
use crate::node::Node;
use crate::objsys::RefKey;

verus! {

/// A parameter of a function or constructor: its type, its name, and whether
/// it initialises the field of the same name (`this.name`).
pub struct ParamObj {
    pub typ: String,
    pub name: String,
    pub fieldinit: bool,
}

/// The values of the language. They are passed by value; heap objects are
/// reached through a `Reference`. A double is held as the bit pattern of its
/// IEEE-754 value.
pub enum Object {
    Int(i64),
    Double(u64),
    Bool(bool),
    String(String),
    /// name, file, body, parameters
    Function(String, String, Node, Vec<ParamObj>),
    /// class name, file, parameters, initializer list, body
    Constructor(String, String, Vec<ParamObj>, Node, Node),
    Reference(RefKey),
    Null,
    Return(Box<Object>),
}

impl Object {
    /// The key of the heap object this value refers to, if it is a reference.
    pub open spec fn ref_key(self) -> Option<Seq<char>> {
        match self {
            Object::Reference(rk) => Some(rk.0@),
            _ => None,
        }
    }
}


impl ParamObj {
    /// A copy of the parameter.
    pub fn duplicate(&self) -> (r: ParamObj)
        ensures
            r == *self,
    {
        ParamObj { typ: self.typ.clone(), name: self.name.clone(), fieldinit: self.fieldinit }
    }
}

/// A copy of the parameters `v`.
pub fn duplicate_params(v: &Vec<ParamObj>) -> (r: Vec<ParamObj>)
    ensures
        r@ == v@,
{
    let mut r: Vec<ParamObj> = Vec::new();
    let mut i: usize = 0;
    while i < v.len()
        invariant
            i <= v@.len(),
            r@ == v@.subrange(0, i as int),
        decreases v@.len() - i,
    {
        r.push(v[i].duplicate());
        i = i + 1;
        assert(r@ =~= v@.subrange(0, i as int));
    }
    assert(v@.subrange(0, v@.len() as int) =~= v@);
    r
}

/// `r` is a copy of `s`: the same value, with nodes of equal values.
pub open spec fn copies(r: Object, s: Object) -> bool {
    match (r, s) {
        (Object::Function(a, b, c, d), Object::Function(a2, b2, c2, d2)) => a == a2 && b == b2 && c.view() == c2.view() && d@ == d2@,
        (Object::Constructor(a, b, c, d, e), Object::Constructor(a2, b2, c2, d2, e2)) =>
            a == a2 && b == b2 && c@ == c2@ && d.view() == d2.view() && e.view() == e2.view(),
        (Object::Return(x), Object::Return(y)) => true,
        (Object::Function(..), _) | (Object::Constructor(..), _) | (Object::Return(..), _) => false,
        _ => r == s,
    }
}

impl Object {
    /// A copy of the value; nodes are copied with equal values.
    pub fn duplicate(&self) -> (r: Object)
        ensures
            copies(r, *self),
        decreases self,
    {
        match self {
            Object::Int(i) => Object::Int(*i),
            Object::Double(d) => Object::Double(*d),
            Object::Bool(b) => Object::Bool(*b),
            Object::String(s) => Object::String(s.clone()),
            Object::Function(a, b, c, d) => Object::Function(a.clone(), b.clone(), c.duplicate(), duplicate_params(d)),
            Object::Constructor(a, b, c, d, e) => Object::Constructor(a.clone(), b.clone(), duplicate_params(c), d.duplicate(), e.duplicate()),
            Object::Reference(k) => Object::Reference(k.duplicate()),
            Object::Null => Object::Null,
            Object::Return(x) => Object::Return(Box::new((**x).duplicate())),
        }
    }
}

} // verus!
