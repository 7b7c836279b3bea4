use vstd::prelude::*;
use crate::object::{Object, copies};
use crate::objsys::{ObjSys, RefKey, lemma_first_index, instance_ids};
use crate::heapobjs::InternalList;
use crate::assoc::keys_unique;
use crate::evaluator::{Host, show_value, shown_text};

verus! {

broadcast use vstd::std_specs::vec::group_vec_axioms;

/// Why a list operation refuses its arguments. Argument 0 is the list
/// itself, which the library code passes unseen by the user.
pub enum ApiError {
    /// Wrong number of arguments; the message says how many are expected.
    ArgCount(String),
    /// Argument `i` is of the wrong sort.
    BadArgument(usize),
    /// Argument `i` is a negative index.
    NegativeIndex(usize, i64),
    /// Argument `i` is an index past the end: the index and the list's length.
    OutOfBounds(usize, i64, usize),
    /// The end of a range comes before its start.
    RangeOrder,
    /// The argument of `addAll` is an instance of this class, which holds no
    /// list.
    NotAList(String),
    /// The list is empty.
    NoElement,
    /// The hidden list argument, or the storage behind a list, is missing.
    Internal,
}

/// The elements of the list with key `k`.
pub open spec fn els_of(o: ObjSys, k: Seq<char>) -> Seq<Object> {
    o.lists()[o.list_index(k)].els@
}

/// `b` is `a` with the elements of list `k` replaced by `new_els`.
pub open spec fn list_set(a: ObjSys, b: ObjSys, k: Seq<char>, new_els: Seq<Object>) -> bool {
    let i = a.list_index(k);
    &&& b.wf()
    &&& b.lists() == a.lists().update(i, InternalList { els: b.lists()[i].els, ..a.lists()[i] })
    &&& b.lists()[i].els@ == new_els
    &&& b.classes() == a.classes()
    &&& b.instances() == a.instances()
    &&& b.files() == a.files()
    &&& b.this_key() == a.this_key()
}

/// `b` is `a` with copies of the elements of list `src` appended to list `k`.
pub open spec fn appended_copies(a: ObjSys, b: ObjSys, k: Seq<char>, src: Seq<char>) -> bool {
    let n = els_of(a, k).len();
    let add = els_of(a, src);
    let i = a.list_index(k);
    &&& b.wf()
    &&& b.lists() == a.lists().update(i, InternalList { els: b.lists()[i].els, ..a.lists()[i] })
    &&& els_of(b, k).len() == n + add.len()
    &&& els_of(b, k).subrange(0, n as int) == els_of(a, k)
    &&& forall|j: int| 0 <= j < add.len() ==> copies(#[trigger] els_of(b, k)[n + j], add[j])
    &&& b.classes() == a.classes()
    &&& b.instances() == a.instances()
    &&& b.files() == a.files()
    &&& b.this_key() == a.this_key()
}

/// The hidden first argument is a reference to a list on the heap.
pub open spec fn hidden_ok(o: ObjSys, args: Seq<Object>) -> bool {
    args.len() > 0 && args[0] is Reference && o.list_index(args[0]->Reference_0.0@) >= 0
}

/// The key of the list behind the hidden first argument.
pub open spec fn hidden_key(args: Seq<Object>) -> Seq<char> {
    args[0]->Reference_0.0@
}

/// The key of the list that argument 0 refers to.
fn hidden_list(objsys: &ObjSys, args: &Vec<Object>) -> (r: Result<RefKey, ApiError>)
    requires
        args@.len() > 0,
    ensures
        hidden_ok(*objsys, args@) ==> (r matches Ok(k) && k.0@ == hidden_key(args@)),
        !hidden_ok(*objsys, args@) ==> r is Err && r->Err_0 is Internal,
{
    match &args[0] {
        Object::Reference(rk) => {
            if objsys.has_list(rk) {
                Ok(rk.duplicate())
            } else {
                Err(ApiError::Internal)
            }
        },
        _ => Err(ApiError::Internal),
    }
}

/// `List.add(x)`: appends `x`.
pub fn add(args: Vec<Object>, objsys: &mut ObjSys) -> (r: Result<Object, ApiError>)
    requires
        old(objsys).wf(),
    ensures
        args@.len() != 2 ==> r is Err && r->Err_0 is ArgCount && *final(objsys) == *old(objsys),
        args@.len() == 2 && !hidden_ok(*old(objsys), args@) ==> r is Err && r->Err_0 is Internal && *final(objsys) == *old(objsys),
        args@.len() == 2 && hidden_ok(*old(objsys), args@) ==> r == Ok::<Object, ApiError>(Object::Null)
            && list_set(*old(objsys), *final(objsys), hidden_key(args@), els_of(*old(objsys), hidden_key(args@)).push(args@[1])),
{
    if args.len() != 2 {
        return Err(ApiError::ArgCount(String::from_str("One argument expected by List.add()")));
    }
    let k = match hidden_list(objsys, &args) {
        Ok(k) => k,
        Err(e) => { return Err(e); },
    };
    let mut args = args;
    let el = args.pop().unwrap();
    objsys.list_add(&k, el);
    Ok(Object::Null)
}

/// `List.addAll(other)`: appends the elements of list `other`, an instance
/// whose `__list` field refers to its storage.
pub fn add_all(args: Vec<Object>, objsys: &mut ObjSys) -> (r: Result<Object, ApiError>)
    requires
        old(objsys).wf(),
    ensures
        args@.len() != 2 ==> r is Err && r->Err_0 is ArgCount,
        args@.len() == 2 && !hidden_ok(*old(objsys), args@) ==> r is Err && r->Err_0 is Internal,
        args@.len() == 2 && hidden_ok(*old(objsys), args@) && !(args@[1] is Reference) ==> r matches Err(ApiError::BadArgument(1)),
        r is Err ==> *final(objsys) == *old(objsys),
        r is Ok ==> r == Ok::<Object, ApiError>(Object::Null) && args@.len() == 2 && hidden_ok(*old(objsys), args@)
            && exists|src: Seq<char>| #[trigger] old(objsys).list_index(src) >= 0 && appended_copies(*old(objsys), *final(objsys), hidden_key(args@), src),
{
    if args.len() != 2 {
        return Err(ApiError::ArgCount(String::from_str("One argument expected by List.addAll()")));
    }
    let k = match hidden_list(objsys, &args) {
        Ok(k) => k,
        Err(e) => { return Err(e); },
    };
    let rk2 = match &args[1] {
        Object::Reference(rk2) => rk2,
        _ => { return Err(ApiError::BadArgument(1)); },
    };
    if !objsys.has_instance(rk2) {
        return Err(ApiError::Internal);
    }
    let inst = objsys.get_instance(rk2);
    proof {
        lemma_first_index(instance_ids(objsys.instances()), rk2.0@);
        assert(keys_unique(objsys.instances()[objsys.inst_index(rk2.0@)].fields@));
    }
    if !inst.has_field("__list") {
        return Err(ApiError::NotAList(inst.classname.clone()));
    }
    let src = match inst.get_field("__list") {
        Object::Reference(s) => s.duplicate(),
        _ => { return Err(ApiError::Internal); },
    };
    if !objsys.has_list(&src) {
        return Err(ApiError::Internal);
    }
    let new_els = copy_elements(&objsys.get_list(&src).els);
    let ghost o0 = *objsys;
    objsys.list_add_all(&k, new_els);
    proof {
        let i = o0.list_index(k.0@);
        lemma_first_index(crate::objsys::list_ids(o0.lists()), k.0@);
        assert(objsys.list_index(k.0@) == i) by {
            assert forall|j: int| 0 <= j < o0.lists().len() implies #[trigger] objsys.lists()[j].id == o0.lists()[j].id by {}
            assert(crate::objsys::list_ids(objsys.lists()) =~= crate::objsys::list_ids(o0.lists()));
        }
        assert(els_of(*objsys, k.0@).subrange(0, els_of(o0, k.0@).len() as int) =~= els_of(o0, k.0@));
        assert(appended_copies(o0, *objsys, k.0@, src.0@));
    }
    Ok(Object::Null)
}

/// A copy of the elements `v`.
fn copy_elements(v: &Vec<Object>) -> (r: Vec<Object>)
    ensures
        r@.len() == v@.len(),
        forall|i: int| 0 <= i < v@.len() ==> copies(#[trigger] r@[i], v@[i]),
{
    let mut r: Vec<Object> = Vec::new();
    let mut i: usize = 0;
    while i < v.len()
        invariant
            i <= v@.len(),
            r@.len() == i,
            forall|j: int| 0 <= j < i ==> copies(#[trigger] r@[j], v@[j]),
        decreases v@.len() - i,
    {
        r.push(v[i].duplicate());
        i = i + 1;
    }
    r
}

/// The elements `s` with the range from `a` to `b` taken out.
pub open spec fn without_range(s: Seq<Object>, a: int, b: int) -> Seq<Object> {
    s.subrange(0, a) + s.subrange(b, s.len() as int)
}

/// `List.clear()`: removes every element.
pub fn clear(args: Vec<Object>, objsys: &mut ObjSys) -> (r: Result<Object, ApiError>)
    requires
        old(objsys).wf(),
    ensures
        args@.len() != 1 ==> r is Err && r->Err_0 is ArgCount && *final(objsys) == *old(objsys),
        args@.len() == 1 && !hidden_ok(*old(objsys), args@) ==> r is Err && r->Err_0 is Internal && *final(objsys) == *old(objsys),
        args@.len() == 1 && hidden_ok(*old(objsys), args@) ==> r == Ok::<Object, ApiError>(Object::Null)
            && list_set(*old(objsys), *final(objsys), hidden_key(args@), Seq::<Object>::empty()),
{
    if args.len() != 1 {
        return Err(ApiError::ArgCount(String::from_str("Zero arguments expected by List.clear()")));
    }
    let k = match hidden_list(objsys, &args) {
        Ok(k) => k,
        Err(e) => { return Err(e); },
    };
    objsys.list_set_elements(&k, Vec::new());
    Ok(Object::Null)
}

/// The length of the list with key `k`, which is on the heap.
fn list_len(objsys: &ObjSys, k: &RefKey) -> (r: usize)
    requires
        objsys.list_index(k.0@) >= 0,
    ensures
        r == els_of(*objsys, k.0@).len(),
{
    objsys.get_list(k).els.len()
}

/// `List.insert(index, x)`: puts `x` at `index`, from 0 up to the length.
pub fn insert(args: Vec<Object>, objsys: &mut ObjSys) -> (r: Result<Object, ApiError>)
    requires
        old(objsys).wf(),
    ensures
        args@.len() != 3 ==> r is Err && r->Err_0 is ArgCount,
        args@.len() == 3 && !hidden_ok(*old(objsys), args@) ==> r is Err && r->Err_0 is Internal,
        args@.len() == 3 && hidden_ok(*old(objsys), args@) ==> match args@[1] {
            Object::Int(n) => {
                let len = els_of(*old(objsys), hidden_key(args@)).len();
                if n < 0 {
                    r matches Err(ApiError::NegativeIndex(1, m)) && m == n
                } else if n > len {
                    r matches Err(ApiError::OutOfBounds(1, m, l)) && m == n && l == len
                } else {
                    r == Ok::<Object, ApiError>(Object::Null) && list_set(*old(objsys), *final(objsys), hidden_key(args@),
                        els_of(*old(objsys), hidden_key(args@)).insert(n as int, args@[2]))
                }
            },
            _ => r matches Err(ApiError::BadArgument(1)),
        },
        r is Err ==> *final(objsys) == *old(objsys),
{
    if args.len() != 3 {
        return Err(ApiError::ArgCount(String::from_str("Two arguments expected by List.insert()")));
    }
    let k = match hidden_list(objsys, &args) {
        Ok(k) => k,
        Err(e) => { return Err(e); },
    };
    let n = match &args[1] {
        Object::Int(n) => *n,
        _ => { return Err(ApiError::BadArgument(1)); },
    };
    let len = list_len(objsys, &k);
    if n < 0 {
        return Err(ApiError::NegativeIndex(1, n));
    }
    if n as u64 > len as u64 {
        return Err(ApiError::OutOfBounds(1, n, len));
    }
    let mut args = args;
    let el = args.pop().unwrap();
    objsys.list_insert(&k, n as usize, el);
    Ok(Object::Null)
}

/// `List.removeAt(index)`: removes and gives the element at `index`.
pub fn remove_at(args: Vec<Object>, objsys: &mut ObjSys) -> (r: Result<Object, ApiError>)
    requires
        old(objsys).wf(),
    ensures
        args@.len() != 2 ==> r is Err && r->Err_0 is ArgCount,
        args@.len() == 2 && !hidden_ok(*old(objsys), args@) ==> r is Err && r->Err_0 is Internal,
        args@.len() == 2 && hidden_ok(*old(objsys), args@) ==> match args@[1] {
            Object::Int(n) => {
                let len = els_of(*old(objsys), hidden_key(args@)).len();
                if n < 0 {
                    r matches Err(ApiError::NegativeIndex(1, m)) && m == n
                } else if n >= len {
                    r matches Err(ApiError::OutOfBounds(1, m, l)) && m == n && l == len
                } else {
                    r == Ok::<Object, ApiError>(els_of(*old(objsys), hidden_key(args@))[n as int])
                        && list_set(*old(objsys), *final(objsys), hidden_key(args@), els_of(*old(objsys), hidden_key(args@)).remove(n as int))
                }
            },
            _ => r matches Err(ApiError::BadArgument(1)),
        },
        r is Err ==> *final(objsys) == *old(objsys),
{
    if args.len() != 2 {
        return Err(ApiError::ArgCount(String::from_str("One argument expected by List.removeAt()")));
    }
    let k = match hidden_list(objsys, &args) {
        Ok(k) => k,
        Err(e) => { return Err(e); },
    };
    let n = match &args[1] {
        Object::Int(n) => *n,
        _ => { return Err(ApiError::BadArgument(1)); },
    };
    let len = list_len(objsys, &k);
    if n < 0 {
        return Err(ApiError::NegativeIndex(1, n));
    }
    if n as u64 >= len as u64 {
        return Err(ApiError::OutOfBounds(1, n, len));
    }
    Ok(objsys.list_remove_at(&k, n as usize))
}

/// `List.removeLast()`: removes and gives the last element; on an empty
/// list, gives null and changes nothing.
pub fn remove_last(args: Vec<Object>, objsys: &mut ObjSys) -> (r: Result<Object, ApiError>)
    requires
        old(objsys).wf(),
    ensures
        args@.len() != 1 ==> r is Err && r->Err_0 is ArgCount && *final(objsys) == *old(objsys),
        args@.len() == 1 && !hidden_ok(*old(objsys), args@) ==> r is Err && r->Err_0 is Internal && *final(objsys) == *old(objsys),
        args@.len() == 1 && hidden_ok(*old(objsys), args@) ==> ({
            let s = els_of(*old(objsys), hidden_key(args@));
            if s.len() > 0 {
                r == Ok::<Object, ApiError>(s.last()) && list_set(*old(objsys), *final(objsys), hidden_key(args@), s.drop_last())
            } else {
                r == Ok::<Object, ApiError>(Object::Null) && list_set(*old(objsys), *final(objsys), hidden_key(args@), s)
            }
        }),
{
    if args.len() != 1 {
        return Err(ApiError::ArgCount(String::from_str("Zero arguments expected by List.removeLast()")));
    }
    let k = match hidden_list(objsys, &args) {
        Ok(k) => k,
        Err(e) => { return Err(e); },
    };
    Ok(objsys.list_remove_last(&k))
}

/// `List.removeRange(start, end)`: removes the elements from `start` up to
/// but not including `end`.
pub fn remove_range(args: Vec<Object>, objsys: &mut ObjSys) -> (r: Result<Object, ApiError>)
    requires
        old(objsys).wf(),
    ensures
        args@.len() != 3 ==> r is Err && r->Err_0 is ArgCount,
        args@.len() == 3 && !hidden_ok(*old(objsys), args@) ==> r is Err && r->Err_0 is Internal,
        args@.len() == 3 && hidden_ok(*old(objsys), args@) ==> match (args@[1], args@[2]) {
            (Object::Int(a), Object::Int(b)) => {
                let len = els_of(*old(objsys), hidden_key(args@)).len();
                if a < 0 {
                    r matches Err(ApiError::NegativeIndex(1, m)) && m == a
                } else if b < 0 {
                    r matches Err(ApiError::NegativeIndex(2, m)) && m == b
                } else if b < a {
                    r matches Err(ApiError::RangeOrder)
                } else if b > len {
                    r matches Err(ApiError::OutOfBounds(2, m, l)) && m == b && l == len
                } else {
                    r == Ok::<Object, ApiError>(Object::Null) && list_set(*old(objsys), *final(objsys), hidden_key(args@),
                        without_range(els_of(*old(objsys), hidden_key(args@)), a as int, b as int))
                }
            },
            (Object::Int(a), _) => if a < 0 { r matches Err(ApiError::NegativeIndex(1, m)) && m == a } else { r matches Err(ApiError::BadArgument(2)) },
            _ => r matches Err(ApiError::BadArgument(1)),
        },
        r is Err ==> *final(objsys) == *old(objsys),
{
    if args.len() != 3 {
        return Err(ApiError::ArgCount(String::from_str("Two arguments expected by List.removeLast()")));
    }
    let k = match hidden_list(objsys, &args) {
        Ok(k) => k,
        Err(e) => { return Err(e); },
    };
    let a = match &args[1] {
        Object::Int(a) => *a,
        _ => { return Err(ApiError::BadArgument(1)); },
    };
    if a < 0 {
        return Err(ApiError::NegativeIndex(1, a));
    }
    let b = match &args[2] {
        Object::Int(b) => *b,
        _ => { return Err(ApiError::BadArgument(2)); },
    };
    if b < 0 {
        return Err(ApiError::NegativeIndex(2, b));
    }
    if b < a {
        return Err(ApiError::RangeOrder);
    }
    let len = list_len(objsys, &k);
    if b as u64 > len as u64 {
        return Err(ApiError::OutOfBounds(2, b, len));
    }
    objsys.list_remove_range(&k, a as usize, b as usize);
    Ok(Object::Null)
}

/// `List.shuffle()`: puts the elements in a random order.
pub fn shuffle(args: Vec<Object>, objsys: &mut ObjSys) -> (r: Result<Object, ApiError>)
    requires
        old(objsys).wf(),
    ensures
        final(objsys).wf(),
        args@.len() != 1 ==> r is Err && r->Err_0 is ArgCount && *final(objsys) == *old(objsys),
        args@.len() == 1 && !hidden_ok(*old(objsys), args@) ==> r is Err && r->Err_0 is Internal && *final(objsys) == *old(objsys),
        args@.len() == 1 && hidden_ok(*old(objsys), args@) ==> r == Ok::<Object, ApiError>(Object::Null) && ({
            let i = old(objsys).list_index(hidden_key(args@));
            &&& final(objsys).lists() == old(objsys).lists().update(i, InternalList { els: final(objsys).lists()[i].els, ..old(objsys).lists()[i] })
            &&& final(objsys).lists()[i].els@.to_multiset() == old(objsys).lists()[i].els@.to_multiset()
            &&& final(objsys).classes() == old(objsys).classes()
            &&& final(objsys).instances() == old(objsys).instances()
            &&& final(objsys).files() == old(objsys).files()
        }),
{
    if args.len() != 1 {
        return Err(ApiError::ArgCount(String::from_str("Zero arguments expected by List.shuffle()")));
    }
    let k = match hidden_list(objsys, &args) {
        Ok(k) => k,
        Err(e) => { return Err(e); },
    };
    objsys.list_shuffle(&k);
    Ok(Object::Null)
}

/// The first element of the list.
pub fn get_first(args: Vec<Object>, objsys: &ObjSys) -> (r: Result<Object, ApiError>)
    ensures
        args@.len() != 1 ==> r is Err && r->Err_0 is ArgCount,
        args@.len() == 1 && !hidden_ok(*objsys, args@) ==> r is Err && r->Err_0 is Internal,
        args@.len() == 1 && hidden_ok(*objsys, args@) ==> ({
            let s = els_of(*objsys, hidden_key(args@));
            if s.len() > 0 { r matches Ok(v) && copies(v, s[0]) } else { r matches Err(ApiError::NoElement) }
        }),
{
    if args.len() != 1 {
        return Err(ApiError::ArgCount(String::from_str("Zero arguments expected by List.first")));
    }
    let k = match hidden_list(objsys, &args) {
        Ok(k) => k,
        Err(e) => { return Err(e); },
    };
    let l = objsys.get_list(&k);
    if l.els.len() == 0 {
        return Err(ApiError::NoElement);
    }
    Ok(l.els[0].duplicate())
}

/// The last element of the list.
pub fn get_last(args: Vec<Object>, objsys: &ObjSys) -> (r: Result<Object, ApiError>)
    ensures
        args@.len() != 1 ==> r is Err && r->Err_0 is ArgCount,
        args@.len() == 1 && !hidden_ok(*objsys, args@) ==> r is Err && r->Err_0 is Internal,
        args@.len() == 1 && hidden_ok(*objsys, args@) ==> ({
            let s = els_of(*objsys, hidden_key(args@));
            if s.len() > 0 { r matches Ok(v) && copies(v, s.last()) } else { r matches Err(ApiError::NoElement) }
        }),
{
    if args.len() != 1 {
        return Err(ApiError::ArgCount(String::from_str("Zero arguments expected by List.last")));
    }
    let k = match hidden_list(objsys, &args) {
        Ok(k) => k,
        Err(e) => { return Err(e); },
    };
    let l = objsys.get_list(&k);
    if l.els.len() == 0 {
        return Err(ApiError::NoElement);
    }
    Ok(l.els[l.els.len() - 1].duplicate())
}

/// The number of elements of the list.
pub fn get_length(args: Vec<Object>, objsys: &ObjSys) -> (r: Result<Object, ApiError>)
    ensures
        args@.len() != 1 ==> r is Err && r->Err_0 is ArgCount,
        args@.len() == 1 && !hidden_ok(*objsys, args@) ==> r is Err && r->Err_0 is Internal,
        args@.len() == 1 && hidden_ok(*objsys, args@) ==> ({
            let n = els_of(*objsys, hidden_key(args@)).len();
            if n <= i64::MAX { r == Ok::<Object, ApiError>(Object::Int(n as i64)) } else { r matches Err(ApiError::Internal) }
        }),
{
    if args.len() != 1 {
        return Err(ApiError::ArgCount(String::from_str("Zero arguments expected by List.length")));
    }
    let k = match hidden_list(objsys, &args) {
        Ok(k) => k,
        Err(e) => { return Err(e); },
    };
    let n = list_len(objsys, &k);
    if n as u64 > i64::MAX as u64 {
        return Err(ApiError::Internal);
    }
    Ok(Object::Int(n as i64))
}

/// The texts `ts` separated by `, `.
pub open spec fn joined(ts: Seq<Seq<char>>) -> Seq<char>
    decreases ts.len(),
{
    if ts.len() == 0 {
        seq![]
    } else if ts.len() == 1 {
        ts[0]
    } else {
        joined(ts.drop_last()) + ", "@ + ts.last()
    }
}

/// The library writes every one of the values `els` itself (none is a
/// double).
pub open spec fn all_shown(els: Seq<Object>) -> bool {
    forall|i: int| 0 <= i < els.len() ==> (#[trigger] shown_text(els[i])) is Some
}

/// The written forms of the values `els`.
pub open spec fn shown_all(els: Seq<Object>) -> Seq<Seq<char>> {
    els.map_values(|o: Object| shown_text(o)->0)
}

/// `List.toString()`: the elements as the host writes them, between square
/// brackets and separated by commas.
pub fn to_string<H: Host>(args: Vec<Object>, objsys: &ObjSys, host: &mut H) -> (r: Result<Object, ApiError>)
    ensures
        args@.len() != 1 ==> r is Err && r->Err_0 is ArgCount,
        args@.len() == 1 && !hidden_ok(*objsys, args@) ==> r is Err && r->Err_0 is Internal,
        args@.len() == 1 && hidden_ok(*objsys, args@) ==> r is Ok && r->Ok_0 is String,
        args@.len() == 1 && hidden_ok(*objsys, args@) && els_of(*objsys, hidden_key(args@)).len() == 0
            ==> (r matches Ok(Object::String(s)) && s@ == "[]"@),
        args@.len() == 1 && hidden_ok(*objsys, args@) && all_shown(els_of(*objsys, hidden_key(args@)))
            ==> (r matches Ok(Object::String(s)) && s@ == "["@ + joined(shown_all(els_of(*objsys, hidden_key(args@)))) + "]"@),
{
    if args.len() != 1 {
        return Err(ApiError::ArgCount(String::from_str("Zero arguments expected by List.toString()")));
    }
    let k = match hidden_list(objsys, &args) {
        Ok(k) => k,
        Err(e) => { return Err(e); },
    };
    let els = &objsys.get_list(&k).els;
    let mut s = String::from_str("[");
    let mut i: usize = 0;
    while i < els.len()
        invariant
            i <= els@.len(),
            i == 0 ==> s@ == "["@,
            all_shown(els@) ==> s@ == "["@ + joined(shown_all(els@.take(i as int))),
        decreases els@.len() - i,
    {
        let ghost before = s@;
        if i > 0 {
            s.append(", ");
        }
        let shown = show_value(&els[i], host);
        s.append(shown.as_str());
        proof {
            if all_shown(els@) {
                assert(shown_text(els@[i as int]) is Some);
                let ts = shown_all(els@.take(i + 1));
                assert(ts.drop_last() =~= shown_all(els@.take(i as int)));
                assert(ts.last() == shown@);
                if i == 0 {
                    assert(ts.len() == 1);
                    assert(s@ =~= "["@ + joined(ts));
                } else {
                    assert(s@ =~= "["@ + joined(ts));
                }
            }
        }
        i = i + 1;
    }
    proof {
        assert(els@.take(els@.len() as int) =~= els@);
    }
    s.append("]");
    proof {
        reveal_strlit("[");
        reveal_strlit("]");
        reveal_strlit("[]");
    }
    Ok(Object::String(s))
}

} // verus!
