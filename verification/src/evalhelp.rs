use vstd::prelude::*;
use crate::node::{Node, NodeType, NodeKind, NodeV, lemma_node_parts};
use crate::object::{Object, ParamObj, copies};
use crate::objsys::{ObjSys, RefKey, lemma_first_index, instance_ids};
use crate::heapobjs::{Instance, MaybeObject};
use crate::assoc::{assoc_map, keys_unique};

verus! {

broadcast use vstd::std_specs::vec::group_vec_axioms;

/// The instance a function runs on, if it is a method.
pub enum MaybeRef {
    Absent,
    Ref(RefKey),
}

/// Why a function or constructor value cannot be made from a node.
#[derive(PartialEq, Eq, Structural, Clone, Copy, Debug)]
pub enum DefError {
    /// A parameter that is no plain name (for functions) or no name, typed
    /// name or `this.name` (for constructors).
    InvalidParameter,
    /// The node is no function or constructor definition, or lacks its
    /// parameter list or body.
    InvalidNode,
}

/// The parameters of a nested function: plain names, of type `var`.
pub open spec fn function_params_ok(ps: Seq<NodeV>) -> bool {
    forall|i: int| 0 <= i < ps.len() ==> (#[trigger] ps[i]).ty.kind == NodeKind::Name
}

/// The function value of a function definition: its name, file, body and
/// parameters, each a plain name of type `var`.
#[verifier::loop_isolation(false)]
pub fn create_function(funcnode: &Node) -> (r: Result<Object, DefError>)
    ensures
        !(funcnode.nodetype is FunDef) || funcnode.children@.len() < 2 ==> r == Err::<Object, DefError>(DefError::InvalidNode),
        funcnode.nodetype is FunDef && funcnode.children@.len() >= 2 ==> match r {
            Ok(Object::Function(name, file, body, params)) => {
                &&& funcnode.nodetype matches NodeType::FunDef(_, n, f, _, _) && name@ == n@ && file@ == f@
                &&& body.view() == funcnode.children@[1].view()
                &&& function_params_ok(funcnode.children@[0].view().children)
                &&& params@.len() == funcnode.children@[0].view().children.len()
                &&& forall|i: int| 0 <= i < params@.len() ==> {
                    &&& (#[trigger] params@[i]).typ@ == "var"@
                    &&& params@[i].name@ == funcnode.children@[0].view().children[i].ty.strs[0]
                    &&& !params@[i].fieldinit
                }
            },
            Ok(_) => false,
            Err(e) => e == DefError::InvalidParameter && !function_params_ok(funcnode.children@[0].view().children),
        },
{
    let (fname, filename) = match &funcnode.nodetype {
        NodeType::FunDef(_, n, f, _, _) => (n.clone(), f.clone()),
        _ => { return Err(DefError::InvalidNode); },
    };
    if funcnode.children.len() < 2 {
        return Err(DefError::InvalidNode);
    }
    let paramnodes = &funcnode.children[0];
    proof { lemma_node_parts(*paramnodes); }
    let mut params: Vec<ParamObj> = Vec::new();
    let mut i: usize = 0;
    while i < paramnodes.children.len()
        invariant
            i <= paramnodes.children@.len(),
            paramnodes.view().children.len() == paramnodes.children@.len(),
            forall|j: int| 0 <= j < paramnodes.children@.len() ==> #[trigger] paramnodes.view().children[j] == paramnodes.children@[j].view(),
            params@.len() == i,
            forall|j: int| 0 <= j < i ==> (#[trigger] paramnodes.view().children[j]).ty.kind == NodeKind::Name,
            forall|j: int| 0 <= j < i ==> {
                &&& (#[trigger] params@[j]).typ@ == "var"@
                &&& params@[j].name@ == paramnodes.view().children[j].ty.strs[0]
                &&& !params@[j].fieldinit
            },
        decreases paramnodes.children@.len() - i,
    {
        let p = &paramnodes.children[i];
        proof { lemma_node_parts(*p); }
        match &p.nodetype {
            NodeType::Name(s, _, _) => {
                params.push(ParamObj { typ: String::from_str("var"), name: s.clone(), fieldinit: false });
            },
            _ => {
                proof { assert(paramnodes.view().children[i as int].ty.kind != NodeKind::Name); }
                return Err(DefError::InvalidParameter);
            },
        }
        i = i + 1;
    }
    let body = funcnode.children[1].clone();
    Ok(Object::Function(fname, filename, body, params))
}

/// The parameter a constructor's parameter node stands for: a plain name
/// has no type, a typed name its type, and `this.name` initialises the
/// field of that name.
pub open spec fn ctor_param(p: NodeV, q: ParamObj) -> bool {
    if p.ty.kind == NodeKind::Name {
        q.typ@ == Seq::<char>::empty() && q.name@ == p.ty.strs[0] && !q.fieldinit
    } else if p.ty.kind == NodeKind::TypedVar {
        q.typ@ == p.ty.strs[0] && q.name@ == p.ty.strs[1] && !q.fieldinit
    } else if p.ty.kind == NodeKind::ThisFieldInit {
        q.typ@ == Seq::<char>::empty() && q.name@ == p.ty.strs[0] && q.fieldinit
    } else {
        false
    }
}

/// The kinds of node a constructor's parameter list holds.
pub open spec fn ctor_param_kind(k: NodeKind) -> bool {
    k == NodeKind::Name || k == NodeKind::TypedVar || k == NodeKind::ThisFieldInit
}

/// The constructor value of a constructor definition: its class name,
/// file, parameters, initializer list and body.
#[verifier::loop_isolation(false)]
pub fn create_constructor(funcnode: &Node) -> (r: Result<Object, DefError>)
    ensures
        !(funcnode.nodetype is Constructor) ==> r == Err::<Object, DefError>(DefError::InvalidNode),
        funcnode.nodetype matches NodeType::Constructor(cname, plist, ilist, body, file, _, _) ==> match r {
            Ok(Object::Constructor(c, f, params, i, b)) => {
                &&& c@ == cname@ && f@ == file@
                &&& i.view() == ilist.view() && b.view() == body.view()
                &&& params@.len() == plist.view().children.len()
                &&& forall|j: int| 0 <= j < params@.len() ==> ctor_param(plist.view().children[j], #[trigger] params@[j])
            },
            Ok(_) => false,
            Err(e) => e == DefError::InvalidParameter
                && exists|j: int| 0 <= j < plist.view().children.len() && !ctor_param_kind(#[trigger] plist.view().children[j].ty.kind),
        },
{
    match &funcnode.nodetype {
        NodeType::Constructor(cname, plist, ilist, body, file, _, _) => {
            let paramnodes: &Node = &**plist;
            proof { lemma_node_parts(*paramnodes); }
            let mut params: Vec<ParamObj> = Vec::new();
            let mut i: usize = 0;
            while i < paramnodes.children.len()
                invariant
                    i <= paramnodes.children@.len(),
                    paramnodes.view().children.len() == paramnodes.children@.len(),
                    forall|j: int| 0 <= j < paramnodes.children@.len() ==> #[trigger] paramnodes.view().children[j] == paramnodes.children@[j].view(),
                    params@.len() == i,
                    forall|j: int| 0 <= j < i ==> ctor_param(paramnodes.view().children[j], #[trigger] params@[j]),
                decreases paramnodes.children@.len() - i,
            {
                let p = &paramnodes.children[i];
                proof { lemma_node_parts(*p); }
                match &p.nodetype {
                    NodeType::Name(s, _, _) => {
                        params.push(ParamObj { typ: String::new(), name: s.clone(), fieldinit: false });
                    },
                    NodeType::TypedVar(t, s, _, _) => {
                        params.push(ParamObj { typ: t.clone(), name: s.clone(), fieldinit: false });
                    },
                    NodeType::ThisFieldInit(s, _, _) => {
                        params.push(ParamObj { typ: String::new(), name: s.clone(), fieldinit: true });
                    },
                    _ => {
                        proof { assert(!ctor_param_kind(paramnodes.view().children[i as int].ty.kind)); }
                        return Err(DefError::InvalidParameter);
                    },
                }
                i = i + 1;
            }
            let il: &Node = &**ilist;
            let b: &Node = &**body;
            Ok(Object::Constructor(cname.clone(), file.clone(), params, il.clone(), b.clone()))
        },
        _ => Err(DefError::InvalidNode),
    }
}

/// Why a field cannot be read or written.
pub enum FieldError {
    /// The value is no reference.
    NotReference,
    /// The reference leads to no instance on the heap.
    NoInstance,
    /// The instance's class is not registered.
    NoClass,
    /// Neither the instance nor its parent parts have the field; the class
    /// name is the instance's.
    NoField(String),
    /// The parent parts lead back to an instance already passed.
    ParentCycle,
}

/// Where writing field `field` of `obj` lands: the key of the first
/// instance along `obj`'s chain of parent parts that has the field, looking
/// at most `steps` parents up.
pub open spec fn field_owner(o: ObjSys, obj: Object, field: Seq<char>, steps: nat) -> Result<Seq<char>, FieldError>
    decreases steps,
{
    match obj {
        Object::Reference(rk) => {
            if o.inst_index(rk.0@) < 0 {
                Err(FieldError::NoInstance)
            } else {
                let inst = o.instances()[o.inst_index(rk.0@)];
                if inst.field_map().contains_key(field) {
                    Ok(rk.0@)
                } else {
                    match inst.parent {
                        MaybeObject::Present(p) => if steps == 0 { Err(FieldError::ParentCycle) } else { field_owner(o, p, field, (steps - 1) as nat) },
                        MaybeObject::Absent => Err(FieldError::NoField(inst.classname)),
                    }
                }
            }
        },
        _ => Err(FieldError::NotReference),
    }
}

/// Sets field `field` of instance `obj` to `val`: on the instance itself
/// when it has the field, otherwise on the nearest parent part that has it.
pub fn set_field(objsys: &mut ObjSys, obj: &Object, field: &str, val: Object) -> (r: Result<(), FieldError>)
    requires
        old(objsys).wf(),
    ensures
        final(objsys).wf(),
        final(objsys).classes() == old(objsys).classes(),
        final(objsys).lists() == old(objsys).lists(),
        final(objsys).files() == old(objsys).files(),
        final(objsys).this_key() == old(objsys).this_key(),
        final(objsys).instances().len() == old(objsys).instances().len(),
        match field_owner(*old(objsys), *obj, field@, old(objsys).instances().len()) {
            Ok(k) => r is Ok && ({
                let i = old(objsys).inst_index(k);
                &&& forall|j: int| 0 <= j < old(objsys).instances().len() && j != i
                    ==> #[trigger] final(objsys).instances()[j] == old(objsys).instances()[j]
                &&& final(objsys).instances()[i].field_map() == old(objsys).instances()[i].field_map().insert(field@, val)
                &&& final(objsys).instances()[i].id == old(objsys).instances()[i].id
                &&& final(objsys).instances()[i].classname == old(objsys).instances()[i].classname
                &&& final(objsys).instances()[i].parent == old(objsys).instances()[i].parent
                &&& final(objsys).instances()[i].marked == old(objsys).instances()[i].marked
            }),
            Err(e) => r == Err::<(), FieldError>(e) && *final(objsys) == *old(objsys),
        },
{
    let ghost o = *objsys;
    let ghost n = objsys.instances().len();
    let owner = find_owner(objsys, obj, field, objsys.instance_count());
    match owner {
        Ok(k) => {
            objsys.set_instance_field(&k, String::from_str(field), val);
            Ok(())
        },
        Err(e) => Err(e),
    }
}

/// The key that `field_owner` gives, looking at most `steps` parents up.
fn find_owner(objsys: &ObjSys, obj: &Object, field: &str, steps: usize) -> (r: Result<RefKey, FieldError>)
    ensures
        match field_owner(*objsys, *obj, field@, steps as nat) {
            Ok(k) => r matches Ok(x) && x.0@ == k && objsys.inst_index(k) >= 0,
            Err(e) => r == Err::<RefKey, FieldError>(e),
        },
    decreases steps,
{
    match obj {
        Object::Reference(rk) => {
            if !objsys.has_instance(rk) {
                return Err(FieldError::NoInstance);
            }
            let inst = objsys.get_instance(rk);
            if inst.has_field(field) {
                return Ok(rk.duplicate());
            }
            match &inst.parent {
                MaybeObject::Present(p) => {
                    if steps == 0 {
                        Err(FieldError::ParentCycle)
                    } else {
                        find_owner(objsys, p, field, steps - 1)
                    }
                },
                MaybeObject::Absent => Err(FieldError::NoField(inst.classname.clone())),
            }
        },
        _ => Err(FieldError::NotReference),
    }
}

/// What reading a field finds: a getter of the instance's class, to be run
/// on the instance with the given key, or the field's value.
pub enum FieldFound {
    Getter(RefKey, Object),
    Value(Object),
}

/// Where reading field `field` of `obj` looks: the key of the first
/// instance along the chain of parent parts whose class has a getter of
/// that name (then `true`) or which holds the field (then `false`), looking
/// at most `steps` parents up.
pub open spec fn field_source(o: ObjSys, obj: Object, field: Seq<char>, steps: nat) -> Result<(Seq<char>, bool), FieldError>
    decreases steps,
{
    match obj {
        Object::Reference(rk) => {
            if o.inst_index(rk.0@) < 0 {
                Err(FieldError::NoInstance)
            } else {
                let inst = o.instances()[o.inst_index(rk.0@)];
                if !o.classes().contains_key(inst.classname@) {
                    Err(FieldError::NoClass)
                } else if assoc_map(o.classes()[inst.classname@].getters@).contains_key(field) {
                    Ok((rk.0@, true))
                } else if inst.field_map().contains_key(field) {
                    Ok((rk.0@, false))
                } else {
                    match inst.parent {
                        MaybeObject::Present(p) => if steps == 0 { Err(FieldError::ParentCycle) } else { field_source(o, p, field, (steps - 1) as nat) },
                        MaybeObject::Absent => Err(FieldError::NoField(inst.classname)),
                    }
                }
            }
        },
        _ => Err(FieldError::NotReference),
    }
}

/// Reads field `field` of instance `obj`: a getter of its class comes
/// first, then its own field, then its parent part, as `field_source` says.
pub fn lookup_field(objsys: &ObjSys, obj: &Object, field: &str) -> (r: Result<FieldFound, FieldError>)
    requires
        objsys.wf(),
    ensures
        match field_source(*objsys, *obj, field@, objsys.instances().len()) {
            Ok((k, true)) => r matches Ok(FieldFound::Getter(rk, g)) && rk.0@ == k && ({
                let inst = objsys.instances()[objsys.inst_index(k)];
                copies(g, assoc_map(objsys.classes()[inst.classname@].getters@)[field@])
            }),
            Ok((k, false)) => r matches Ok(FieldFound::Value(v))
                && copies(v, objsys.instances()[objsys.inst_index(k)].field_map()[field@]),
            Err(e) => r == Err::<FieldFound, FieldError>(e),
        },
{
    lookup_from(objsys, obj, field, objsys.instance_count())
}

fn lookup_from(objsys: &ObjSys, obj: &Object, field: &str, steps: usize) -> (r: Result<FieldFound, FieldError>)
    requires
        objsys.wf(),
    ensures
        match field_source(*objsys, *obj, field@, steps as nat) {
            Ok((k, true)) => r matches Ok(FieldFound::Getter(rk, g)) && rk.0@ == k && ({
                let inst = objsys.instances()[objsys.inst_index(k)];
                copies(g, assoc_map(objsys.classes()[inst.classname@].getters@)[field@])
            }),
            Ok((k, false)) => r matches Ok(FieldFound::Value(v))
                && copies(v, objsys.instances()[objsys.inst_index(k)].field_map()[field@]),
            Err(e) => r == Err::<FieldFound, FieldError>(e),
        },
    decreases steps,
{
    match obj {
        Object::Reference(rk) => {
            if !objsys.has_instance(rk) {
                return Err(FieldError::NoInstance);
            }
            let inst = objsys.get_instance(rk);
            if !objsys.has_class(inst.classname.as_str()) {
                return Err(FieldError::NoClass);
            }
            let c = objsys.get_class(inst.classname.as_str());
            match c.get_getter(field) {
                Some(g) => { return Ok(FieldFound::Getter(rk.duplicate(), g.duplicate())); },
                None => {},
            }
            proof {
                lemma_first_index(instance_ids(objsys.instances()), rk.0@);
                assert(keys_unique(objsys.instances()[objsys.inst_index(rk.0@)].fields@));
            }
            if inst.has_field(field) {
                return Ok(FieldFound::Value(inst.get_field(field).duplicate()));
            }
            match &inst.parent {
                MaybeObject::Present(p) => {
                    if steps == 0 {
                        Err(FieldError::ParentCycle)
                    } else {
                        lookup_from(objsys, p, field, steps - 1)
                    }
                },
                MaybeObject::Absent => Err(FieldError::NoField(inst.classname.clone())),
            }
        },
        _ => Err(FieldError::NotReference),
    }
}

} // verus!
