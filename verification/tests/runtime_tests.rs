use redart::allocator::Allocator;
use redart::stack::Stack;
use redart::object::Object;
use redart::objsys::{ObjSys, RefKey, Class};
use redart::heapobjs::{Instance, InternalList, MaybeObject};
use redart::node::{Node, NodeType};

fn key_of(o: &Object) -> RefKey {
    match o {
        Object::Reference(k) => k.duplicate(),
        _ => panic!("expected a reference"),
    }
}

fn int_of(o: &Object) -> i64 {
    match o {
        Object::Int(n) => *n,
        _ => panic!("expected an int"),
    }
}

#[test]
fn allocator_put_get_delete() {
    let mut a: Allocator<i32> = Allocator::new(4);
    assert_eq!(a.put(10), 0);
    assert_eq!(a.put(20), 1);
    assert_eq!(a.put(30), 2);
    assert_eq!(*a.get(1), 20);
    a.delete(0);
    assert_eq!(*a.get(0), 20);
    assert_eq!(*a.get(1), 30);
    // The freed index is handed out again, overwriting that slot.
    assert_eq!(a.put(40), 0);
    assert_eq!(*a.get(0), 40);
    assert_eq!(*a.get(1), 30);
    assert_eq!(a.put(50), 2);
}

#[test]
fn stack_declare_and_update() {
    let mut s = Stack::new();
    assert_eq!(s.call_level(), 0);
    s.push_call();
    assert_eq!((s.call_level(), s.lex_level()), (1, 1));
    assert!(!s.has("x"));
    s.add_new("x", Object::Int(1));
    assert!(s.has("x"));
    assert!(s.has_in_lexscope("x"));
    assert_eq!(int_of(s.get("x")), 1);
    assert!(s.update("x", Object::Int(2)));
    assert_eq!(int_of(s.get("x")), 2);
    assert!(!s.update("y", Object::Int(3)));
    assert!(!s.has("y"));
}

#[test]
fn stack_lexical_scopes() {
    let mut s = Stack::new();
    s.push_call();
    s.add_new("x", Object::Int(1));
    s.push_lex();
    assert_eq!(s.lex_level(), 2);
    assert!(s.has("x"));
    assert!(!s.has_in_lexscope("x"));
    s.add_new("x", Object::Int(5));
    assert_eq!(int_of(s.get("x")), 5);
    assert!(s.update("x", Object::Int(6)));
    s.pop_lex();
    assert_eq!(int_of(s.get("x")), 1);
}

#[test]
fn stack_calls_hide_callers() {
    let mut s = Stack::new();
    s.push_call();
    s.add_new("x", Object::Int(1));
    s.push_call();
    assert_eq!(s.call_level(), 2);
    assert!(!s.has("x"));
    s.add_new("x", Object::Int(9));
    assert_eq!(int_of(s.get("x")), 9);
    s.pop_call();
    assert_eq!(s.call_level(), 1);
    assert_eq!(int_of(s.get("x")), 1);
}

#[test]
fn internal_list_operations() {
    let mut l = InternalList::new();
    assert_eq!(l.id.0.len(), 22);
    l.add(Object::Int(1));
    l.add_all(vec![Object::Int(2), Object::Int(3), Object::Int(4)]);
    assert_eq!(l.els.len(), 4);
    l.insert(0, Object::Int(0));
    assert_eq!(int_of(l.get_el(0)), 0);
    assert_eq!(int_of(&l.remove_at(1)), 1);
    assert_eq!(int_of(&l.remove_last()), 4);
    l.set_el(0, Object::Int(7));
    let v: Vec<i64> = l.els.iter().map(int_of).collect();
    assert_eq!(v, vec![7, 2, 3]);
    l.remove_range(0, 2);
    let v: Vec<i64> = l.els.iter().map(int_of).collect();
    assert_eq!(v, vec![3]);
    l.set_elements(vec![]);
    assert!(matches!(l.remove_last(), Object::Null));
}

#[test]
fn internal_list_shuffle_keeps_elements() {
    let mut l = InternalList::new();
    l.add_all((0..20).map(Object::Int).collect());
    l.shuffle();
    let mut v: Vec<i64> = l.els.iter().map(int_of).collect();
    v.sort();
    assert_eq!(v, (0..20).collect::<Vec<i64>>());
}

#[test]
fn instance_fields() {
    let mut inst = Instance::new(String::from("P"), MaybeObject::Absent);
    assert!(!inst.has_field("x"));
    inst.set_field(String::from("x"), Object::Int(3));
    assert!(inst.has_field("x"));
    assert_eq!(int_of(inst.get_field("x")), 3);
    inst.set_field(String::from("x"), Object::Int(4));
    assert_eq!(int_of(inst.get_field("x")), 4);
    assert_eq!(inst.fields.len(), 1);
}

#[test]
fn objsys_lists_and_classes() {
    let mut os = ObjSys::new();
    let r = os.register_list(InternalList::new());
    let k = key_of(&r);
    assert!(os.has_list(&k));
    os.list_add(&k, Object::Int(5));
    assert_eq!(os.get_list(&k).els.len(), 1);
    assert!(!os.has_class("C"));
    let mut c = Class::new(String::from("C"));
    c.add_field(String::from("int"), String::from("f"), Node::new(NodeType::Null(0, 0)));
    os.register_class(c);
    assert!(os.has_class("C"));
    assert_eq!(os.get_class("C").fields.len(), 1);
    assert!(!os.has_this());
}

#[test]
fn gc_keeps_reachable_and_frees_garbage() {
    let mut os = ObjSys::new();
    let inst = key_of(&os.register_instance(Instance::new(String::from("A"), MaybeObject::Absent)));
    let kept = key_of(&os.register_list(InternalList::new()));
    let inner = key_of(&os.register_list(InternalList::new()));
    let garbage = key_of(&os.register_list(InternalList::new()));
    os.set_instance_field(&inst, String::from("xs"), Object::Reference(kept.duplicate()));
    os.list_add(&kept, Object::Reference(inner.duplicate()));
    let mut s = Stack::new();
    s.push_call();
    s.add_new("a", Object::Reference(inst.duplicate()));
    let rep = s.garbagecollect(&mut os, &Vec::new()).ok().unwrap();
    assert!(os.has_instance(&inst));
    assert!(os.has_list(&kept));
    assert!(os.has_list(&inner));
    assert!(!os.has_list(&garbage));
    assert_eq!(rep.lists.len(), 1);
    assert_eq!(rep.lists[0].0, garbage.0);
    assert!(rep.instances.is_empty());
    assert!(!os.get_list(&kept).marked);
    assert!(!os.get_instance(&inst).marked);
}

#[test]
fn gc_roots_are_instances_only() {
    // A stack variable that refers straight to a list is no root: only
    // references to instances are followed from the stack.
    let mut os = ObjSys::new();
    let lst = key_of(&os.register_list(InternalList::new()));
    let mut s = Stack::new();
    s.push_call();
    s.add_new("xs", Object::Reference(lst.duplicate()));
    s.add_new("n", Object::Int(3));
    let rep = s.garbagecollect(&mut os, &Vec::new()).ok().unwrap();
    assert!(!os.has_list(&lst));
    assert_eq!(rep.lists.len(), 1);
}

#[test]
fn gc_keeps_objects_under_construction() {
    let mut os = ObjSys::new();
    let inst = key_of(&os.register_instance(Instance::new(String::from("A"), MaybeObject::Absent)));
    let lst = key_of(&os.register_list(InternalList::new()));
    os.set_instance_field(&inst, String::from("items"), Object::Reference(lst.duplicate()));
    let mut s = Stack::new();
    s.push_call();
    let rep = s.garbagecollect(&mut os, &vec![inst.duplicate()]).ok().unwrap();
    assert!(os.has_instance(&inst));
    assert!(os.has_list(&lst));
    assert!(rep.lists.is_empty());
    // Once nothing refers to them, both go.
    let rep = s.garbagecollect(&mut os, &Vec::new()).ok().unwrap();
    assert!(!os.has_instance(&inst));
    assert!(!os.has_list(&lst));
    assert_eq!(rep.instances.len(), 1);
    assert_eq!(rep.lists.len(), 1);
}

#[test]
fn gc_reports_dangling_reference() {
    let mut os = ObjSys::new();
    let mut s = Stack::new();
    s.push_call();
    // A stack reference to no instance is left alone.
    s.add_new("x", Object::Reference(RefKey(String::from("nowhere"))));
    assert!(s.garbagecollect(&mut os, &Vec::new()).is_ok());
    // A missing object under construction is reported.
    let e = s.garbagecollect(&mut os, &vec![RefKey(String::from("missing"))]).err().unwrap();
    assert_eq!(e.0, "missing");
}

#[test]
fn gc_keeps_parent_parts() {
    let mut os = ObjSys::new();
    let parent = key_of(&os.register_instance(Instance::new(String::from("P"), MaybeObject::Absent)));
    let child = key_of(&os.register_instance(Instance::new(String::from("C"), MaybeObject::Present(Object::Reference(parent.duplicate())))));
    let mut s = Stack::new();
    s.push_call();
    s.add_new("c", Object::Reference(child.duplicate()));
    let rep = s.garbagecollect(&mut os, &Vec::new()).ok().unwrap();
    assert!(os.has_instance(&child));
    assert!(os.has_instance(&parent));
    assert!(rep.instances.is_empty());
}
