use redart::values::{add_values, sub_values, mul_values, div_values, negate_value, compare_values, equal_values,
    bit_values, logic_values, not_value, step_value, Outcome, Side};
use redart::object::{Object, ParamObj};
use redart::node::{Node, NodeKind, NodeType};
use redart::evalhelp::{create_function, create_constructor, set_field, lookup_field, FieldFound, FieldError, DefError};
use redart::objsys::{ObjSys, RefKey, Class};
use redart::heapobjs::{Instance, InternalList, MaybeObject};
use redart::api::list;
use redart::api::math::{next_int, next_bool, RandomError};
use redart::values::accepts_left;
use redart::loader::{library_path, own_table, merge_table, global_name, LoadError};

fn int_of(o: &Outcome) -> i64 {
    match o {
        Outcome::Value(Object::Int(n)) => *n,
        _ => panic!("expected an integer value"),
    }
}

fn bool_of(o: &Outcome) -> bool {
    match o {
        Outcome::Value(Object::Bool(b)) => *b,
        _ => panic!("expected a boolean value"),
    }
}

fn s(x: &str) -> Object {
    Object::String(String::from(x))
}

#[test]
fn arithmetic_on_integers() {
    assert_eq!(int_of(&add_values(&Object::Int(2), &Object::Int(3))), 5);
    assert_eq!(int_of(&sub_values(&Object::Int(2), &Object::Int(3))), -1);
    assert_eq!(int_of(&mul_values(&Object::Int(-4), &Object::Int(3))), -12);
    assert_eq!(int_of(&add_values(&Object::Int(i64::MAX), &Object::Int(1))), i64::MIN);
    assert_eq!(int_of(&negate_value(&Object::Int(7))), -7);
    assert_eq!(int_of(&step_value(&Object::Int(7), true)), 8);
    assert_eq!(int_of(&step_value(&Object::Int(7), false)), 6);
}

#[test]
fn doubles_are_left_to_floating_point() {
    let d = Object::Double(2.5f64.to_bits());
    assert!(matches!(add_values(&Object::Int(1), &d), Outcome::Floating));
    assert!(matches!(mul_values(&d, &d), Outcome::Floating));
    assert!(matches!(div_values(&Object::Int(1), &Object::Int(2)), Outcome::Floating));
    assert!(matches!(compare_values(NodeKind::LessThan, &d, &Object::Int(3)), Outcome::Floating));
    assert!(matches!(equal_values(&d, &d), Outcome::Floating));
    match negate_value(&d) {
        Outcome::Value(Object::Double(bits)) => assert_eq!(f64::from_bits(bits), -2.5),
        _ => panic!("expected a double"),
    }
}

#[test]
fn strings_concatenate() {
    match add_values(&s("ab"), &s("cd")) {
        Outcome::Value(Object::String(r)) => assert_eq!(r, "abcd"),
        _ => panic!("expected a string"),
    }
    assert!(matches!(add_values(&s("ab"), &Object::Int(1)), Outcome::Illegal(Side::Right)));
    assert!(matches!(add_values(&Object::Bool(true), &Object::Int(1)), Outcome::Illegal(Side::Left)));
    assert!(matches!(sub_values(&Object::Int(1), &s("x")), Outcome::Illegal(Side::Right)));
    assert!(matches!(div_values(&Object::Null, &Object::Int(1)), Outcome::Illegal(Side::Left)));
}

#[test]
fn comparisons_and_equality() {
    assert!(bool_of(&compare_values(NodeKind::LessThan, &Object::Int(1), &Object::Int(2))));
    assert!(!bool_of(&compare_values(NodeKind::GreaterThan, &Object::Int(1), &Object::Int(2))));
    assert!(bool_of(&compare_values(NodeKind::LessOrEq, &Object::Int(2), &Object::Int(2))));
    assert!(bool_of(&compare_values(NodeKind::GreaterOrEq, &Object::Int(2), &Object::Int(2))));
    assert!(matches!(compare_values(NodeKind::LessThan, &s("a"), &Object::Int(2)), Outcome::Illegal(Side::Left)));
    assert!(bool_of(&equal_values(&Object::Int(3), &Object::Int(3))));
    assert!(!bool_of(&equal_values(&Object::Int(3), &s("3"))));
    assert!(bool_of(&equal_values(&s("x"), &s("x"))));
    assert!(!bool_of(&equal_values(&Object::Bool(true), &Object::Bool(false))));
    let k = RefKey(String::from("k"));
    assert!(bool_of(&equal_values(&Object::Reference(k.duplicate()), &Object::Reference(k.duplicate()))));
    assert!(matches!(equal_values(&Object::Null, &Object::Null), Outcome::Illegal(Side::Left)));
}

#[test]
fn logic_and_bits() {
    assert_eq!(int_of(&bit_values(NodeKind::BitAnd, &Object::Int(6), &Object::Int(3))), 2);
    assert_eq!(int_of(&bit_values(NodeKind::BitOr, &Object::Int(6), &Object::Int(3))), 7);
    assert_eq!(int_of(&bit_values(NodeKind::BitXor, &Object::Int(6), &Object::Int(3))), 5);
    assert!(matches!(bit_values(NodeKind::BitAnd, &Object::Int(6), &Object::Bool(true)), Outcome::Illegal(Side::Right)));
    assert!(bool_of(&logic_values(true, &Object::Bool(false), &Object::Bool(true))));
    assert!(!bool_of(&logic_values(false, &Object::Bool(false), &Object::Bool(true))));
    assert!(matches!(logic_values(true, &Object::Int(1), &Object::Bool(true)), Outcome::Illegal(Side::Left)));
    assert!(!bool_of(&not_value(&Object::Bool(true))));
    assert!(matches!(not_value(&Object::Int(0)), Outcome::Illegal(Side::Left)));
}

fn fundef(params: Vec<Node>) -> Node {
    let mut pl = Node::new(NodeType::ParamList(1, 1));
    pl.children = params;
    let mut n = Node::new(NodeType::FunDef(String::from("int"), String::from("f"), String::from("a.dart"), 1, 1));
    n.children.push(pl);
    n.children.push(Node::new(NodeType::Block(1, 5)));
    n
}

#[test]
fn function_values() {
    let f = create_function(&fundef(vec![Node::new(NodeType::Name(String::from("x"), 1, 2))])).ok().unwrap();
    match f {
        Object::Function(name, file, body, params) => {
            assert_eq!(name, "f");
            assert_eq!(file, "a.dart");
            assert!(matches!(body.nodetype, NodeType::Block(1, 5)));
            assert_eq!(params.len(), 1);
            assert_eq!(params[0].typ, "var");
            assert_eq!(params[0].name, "x");
        }
        _ => panic!("expected a function"),
    }
    let typed = Node::new(NodeType::TypedVar(String::from("int"), String::from("x"), 1, 2));
    assert_eq!(create_function(&fundef(vec![typed])).err(), Some(DefError::InvalidParameter));
    assert_eq!(create_function(&Node::new(NodeType::Null(0, 0))).err(), Some(DefError::InvalidNode));
}

#[test]
fn constructor_values() {
    let mut pl = Node::new(NodeType::ParamList(1, 1));
    pl.children.push(Node::new(NodeType::Name(String::from("a"), 1, 1)));
    pl.children.push(Node::new(NodeType::TypedVar(String::from("int"), String::from("b"), 1, 1)));
    pl.children.push(Node::new(NodeType::ThisFieldInit(String::from("c"), 1, 1)));
    let n = Node::new(NodeType::Constructor(String::from("P"), Box::new(pl), Box::new(Node::new(NodeType::Null(0, 0))),
        Box::new(Node::new(NodeType::Block(2, 2))), String::from("p.dart"), 1, 1));
    match create_constructor(&n).ok().unwrap() {
        Object::Constructor(c, f, params, _, body) => {
            assert_eq!(c, "P");
            assert_eq!(f, "p.dart");
            assert!(matches!(body.nodetype, NodeType::Block(2, 2)));
            let ps: Vec<(String, String, bool)> = params.iter().map(|p: &ParamObj| (p.typ.clone(), p.name.clone(), p.fieldinit)).collect();
            assert_eq!(ps, vec![
                (String::new(), String::from("a"), false),
                (String::from("int"), String::from("b"), false),
                (String::new(), String::from("c"), true),
            ]);
        }
        _ => panic!("expected a constructor"),
    }
}

fn key_of(o: &Object) -> RefKey {
    match o {
        Object::Reference(k) => k.duplicate(),
        _ => panic!("expected a reference"),
    }
}

#[test]
fn fields_through_parents() {
    let mut os = ObjSys::new();
    let mut c = Class::new(String::from("Base"));
    c.add_getter(String::from("g"), Object::Int(0));
    os.register_class(c);
    os.register_class(Class::new(String::from("Sub")));
    let base = os.register_instance(Instance::new(String::from("Base"), MaybeObject::Absent));
    let bk = key_of(&base);
    os.set_instance_field(&bk, String::from("x"), Object::Int(1));
    let sub = os.register_instance(Instance::new(String::from("Sub"), MaybeObject::Present(base)));
    let sk = key_of(&sub);
    // The parent part holds `x`: writing through the child lands there.
    assert!(set_field(&mut os, &sub, "x", Object::Int(5)).is_ok());
    assert!(matches!(os.get_instance(&bk).get_field("x"), Object::Int(5)));
    assert!(!os.get_instance(&sk).has_field("x"));
    match lookup_field(&os, &sub, "x").ok().unwrap() {
        FieldFound::Value(Object::Int(5)) => {}
        _ => panic!("expected the parent's field"),
    }
    match lookup_field(&os, &sub, "g").ok().unwrap() {
        FieldFound::Getter(k, _) => assert_eq!(k.0, bk.0),
        _ => panic!("expected the parent's getter"),
    }
    match set_field(&mut os, &sub, "nope", Object::Int(1)) {
        Err(FieldError::NoField(c)) => assert_eq!(c, "Base"),
        _ => panic!("expected a missing field"),
    }
    assert!(matches!(set_field(&mut os, &Object::Int(1), "x", Object::Null), Err(FieldError::NotReference)));
    assert!(matches!(lookup_field(&os, &Object::Reference(RefKey(String::from("gone"))), "x"), Err(FieldError::NoInstance)));
}

fn els(os: &ObjSys, k: &RefKey) -> Vec<i64> {
    os.get_list(k).els.iter().map(|o| match o { Object::Int(n) => *n, _ => -1 }).collect()
}

#[test]
fn list_api() {
    let mut os = ObjSys::new();
    let l = os.register_list(InternalList::new());
    let k = key_of(&l);
    let hid = || Object::Reference(k.duplicate());
    assert!(list::add(vec![hid(), Object::Int(1)], &mut os).is_ok());
    assert!(list::add(vec![hid(), Object::Int(3)], &mut os).is_ok());
    assert!(list::insert(vec![hid(), Object::Int(1), Object::Int(2)], &mut os).is_ok());
    assert_eq!(els(&os, &k), vec![1, 2, 3]);
    assert!(matches!(list::insert(vec![hid(), Object::Int(9), Object::Int(0)], &mut os), Err(list::ApiError::OutOfBounds(1, 9, 3))));
    assert!(matches!(list::insert(vec![hid(), Object::Int(-1), Object::Int(0)], &mut os), Err(list::ApiError::NegativeIndex(1, -1))));
    assert!(matches!(list::get_length(vec![hid()], &os), Ok(Object::Int(3))));
    assert!(matches!(list::get_first(vec![hid()], &os), Ok(Object::Int(1))));
    assert!(matches!(list::get_last(vec![hid()], &os), Ok(Object::Int(3))));
    assert!(matches!(list::remove_at(vec![hid(), Object::Int(0)], &mut os), Ok(Object::Int(1))));
    assert!(matches!(list::remove_last(vec![hid()], &mut os), Ok(Object::Int(3))));
    assert_eq!(els(&os, &k), vec![2]);
    assert!(list::add(vec![hid(), Object::Int(4)], &mut os).is_ok());
    assert!(list::add(vec![hid(), Object::Int(5)], &mut os).is_ok());
    assert!(matches!(list::remove_range(vec![hid(), Object::Int(2), Object::Int(1)], &mut os), Err(list::ApiError::RangeOrder)));
    assert!(list::remove_range(vec![hid(), Object::Int(0), Object::Int(2)], &mut os).is_ok());
    assert_eq!(els(&os, &k), vec![5]);
    assert!(list::shuffle(vec![hid()], &mut os).is_ok());
    assert!(list::clear(vec![hid()], &mut os).is_ok());
    assert_eq!(els(&os, &k), Vec::<i64>::new());
    assert!(matches!(list::get_first(vec![hid()], &os), Err(list::ApiError::NoElement)));
    assert!(matches!(list::remove_last(vec![hid()], &mut os), Ok(Object::Null)));
    assert!(matches!(list::add(vec![hid()], &mut os), Err(list::ApiError::ArgCount(_))));
    assert!(matches!(list::add(vec![Object::Int(0), Object::Int(1)], &mut os), Err(list::ApiError::Internal)));
}

#[test]
fn list_add_all_copies_the_other_list() {
    let mut os = ObjSys::new();
    let target = key_of(&os.register_list(InternalList::new()));
    let storage = key_of(&os.register_list(InternalList::new()));
    os.list_add(&storage, Object::Int(7));
    os.list_add(&storage, Object::Int(8));
    let other = key_of(&os.register_instance(Instance::new(String::from("List"), MaybeObject::Absent)));
    os.set_instance_field(&other, String::from("__list"), Object::Reference(storage.duplicate()));
    assert!(list::add_all(vec![Object::Reference(target.duplicate()), Object::Reference(other.duplicate())], &mut os).is_ok());
    assert_eq!(els(&os, &target), vec![7, 8]);
    assert_eq!(els(&os, &storage), vec![7, 8]);
    let plain = key_of(&os.register_instance(Instance::new(String::from("P"), MaybeObject::Absent)));
    match list::add_all(vec![Object::Reference(target.duplicate()), Object::Reference(plain)], &mut os) {
        Err(list::ApiError::NotAList(c)) => assert_eq!(c, "P"),
        _ => panic!("expected a refusal"),
    }
}

#[test]
fn import_paths() {
    assert_eq!(library_path("auto:list.dart", "/p", "/lib"), "/lib/auto/list.dart");
    assert_eq!(library_path("dart:math", "/p", "/lib"), "/lib/core/math.dart");
    assert_eq!(library_path("util.dart", "/p", "/lib"), "/p/util.dart");
    assert_eq!(library_path("auto", "/p", "/lib"), "/p/auto");
}

fn decl(name: &str) -> Node {
    Node::new(NodeType::TopVarLazy(String::from("int"), String::from(name), 1, 1))
}

#[test]
fn look_up_tables() {
    let g = vec![decl("a"), decl("b"), decl("c"), decl("b")];
    let t = own_table(&g, 0, 3).ok().unwrap();
    assert_eq!(t, vec![(String::from("a"), 0), (String::from("b"), 1), (String::from("c"), 2)]);
    match own_table(&g, 0, 4) {
        Err(LoadError::AlreadyDeclared(n)) => assert_eq!(n, "b"),
        _ => panic!("expected a double declaration"),
    }
    let mut mine = vec![(String::from("b"), 9)];
    assert!(merge_table(&mut mine, &g, 0, 4).is_ok());
    // The file's own `b` shadows the imported ones; `a` and `c` come in.
    assert_eq!(mine, vec![(String::from("b"), 9), (String::from("a"), 0), (String::from("c"), 2)]);
    let bad = vec![Node::new(NodeType::Null(0, 0))];
    assert!(matches!(own_table(&bad, 0, 1), Err(LoadError::NotADeclaration(0))));
    assert_eq!(global_name(&decl("z")), Some(String::from("z")));
}

#[test]
fn random_numbers() {
    for _ in 0..50 {
        match next_int(vec![Object::Int(3)]) {
            Ok(Object::Int(k)) => assert!((0..3).contains(&k)),
            _ => panic!("expected an integer"),
        }
    }
    assert!(matches!(next_int(vec![Object::Int(1)]), Ok(Object::Int(0))));
    assert!(matches!(next_int(vec![Object::Int(0)]), Err(RandomError::EmptyRange(0))));
    assert!(matches!(next_int(vec![Object::Bool(true)]), Err(RandomError::BadArgument)));
    assert!(matches!(next_int(vec![]), Err(RandomError::ArgCount(_))));
    assert!(matches!(next_bool(vec![]), Ok(Object::Bool(_))));
    assert!(matches!(next_bool(vec![Object::Null]), Err(RandomError::ArgCount(_))));
}

#[test]
fn left_operands() {
    assert!(accepts_left(NodeKind::Add, &s("a")));
    assert!(!accepts_left(NodeKind::Sub, &s("a")));
    assert!(accepts_left(NodeKind::LessThan, &Object::Double(0)));
    assert!(!accepts_left(NodeKind::BitAnd, &Object::Double(0)));
    assert!(accepts_left(NodeKind::LogOr, &Object::Bool(false)));
    assert!(accepts_left(NodeKind::Equal, &Object::Null));
}
