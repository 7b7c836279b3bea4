use redart::evaluator::{eval, call, math_args, EvalError, Host, MathFailure};
use redart::node::{Node, NodeType};
use redart::lexer::lex;
use redart::loader::own_table;
use redart::node::NodeKind;
use redart::object::Object;
use redart::parser::parse;
use redart::reader::FailKind;
use redart::state::State;

struct TestHost {
    out: Vec<String>,
}

fn num(o: &Object) -> f64 {
    match o {
        Object::Int(n) => *n as f64,
        Object::Double(x) => f64::from_bits(*x),
        _ => f64::NAN,
    }
}

impl Host for TestHost {
    fn floating(&mut self, op: NodeKind, a: &Object, b: &Object) -> Object {
        let (x, y) = (num(a), num(b));
        match op {
            NodeKind::Add => Object::Double((x + y).to_bits()),
            NodeKind::Sub => Object::Double((x - y).to_bits()),
            NodeKind::Mul => Object::Double((x * y).to_bits()),
            NodeKind::Div => Object::Double((x / y).to_bits()),
            NodeKind::LessThan => Object::Bool(x < y),
            NodeKind::GreaterThan => Object::Bool(x > y),
            NodeKind::LessOrEq => Object::Bool(x <= y),
            NodeKind::GreaterOrEq => Object::Bool(x >= y),
            _ => Object::Bool(x == y),
        }
    }
    fn double_literal(&mut self, text: &str) -> Object {
        Object::Double(text.parse::<f64>().unwrap().to_bits())
    }
    fn show(&mut self, v: &Object) -> String {
        match v {
            Object::Int(n) => format!("{}", n),
            Object::Double(x) => format!("{}", f64::from_bits(*x)),
            Object::Bool(b) => format!("{}", b),
            Object::String(s) => s.clone(),
            Object::Null => String::from("null"),
            Object::Reference(k) => format!("Reference<RefKey<{}>>", k.0),
            _ => String::from("() => ?"),
        }
    }
    fn print_line(&mut self, text: &str) {
        self.out.push(String::from(text));
    }
    fn file_exists(&mut self, _path: &str) -> bool {
        false
    }
    fn read_file(&mut self, _path: &str) -> Option<String> {
        None
    }
    fn math(&mut self, _name: &str, _args: &Vec<Object>) -> Result<Object, MathFailure> {
        Err(MathFailure::ArgCount(0))
    }
    fn gc_due(&mut self) -> bool {
        true
    }
    fn gc_done(&mut self) {}
}

fn run_with(src: &str, budget: u64) -> (Result<Object, EvalError>, Vec<String>) {
    let mut reader = lex(src);
    let mut st = State::new();
    st.filepath = String::from("t.dart");
    parse(&mut reader, &mut st).ok().unwrap();
    let table = own_table(&st.globals, 0, st.globals.len()).ok().unwrap();
    let main = table.iter().find(|(n, _)| n == "main").unwrap().1;
    st.looktables.push((String::from("t.dart"), table));
    st.stack.push_call();
    let body = st.globals[main].children[1].clone();
    let mut host = TestHost { out: Vec::new() };
    let mut fuel = budget;
    let r = eval(&body, &mut st, &mut host, &mut fuel);
    (r, host.out)
}

fn run(src: &str) -> Vec<String> {
    let (r, out) = run_with(src, 1_000_000);
    assert!(r.is_ok(), "run failed: {}", r.err().unwrap().msg);
    out
}

#[test]
fn arithmetic_and_print() {
    assert_eq!(run("int main() { int x = 2 + 3 * 4; print(x); print(x - 20); }"), vec!["14", "-6"]);
    assert_eq!(run("int main() { print(7 / 2); print(1.5 + 1); }"), vec!["3.5", "2.5"]);
    assert_eq!(run("int main() { print('a' + 'b'); print(3 == 3); print(2 < 1); }"), vec!["ab", "true", "false"]);
    assert_eq!(run("int main() { print(-(4)); print(!true); print(6 & 3); }"), vec!["-4", "false", "2"]);
}

#[test]
fn loops_and_conditionals() {
    let src = "int main() { int i = 0; int s = 0; while (i < 5) { s = s + i; i++; } print(s); }";
    assert_eq!(run(src), vec!["10"]);
    let src = "int main() { int x = 5; if (x < 3) { print('small'); } else if (x < 10) { print('medium'); } else { print('big'); } }";
    assert_eq!(run(src), vec!["medium"]);
    let src = "int main() { int n = 0; do { n++; } while (n < 3); print(n); }";
    assert_eq!(run(src), vec!["3"]);
}

#[test]
fn functions_and_recursion() {
    let src = "int fib(n) { if (n < 2) { return n; } return fib(n - 1) + fib(n - 2); }\nint main() { print(fib(10)); }";
    assert_eq!(run(src), vec!["55"]);
    let src = "int twice(a) { return a + a; }\nint main() { int a = 1; print(twice(4)); print(a); }";
    assert_eq!(run(src), vec!["8", "1"]);
}

#[test]
fn top_level_variables_are_lazy() {
    let src = "int g = 5;\nint main() { print(g + 1); g = 7; print(g); }";
    assert_eq!(run(src), vec!["6", "7"]);
}

#[test]
fn classes_fields_and_methods() {
    let src = "class Point {
  int x = 0;
  Point(int a) {
    x = a;
  }
  int sum(int k) {
    return x + k;
  }
}
int main() { var p = Point(3); print(p.sum(4)); }";
    assert_eq!(run(src), vec!["7"]);
}

#[test]
fn lexical_scope() {
    let src = "int main() { int x = 1; if (true) { int x = 2; print(x); } print(x); }";
    assert_eq!(run(src), vec!["2", "1"]);
    let (r, _) = run_with("int main() { int x = 1; int x = 2; }", 1000);
    let e = r.err().unwrap();
    assert_eq!(e.kind, FailKind::Reported);
    assert_eq!(e.msg, "'x' is already declared in this scope.");
}

#[test]
fn errors_are_reported() {
    let (r, _) = run_with("int main() { print(y); }", 1000);
    let e = r.err().unwrap();
    assert_eq!(e.kind, FailKind::Reported);
    assert_eq!(e.msg, "Undefined name: 'y'.");
    assert_eq!((e.line, e.col), (1, 20));
    let (r, _) = run_with("int main() { print(true + 1); }", 1000);
    assert_eq!(r.err().unwrap().msg, "Illegal left operand for addition: true");
    let (r, _) = run_with("int main() { nope(); }", 1000);
    assert_eq!(r.err().unwrap().msg, "Function not found: nope");
    let (r, _) = run_with("int main() { assert(1 == 2); }", 1000);
    assert_eq!(r.err().unwrap().msg, "Failed assertion");
}

#[test]
fn step_budget_bounds_a_run() {
    let (r, out) = run_with("int main() { while (true) { } }", 500);
    let e = r.err().unwrap();
    assert_eq!(e.kind, FailKind::Panicked);
    assert_eq!(e.msg, "Evaluation step budget exhausted.");
    assert!(out.is_empty());
    let (r, _) = run_with("int main() { print(1); }", 0);
    assert_eq!(r.err().unwrap().kind, FailKind::Panicked);
}

#[test]
fn list_text() {
    use_list_text();
}

fn use_list_text() {
    let mut os = redart::objsys::ObjSys::new();
    let r = os.register_list(redart::heapobjs::InternalList::new());
    let k = match &r {
        Object::Reference(k) => k.duplicate(),
        _ => panic!("expected a reference"),
    };
    let mut host = TestHost { out: Vec::new() };
    match redart::api::list::to_string(vec![Object::Reference(k.duplicate())], &os, &mut host) {
        Ok(Object::String(s)) => assert_eq!(s, "[]"),
        _ => panic!("expected a string"),
    }
    os.list_add(&k, Object::Int(1));
    os.list_add(&k, Object::String(String::from("a")));
    os.list_add(&k, Object::Bool(true));
    match redart::api::list::to_string(vec![Object::Reference(k.duplicate())], &os, &mut host) {
        Ok(Object::String(s)) => assert_eq!(s, "[1, a, true]"),
        _ => panic!("expected a string"),
    }
}

#[test]
fn interpolation_interleaves_pieces_and_values() {
    assert_eq!(run("int main() { int x = 1; int y = 2; print(\"a ${x} b ${y} c\"); }"), vec!["a 1 b 2 c"]);
    assert_eq!(run("int main() { int n = 3; print(\"n=${n}!\"); }"), vec!["n=3!"]);
}

#[test]
fn integers_are_written_by_the_library() {
    assert_eq!(run("int main() { print(-12); print(0); print(true); print(1 < 0); }"), vec!["-12", "0", "true", "false"]);
}

#[test]
fn unknown_builtin_fails() {
    let mut st = State::new();
    let mut host = TestHost { out: Vec::new() };
    let mut fnode = Node::new(NodeType::FunCall(String::from("nope"), 1, 1));
    fnode.children.push(Node::new(NodeType::ArgList(1, 5)));
    let mut fuel = 100;
    let e = call(&fnode, "nope", &mut st, &mut host, &mut fuel).err().unwrap();
    assert_eq!(e.kind, FailKind::Panicked);
    assert_eq!(e.msg, "Unknown command: nope");
}

#[test]
fn integer_max_and_min() {
    let mut st = State::new();
    let mut host = TestHost { out: Vec::new() };
    let mut args = Node::new(NodeType::ArgList(1, 5));
    args.children.push(Node::new(NodeType::Int(3, 1, 6)));
    args.children.push(Node::new(NodeType::Int(9, 1, 9)));
    let mut fnode = Node::new(NodeType::FunCall(String::from("__MATH_MAX"), 1, 1));
    fnode.children.push(args);
    let mut fuel = 100;
    assert!(matches!(call(&fnode, "__MATH_MAX", &mut st, &mut host, &mut fuel), Ok(Object::Int(9))));
    let mut fuel = 100;
    assert!(matches!(call(&fnode, "__MATH_MIN", &mut st, &mut host, &mut fuel), Ok(Object::Int(3))));
}

fn node_with(t: NodeType, kids: Vec<Node>) -> Node {
    let mut n = Node::new(t);
    for k in kids {
        n.children.push(k);
    }
    n
}

#[test]
fn eval_interpolated_literals() {
    let mut st = State::new();
    let mut host = TestHost { out: Vec::new() };
    let node = node_with(NodeType::Str(String::from("a $ b $ c"), 1, 1),
        vec![Node::new(NodeType::Int(1, 1, 5)), Node::new(NodeType::Int(2, 1, 13))]);
    let mut fuel = 100;
    match eval(&node, &mut st, &mut host, &mut fuel) {
        Ok(Object::String(s)) => assert_eq!(s, "a 1 b 2 c"),
        _ => panic!("expected a string"),
    }
}

#[test]
fn eval_unary_minus_and_post_increment() {
    let mut st = State::new();
    let mut host = TestHost { out: Vec::new() };
    let neg = node_with(NodeType::Sub(1, 1), vec![Node::new(NodeType::Int(5, 1, 2))]);
    let mut fuel = 100;
    assert!(matches!(eval(&neg, &mut st, &mut host, &mut fuel), Ok(Object::Int(-5))));
    st.stack.push_call();
    st.stack.add_new("i", Object::Int(5));
    let inc = node_with(NodeType::PostIncrement(1, 2), vec![Node::new(NodeType::Name(String::from("i"), 1, 1))]);
    let mut fuel = 100;
    assert!(matches!(eval(&inc, &mut st, &mut host, &mut fuel), Ok(Object::Int(5))));
    assert!(matches!(st.stack.get("i"), Object::Int(6)));
}

#[test]
fn chains_evaluate_left_to_right() {
    assert_eq!(run("int main() { print(10 - 4 - 3); print(100 / 10 / 5); print(2 * 3 * 4); }"), vec!["3", "2", "24"]);
    assert_eq!(run("int main() { int a = 7; int b = 2; int c = a - b - 1; print(c); print(a == 7); }"), vec!["4", "true"]);
}

#[test]
fn declaring_twice_in_one_scope_fails() {
    let (r, _) = run_with("int main() { int x = 1; int x = 2; }", 1000);
    let e = r.err().unwrap();
    assert_eq!(e.kind, FailKind::Reported);
    assert_eq!(e.msg, "'x' is already declared in this scope.");
}

#[test]
fn wrong_number_of_arguments_is_reported() {
    let (r, _) = run_with("int f(a) { return a; }\nint main() { f(1, 2); }", 1000);
    let e = r.err().unwrap();
    assert_eq!(e.msg, "In method call f, 1 arguments expected but 2 given.");
}

#[test]
fn local_functions_are_bound() {
    assert_eq!(run("int main() { int g() { return 5; } print(g()); }"), vec!["5"]);
}

#[test]
fn arguments_are_evaluated_before_the_builtin_is_looked_up() {
    let mut st = State::new();
    st.stack.push_call();
    let mut host = TestHost { out: Vec::new() };
    let mut fnode = Node::new(NodeType::FunCall(String::from("nope"), 1, 1));
    let mut args = Node::new(NodeType::ArgList(1, 5));
    args.children.push(Node::new(NodeType::Name(String::from("missing"), 1, 6)));
    fnode.children.push(args);
    let mut fuel = 100;
    let e = call(&fnode, "nope", &mut st, &mut host, &mut fuel).err().unwrap();
    assert_eq!(e.msg, "Undefined name: 'missing'.");
}

#[test]
fn math_arguments_are_checked_before_computing() {
    let d = Object::Double(1.5f64.to_bits());
    assert_eq!(math_args("__MATH_SQRT", &vec![Object::Int(4)]), Ok(()));
    assert_eq!(math_args("__MATH_SQRT", &vec![]), Err(MathFailure::ArgCount(1)));
    assert_eq!(math_args("__MATH_SQRT", &vec![Object::Bool(true)]), Err(MathFailure::ArgType(0)));
    assert_eq!(math_args("__MATH_MAX", &vec![Object::Int(1), Object::Bool(false)]), Err(MathFailure::ArgType(1)));
    assert_eq!(math_args("__MATH_POW", &vec![d, Object::Int(2)]), Ok(()));
    assert_eq!(math_args("__MATH_ATAN2", &vec![Object::Int(1)]), Err(MathFailure::ArgCount(2)));
    assert_eq!(math_args("__MATH_NEXT_DOUBLE", &vec![Object::Int(1)]), Err(MathFailure::ArgCount(0)));
}
