use redart::dirs::{Dirs, join_path};
use redart::testlist::{find_numbered, get_filepath, get_failfilepath, parse_usize, TESTS, FAILTESTS};
use redart::builtin::has_function;
use redart::state::State;
use redart::lexer::lex;
use redart::parser::parse;
use redart::typechecker::{typecheck, tc_expression, tc_statement, hastype};
use redart::node::{Node, NodeType};
use redart::expression::expression;

#[test]
fn dirs_are_relative_to_cwd() {
    let d = Dirs::new(String::from("/home/u/redart"));
    assert_eq!(d.cwd(), "/home/u/redart");
    assert_eq!(d.libdir(), "/home/u/redart/src/dartlib");
    assert_eq!(d.testdir(), "/home/u/redart/test");
    assert_eq!(d.failtestdir(), "/home/u/redart/testfail");
    assert_eq!(join_path("a", "b"), "a/b");
}

#[test]
fn test_paths_by_number_or_name() {
    let d = Dirs::new(String::from("/r"));
    assert_eq!(get_filepath(String::from("1"), &d), "/r/test/1.hello.dart");
    assert_eq!(get_filepath(String::from("0"), &d), format!("/r/test/{}", TESTS[0]));
    assert_eq!(get_filepath(String::from("mine.dart"), &d), "/r/test/mine.dart");
    assert_eq!(get_filepath(String::from("500"), &d), "/r/test/500.multifile/main.dart");
    assert_eq!(get_filepath(String::from("501"), &d), "/r/test/501.external_constructor/main.dart");
    assert_eq!(get_failfilepath(String::from("1"), &d), "/r/testfail/1.double_declaration.dart");
    assert_eq!(get_failfilepath(String::from("x.dart"), &d), format!("/r/testfail/{}", "x.dart"));
    assert_eq!(get_failfilepath(String::from("500"), &d), "/r/testfail/500.non_transitive_imports/main.dart");
    assert_eq!(find_numbered(&TESTS, 87), None);
    assert_eq!(find_numbered(&TESTS, 500), Some(87));
    assert_eq!(find_numbered(&FAILTESTS, 9), None);
    assert_eq!(find_numbered(&FAILTESTS, 3), Some(3));
    assert_eq!(FAILTESTS[0], "0.cross_function_leak.dart");
}

#[test]
fn usize_parsing() {
    assert_eq!(parse_usize("0"), Some(0));
    assert_eq!(parse_usize("42"), Some(42));
    assert_eq!(parse_usize("+7"), Some(7));
    assert_eq!(parse_usize(""), None);
    assert_eq!(parse_usize("+"), None);
    assert_eq!(parse_usize("-1"), None);
    assert_eq!(parse_usize("4a"), None);
    assert_eq!(parse_usize("18446744073709551615"), Some(usize::MAX));
    assert_eq!(parse_usize("18446744073709551616"), None);
}

#[test]
fn builtin_names() {
    assert!(has_function("print"));
    assert!(has_function("assert"));
    assert!(has_function("__LIST_ADD"));
    assert!(has_function("__MATH_NEXT_INT"));
    assert!(!has_function("printf"));
    assert!(!has_function(""));
}

fn state_with_globals() -> State {
    let mut st = State::new();
    st.filepath = String::from("a.dart");
    st.globals.push(Node::new(NodeType::Constructor(
        String::from("P"),
        Box::new(Node::new(NodeType::Null(0, 0))),
        Box::new(Node::new(NodeType::Null(0, 0))),
        Box::new(Node::new(NodeType::Null(0, 0))),
        String::from("a.dart"), 1, 1)));
    st.globals.push(Node::new(NodeType::TopVarLazy(String::from("int"), String::from("n"), 2, 5)));
    st.looktables.push((String::from("a.dart"), vec![(String::from("P"), 0), (String::from("n"), 1)]));
    st
}

#[test]
fn globals_by_name() {
    let mut st = state_with_globals();
    assert!(st.has_global("P"));
    assert!(st.has_global("n"));
    assert!(!st.has_global("m"));
    assert!(matches!(st.get_global("n").nodetype, NodeType::TopVarLazy(_, _, 2, 5)));
    assert!(matches!(st.get_global_ref("P").nodetype, NodeType::Constructor(..)));
    st.set_global("n", Node::new(NodeType::Null(3, 3)));
    assert!(matches!(st.globals[1].nodetype, NodeType::Null(3, 3)));
    assert!(matches!(st.globals[0].nodetype, NodeType::Constructor(..)));
}

#[test]
fn types_known() {
    let st = state_with_globals();
    assert!(hastype(&String::from("int"), &st));
    assert!(hastype(&String::from("String"), &st));
    assert!(hastype(&String::from("P"), &st));
    assert!(!hastype(&String::from("n"), &st));
    assert!(!hastype(&String::from("Q"), &st));
}

fn expr(src: &str) -> Node {
    let mut reader = lex(src);
    expression(&mut reader, "t.dart").ok().unwrap()
}

#[test]
fn expression_types() {
    assert_eq!(tc_expression(&expr("1")), Ok(String::from("int")));
    assert_eq!(tc_expression(&expr("1 + 2 * 3")), Ok(String::from("int")));
    assert_eq!(tc_expression(&expr("x")), Err(String::from("Type check not implemented")));
    assert_eq!(tc_expression(&expr("1 + x")), Err(String::from("Type check not implemented")));
}

fn parsed(src: &str) -> State {
    let mut reader = lex(src);
    let mut st = State::new();
    st.filepath = String::from("t.dart");
    parse(&mut reader, &mut st).ok().unwrap();
    st
}

#[test]
fn typecheck_records_inferred_type() {
    let mut st = parsed("int main() { var x = 1 + 2; }");
    assert_eq!(typecheck(&mut st), Ok(()));
    let stmt = &st.globals[0].children[1].children[0];
    assert!(matches!(&stmt.children[0].nodetype, NodeType::TypedVar(t, n, _, _) if t == "int" && n == "x"));
}

#[test]
fn typecheck_rejects_mismatch() {
    let mut st = parsed("int main() { String s = 1; }");
    assert_eq!(typecheck(&mut st), Err(String::from("Typecheck expected: String, got: int")));
}

#[test]
fn typecheck_statement_kinds() {
    let mut st = parsed("int main() { f(1); }");
    let mut stmt = st.globals[0].children[1].children[0].clone();
    assert_eq!(tc_statement(&mut stmt), Ok(String::from("void")));
    assert_eq!(typecheck(&mut st), Ok(()));
    let mut st = parsed("int main() { x = 1; }");
    assert_eq!(typecheck(&mut st), Err(String::from("Not typechecking1")));
    let mut st = parsed("int main() { return 1; }");
    assert_eq!(typecheck(&mut st), Err(String::from("Not typechecking2")));
}

#[test]
fn typecheck_twice_changes_nothing() {
    let mut st = parsed("int main() { var x = 1 + 2; int y = 3; f(x); }");
    assert_eq!(typecheck(&mut st), Ok(()));
    let once: Vec<String> = st.globals.iter().map(describe).collect();
    assert_eq!(typecheck(&mut st), Ok(()));
    let twice: Vec<String> = st.globals.iter().map(describe).collect();
    assert_eq!(once, twice);
}

fn describe(n: &Node) -> String {
    let own = match &n.nodetype {
        NodeType::TypedVar(t, v, _, _) => format!("{}:{}", v, t),
        NodeType::FunDef(_, name, _, _, _) => format!("fun {}", name),
        _ => String::from("."),
    };
    let kids: Vec<String> = n.children.iter().map(describe).collect();
    format!("{}({})", own, kids.join(","))
}
