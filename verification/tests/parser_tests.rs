use redart::lexer::lex;
use redart::parser::{parse, statement, block, autoincludes};
use redart::expression::{expression, parse_int_literal};
use redart::node::{Node, NodeType};
use redart::reader::{FailKind, Reader};
use redart::token::Token;
use redart::state::State;

const PROGRAM: &str = "import 'lib.dart';
int main() {
  int x = 1 + 2;
  print(x);
}
class Point {
  int x = 0;
  int y;
  Point(int a) {
    x = a;
  }
  int sum(int k) {
    return x + k;
  }
}
";

fn fresh_state(file: &str) -> State {
    let mut st = State::new();
    st.filepath = String::from(file);
    st
}

fn parse_expr(src: &str) -> Node {
    let mut reader = lex(src);
    expression(&mut reader, "test.dart").ok().unwrap()
}

#[test]
fn autoincludes_list_library() {
    assert_eq!(autoincludes(), vec![String::from("auto:list.dart")]);
}

#[test]
fn parse_program_with_function_and_class() {
    let mut reader = lex(PROGRAM);
    let mut st = fresh_state("prog.dart");
    let imports = parse(&mut reader, &mut st).ok().unwrap();
    assert_eq!(imports, vec![String::from("auto:list.dart"), String::from("lib.dart")]);
    assert_eq!(reader.pos() + 1, reader.len());
    assert_eq!(st.globals.len(), 2);
    match &st.globals[0].nodetype {
        NodeType::FunDef(typ, name, file, _, _) => {
            assert_eq!(typ, "int");
            assert_eq!(name, "main");
            assert_eq!(file, "prog.dart");
        }
        _ => panic!("expected a function"),
    }
    assert_eq!(st.globals[0].children.len(), 2);
    assert!(matches!(st.globals[0].children[0].nodetype, NodeType::ParamList(_, _)));
    assert!(matches!(st.globals[0].children[1].nodetype, NodeType::Block(_, _)));
    assert_eq!(st.globals[0].children[1].children.len(), 2);
    match &st.globals[1].nodetype {
        NodeType::Constructor(cname, params, _, body, file, line, _) => {
            assert_eq!(cname, "Point");
            assert_eq!(file, "prog.dart");
            assert_eq!(*line, 9);
            assert_eq!(params.children.len(), 1);
            assert!(matches!(&params.children[0].nodetype, NodeType::TypedVar(t, n, _, _) if t == "int" && n == "a"));
            assert!(matches!(body.nodetype, NodeType::Block(_, _)));
        }
        _ => panic!("expected a constructor"),
    }
    assert!(st.objsys.has_class("Point"));
    let class = st.objsys.get_class("Point");
    assert_eq!(class.name, "Point");
    assert_eq!(class.parent, "");
    assert_eq!(class.fields.len(), 2);
    assert_eq!(class.fields[0].0, "int");
    assert_eq!(class.fields[0].1, "x");
    assert!(matches!(class.fields[1].2.nodetype, NodeType::Null(_, _)));
    assert!(class.has_method("sum"));
    assert!(!class.has_method("x"));
}

#[test]
fn class_without_constructor_gets_implicit_one() {
    let mut reader = lex("class A {\n int f(){ return 1; }\n}");
    let mut st = fresh_state("a.dart");
    parse(&mut reader, &mut st).ok().unwrap();
    assert_eq!(st.globals.len(), 1);
    let ctor = &st.globals[0];
    match &ctor.nodetype {
        NodeType::Constructor(cname, params, init, body, _, line, col) => {
            assert_eq!(cname, "A");
            assert_eq!((*line, *col), (0, 0));
            assert!(matches!(params.nodetype, NodeType::Null(_, _)));
            assert!(matches!(init.nodetype, NodeType::Null(_, _)));
            assert!(matches!(body.nodetype, NodeType::Null(_, _)));
        }
        _ => panic!("expected a constructor"),
    }
    assert_eq!(ctor.children.len(), 2);
    assert!(matches!(ctor.children[0].nodetype, NodeType::ParamList(0, 0)));
    assert!(matches!(ctor.children[1].nodetype, NodeType::Null(0, 0)));
    assert_eq!(st.objsys.get_class("A").parent, "");
    assert!(st.objsys.get_class("A").has_method("f"));
}

#[test]
fn top_level_variable_is_lazy() {
    let mut reader = lex("int x = 5;");
    let mut st = fresh_state("v.dart");
    parse(&mut reader, &mut st).ok().unwrap();
    assert_eq!(st.globals.len(), 1);
    assert!(matches!(&st.globals[0].nodetype, NodeType::TopVarLazy(t, n, 1, 5) if t == "int" && n == "x"));
    assert!(matches!(st.globals[0].children[0].nodetype, NodeType::Int(5, _, _)));
}

#[test]
fn import_needs_a_string() {
    let mut reader = lex("import x;");
    let mut st = fresh_state("i.dart");
    let e = parse(&mut reader, &mut st).err().unwrap();
    assert_eq!(e.kind, FailKind::Panicked);
    assert_eq!(e.msg, "Error: Expected string after 'import'.");
    assert_eq!((e.line, e.col), (1, 8));
}

#[test]
fn import_after_declaration_is_refused() {
    let mut reader = lex("int f() { }\nimport 'a.dart';");
    let mut st = fresh_state("i.dart");
    let e = parse(&mut reader, &mut st).err().unwrap();
    assert_eq!(e.kind, FailKind::Reported);
    assert_eq!(e.msg, "Directives must appear before any declarations.");
    assert_eq!(e.line, 2);
}

#[test]
fn missing_semicolon_is_reported() {
    let mut reader = lex("import 'a.dart' int");
    let mut st = fresh_state("i.dart");
    let e = parse(&mut reader, &mut st).err().unwrap();
    assert_eq!(e.kind, FailKind::Reported);
    assert_eq!(e.msg, "Expected: ';'. Got: 'int'.");
}

#[test]
fn function_name_expected() {
    let mut reader = lex("int ;");
    let mut st = fresh_state("f.dart");
    let e = parse(&mut reader, &mut st).err().unwrap();
    assert_eq!(e.msg, "Expected function name.");
}

#[test]
fn sum_is_left_associative() {
    let n = parse_expr("a - b - c");
    assert!(matches!(n.nodetype, NodeType::Sub(_, _)));
    assert_eq!(n.children.len(), 2);
    assert!(matches!(n.children[0].nodetype, NodeType::Sub(_, _)));
    assert!(matches!(&n.children[1].nodetype, NodeType::Name(s, _, _) if s == "c"));
    assert!(matches!(&n.children[0].children[0].nodetype, NodeType::Name(s, _, _) if s == "a"));
    assert!(matches!(&n.children[0].children[1].nodetype, NodeType::Name(s, _, _) if s == "b"));
}

#[test]
fn product_binds_tighter_than_sum() {
    let n = parse_expr("1 + 2 * 3");
    assert!(matches!(n.nodetype, NodeType::Add(_, _)));
    assert!(matches!(n.children[0].nodetype, NodeType::Int(1, _, _)));
    assert!(matches!(n.children[1].nodetype, NodeType::Mul(_, _)));
    let n = parse_expr("8 / 4 / 2");
    assert!(matches!(n.nodetype, NodeType::Div(_, _)));
    assert!(matches!(n.children[0].nodetype, NodeType::Div(_, _)));
    assert!(matches!(n.children[1].nodetype, NodeType::Int(2, _, _)));
}

#[test]
fn comparison_and_logic() {
    let n = parse_expr("a < b || c && !d");
    assert!(matches!(n.nodetype, NodeType::LogOr(_, _)));
    assert!(matches!(n.children[0].nodetype, NodeType::LessThan(_, _)));
    assert!(matches!(n.children[1].nodetype, NodeType::LogAnd(_, _)));
    assert!(matches!(n.children[1].children[1].nodetype, NodeType::Not(_, _)));
}

#[test]
fn literals_and_postfix() {
    // The literal's column is that of its first digit.
    assert!(matches!(parse_expr("42").nodetype, NodeType::Int(42, 1, 1)));
    assert!(matches!(parse_expr("true").nodetype, NodeType::Bool(true, _, _)));
    assert!(matches!(&parse_expr("2.5").nodetype, NodeType::Double(s, _, _) if s == "2.5"));
    assert!(matches!(&parse_expr("'hi'").nodetype, NodeType::Str(s, _, _) if s == "hi"));
    let n = parse_expr("i++");
    assert!(matches!(n.nodetype, NodeType::PostIncrement(_, _)));
    let n = parse_expr("--i");
    assert!(matches!(n.nodetype, NodeType::PreDecrement(_, _)));
}

#[test]
fn calls_and_access() {
    let n = parse_expr("f(1, 2)");
    match &n.nodetype {
        NodeType::FunCall(name, _, _) => assert_eq!(name, "f"),
        _ => panic!("expected a call"),
    }
    assert_eq!(n.children.len(), 1);
    assert!(matches!(n.children[0].nodetype, NodeType::ArgList(_, _)));
    assert_eq!(n.children[0].children.len(), 2);
    let n = parse_expr("[1, 2, 3]");
    assert!(matches!(n.nodetype, NodeType::List(_, _)));
    assert_eq!(n.children.len(), 3);
}

#[test]
fn int_literals() {
    assert_eq!(parse_int_literal("0"), Some(0));
    assert_eq!(parse_int_literal("123"), Some(123));
    assert_eq!(parse_int_literal("9223372036854775807"), Some(i64::MAX));
    assert_eq!(parse_int_literal("9223372036854775808"), None);
    assert_eq!(parse_int_literal(""), None);
    assert_eq!(parse_int_literal("1a"), None);
}

#[test]
fn statements() {
    let mut reader = lex("while (i < 3) { i = i + 1; }");
    let n = statement(&mut reader, "s.dart").ok().unwrap();
    assert!(matches!(n.nodetype, NodeType::While(1, 1)));
    assert_eq!(n.children.len(), 2);
    assert!(matches!(n.children[1].nodetype, NodeType::Block(_, _)));
    assert_eq!(n.children[1].children.len(), 1);
    assert!(matches!(n.children[1].children[0].nodetype, NodeType::Assign(_, _)));

    let mut reader = lex("if (a) { } else if (b) { } else { }");
    let n = statement(&mut reader, "s.dart").ok().unwrap();
    assert!(matches!(n.nodetype, NodeType::Conditional(_, _)));
    assert_eq!(n.children.len(), 3);
    assert!(matches!(n.children[0].nodetype, NodeType::If(_, _)));
    assert!(matches!(n.children[1].nodetype, NodeType::ElseIf(_, _)));
    assert!(matches!(n.children[2].nodetype, NodeType::Else(_, _)));

    let mut reader = lex("return 1;");
    let n = statement(&mut reader, "s.dart").ok().unwrap();
    assert!(matches!(n.nodetype, NodeType::Return(1, 1)));
    assert_eq!(n.children.len(), 1);
}

#[test]
fn block_reads_to_closing_brace() {
    let mut reader = lex("a = 1; b = 2; } c");
    let n = block(&mut reader, "b.dart").ok().unwrap();
    assert!(matches!(n.nodetype, NodeType::Block(1, 1)));
    assert_eq!(n.children.len(), 2);
    assert!(matches!(reader.tok(), redart::token::Token::Name(s, _, _) if s == "c"));
}

#[test]
fn extends_is_not_a_keyword() {
    // The lexer reads `extends` as a name, so the class body is expected there.
    let mut reader = lex("class A extends B { }");
    let mut st = fresh_state("a.dart");
    let e = parse(&mut reader, &mut st).err().unwrap();
    assert_eq!(e.msg, "Expected: '{'. Got: 'extends'.");
}

#[test]
fn directives_after_declarations_are_refused() {
    let mut reader = lex("int x = 1;\nimport 'a.dart';");
    let mut st = fresh_state("d.dart");
    let e = parse(&mut reader, &mut st).err().unwrap();
    assert_eq!(e.kind, FailKind::Reported);
    assert_eq!(e.msg, "Directives must appear before any declarations.");
}

#[test]
fn sums_group_to_the_left() {
    let n = parse_expr("1 - 2 - 3;");
    match &n.nodetype {
        NodeType::Sub(_, _) => {
            assert!(matches!(&n.children[0].nodetype, NodeType::Sub(_, _)));
            assert!(matches!(&n.children[1].nodetype, NodeType::Int(3, _, _)));
            assert!(matches!(&n.children[0].children[0].nodetype, NodeType::Int(1, _, _)));
            assert!(matches!(&n.children[0].children[1].nodetype, NodeType::Int(2, _, _)));
        }
        _ => panic!("expected a subtraction"),
    }
}

#[test]
fn longer_chains_group_to_the_left() {
    let n = parse_expr("10 - 4 - 3;");
    assert!(matches!(n.nodetype, NodeType::Sub(_, _)));
    assert!(matches!(n.children[1].nodetype, NodeType::Int(3, _, _)));
    assert!(matches!(n.children[0].nodetype, NodeType::Sub(_, _)));
    assert!(matches!(n.children[0].children[0].nodetype, NodeType::Int(10, _, _)));
    assert!(matches!(n.children[0].children[1].nodetype, NodeType::Int(4, _, _)));
    let n = parse_expr("2 * 3 * 4 / 6;");
    assert!(matches!(n.nodetype, NodeType::Div(_, _)));
    assert!(matches!(n.children[1].nodetype, NodeType::Int(6, _, _)));
    assert!(matches!(n.children[0].nodetype, NodeType::Mul(_, _)));
    assert!(matches!(n.children[0].children[0].nodetype, NodeType::Mul(_, _)));
    assert!(matches!(n.children[0].children[1].nodetype, NodeType::Int(4, _, _)));
    let n = parse_expr("a + b * c - d;");
    assert!(matches!(n.nodetype, NodeType::Sub(_, _)));
    assert!(matches!(&n.children[1].nodetype, NodeType::Name(s, _, _) if s == "d"));
    assert!(matches!(n.children[0].nodetype, NodeType::Add(_, _)));
    assert!(matches!(n.children[0].children[1].nodetype, NodeType::Mul(_, _)));
}

#[test]
fn assignment_of_a_sum_keeps_its_operators() {
    let mut reader = lex("x = a + b;");
    let n = statement(&mut reader, "t.dart").ok().unwrap();
    assert!(matches!(n.nodetype, NodeType::Assign(_, _)));
    assert!(matches!(&n.children[0].nodetype, NodeType::Name(s, _, _) if s == "x"));
    assert!(matches!(n.children[1].nodetype, NodeType::Add(_, _)));
    assert!(matches!(&n.children[1].children[0].nodetype, NodeType::Name(s, _, _) if s == "a"));
    assert!(matches!(&n.children[1].children[1].nodetype, NodeType::Name(s, _, _) if s == "b"));
}

#[test]
fn empty_file_imports_only_the_automatic_library() {
    let mut reader = lex("");
    let mut st = fresh_state("e.dart");
    let imports = parse(&mut reader, &mut st).ok().unwrap();
    assert_eq!(imports, vec![String::from("auto:list.dart")]);
    assert_eq!(st.globals.len(), 0);
}

#[test]
fn empty_argument_list() {
    let mut reader = lex("() ;");
    let n = redart::expression::arglist(&mut reader, "t.dart").ok().unwrap();
    assert!(matches!(n.nodetype, NodeType::ArgList(_, _)));
    assert_eq!(n.children.len(), 0);
    assert_eq!(reader.pos(), 2);
}

#[test]
fn class_without_constructor_gets_one() {
    let mut reader = lex("class A { int x; }");
    let mut st = fresh_state("c.dart");
    parse(&mut reader, &mut st).ok().unwrap();
    let cons: Vec<&Node> = st.globals.iter().filter(|g| matches!(g.nodetype, NodeType::Constructor(..))).collect();
    assert_eq!(cons.len(), 1);
    assert_eq!(cons[0].children.len(), 2);
    assert!(matches!(cons[0].children[0].nodetype, NodeType::ParamList(_, _)));
    assert_eq!(cons[0].children[0].children.len(), 0);
}

#[test]
fn constructor_with_field_parameter() {
    let n = |s: &str, c: usize| Token::Name(String::from(s), 1, c);
    let toks = vec![
        Token::Class(1, 1), n("A", 7), Token::Block1(1, 9), n("int", 11), n("x", 15), Token::EndSt(1, 16),
        n("A", 18), Token::Paren1(1, 19), Token::This(1, 20), Token::Access(1, 24), n("x", 25), Token::Paren2(1, 26),
        Token::EndSt(1, 27), Token::Block2(1, 29), Token::End,
    ];
    let mut reader = Reader::new(toks);
    let mut st = fresh_state("c.dart");
    parse(&mut reader, &mut st).ok().unwrap();
    let cons: Vec<&Node> = st.globals.iter().filter(|g| matches!(g.nodetype, NodeType::Constructor(..))).collect();
    assert_eq!(cons.len(), 1);
    assert_eq!(cons[0].children.len(), 0);
    match &cons[0].nodetype {
        NodeType::Constructor(name, params, _, _, _, _, _) => {
            assert_eq!(name, "A");
            assert_eq!(params.children.len(), 1);
            assert!(matches!(&params.children[0].nodetype, NodeType::ThisFieldInit(f, 1, 25) if f == "x"));
        }
        _ => panic!("expected a constructor"),
    }
    let toks = vec![
        n("int", 1), n("f", 5), Token::Paren1(1, 6), Token::This(1, 7), Token::Access(1, 11), n("x", 12),
        Token::Paren2(1, 13), Token::Block1(1, 15), Token::Block2(1, 17), Token::End,
    ];
    let mut reader = Reader::new(toks);
    let mut st = fresh_state("c.dart");
    let e = parse(&mut reader, &mut st).err().unwrap();
    assert_eq!(e.msg, "Initializing formal parameters can only be used in constructors");
}

#[test]
fn member_chains_nest_to_the_left() {
    let n = parse_expr("a.b.c;");
    assert!(matches!(&n.nodetype, NodeType::Name(s, _, _) if s == "c"));
    assert_eq!(n.children.len(), 1);
    assert!(matches!(&n.children[0].nodetype, NodeType::Name(s, _, _) if s == "b"));
    assert!(matches!(&n.children[0].children[0].nodetype, NodeType::Name(s, _, _) if s == "a"));
}

#[test]
fn calls_take_part_in_chains() {
    let n = parse_expr("f(1) * 2 + g(3);");
    assert!(matches!(n.nodetype, NodeType::Add(_, _)));
    assert!(matches!(n.children[0].nodetype, NodeType::Mul(_, _)));
    let call = &n.children[0].children[0];
    assert!(matches!(&call.nodetype, NodeType::FunCall(s, _, _) if s == "f"));
    assert_eq!(call.children.len(), 1);
    assert!(matches!(call.children[0].nodetype, NodeType::ArgList(_, _)));
    assert!(matches!(call.children[0].children[0].nodetype, NodeType::Int(1, _, _)));
    assert!(matches!(&n.children[1].nodetype, NodeType::FunCall(s, _, _) if s == "g"));
    assert!(matches!(n.children[1].children[0].children[0].nodetype, NodeType::Int(3, _, _)));
}
