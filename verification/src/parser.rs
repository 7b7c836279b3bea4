use vstd::prelude::*;
use crate::token::{Token, TokenV, TokKind, token_text};
use crate::node::{Node, NodeType, NodeV, NodeTypeV, NodeKind, push_child, lemma_node_view, lemma_nodes_push, nodes_view};
use crate::reader::{Reader, ParseError, FailKind, fail, fail_with_token, more_at, skip_spec};
use crate::expression::{expression, access_help, arglist, moved, advanced, tyv, nodev, gives, named, lone_literal, literal_spec, lemma_lone_literal,
    chain_expression, sum_result};
use crate::object::{Object, ParamObj};
use crate::objsys::Class;
use crate::state::State;

verus! {

broadcast use vstd::std_specs::vec::group_vec_axioms;

/// The reader stands on a token and has one more after it.
pub open spec fn more_after(r: Reader) -> bool {
    r.toks().len() > r.pos_spec() + 1
}

/// How far a reading loop still has to go: the tokens left while it goes
/// on, none once it is done or at the last token.
pub open spec fn left_to_read(r: Reader, done: bool) -> int {
    if !done && more_after(r) {
        r.toks().len() - r.pos_spec()
    } else {
        0
    }
}

/// `state` keeps its path, keeps its earlier top-level nodes and keeps a
/// sound object system.
pub open spec fn grows(a: State, b: State) -> bool {
    &&& b.filepath == a.filepath
    &&& b.objsys.wf()
    &&& a.globals@.len() <= b.globals@.len()
    &&& b.globals@.subrange(0, a.globals@.len() as int) == a.globals@
}

/// Growing is transitive.
proof fn lemma_grows_trans(a: State, b: State, c: State)
    requires
        grows(a, b),
        grows(b, c),
    ensures
        grows(a, c),
{
    assert(c.globals@.subrange(0, a.globals@.len() as int) =~= b.globals@.subrange(0, a.globals@.len() as int));
}

/// A state grows to itself, given a sound object system.
proof fn lemma_grows_refl(a: State)
    requires
        a.objsys.wf(),
    ensures
        grows(a, a),
{
    assert(a.globals@.subrange(0, a.globals@.len() as int) =~= a.globals@);
}

/// The files that every program imports.
pub fn autoincludes() -> (r: Vec<String>)
    ensures
        r@.len() == 1,
        r@[0]@ == "auto:list.dart"@,
{
    let mut v: Vec<String> = Vec::new();
    v.push(String::from_str("auto:list.dart"));
    v
}

/// Parses a file: its import directives, then its declarations up to the
/// last token. Gives the imported files, the automatic ones first.
pub fn parse(reader: &mut Reader, state: &mut State) -> (r: Result<Vec<String>, ParseError>)
    requires
        old(reader).pos_spec() < old(reader).toks().len(),
        old(state).objsys.wf(),
    ensures
        moved(*old(reader), *final(reader), r is Ok),
        grows(*old(state), *final(state)),
        r is Ok ==> final(reader).pos_spec() + 1 == final(reader).toks().len(),
        r matches Ok(v) ==> v@.len() >= 1 && v@[0]@ == "auto:list.dart"@,
        r is Ok ==> classes_constructed(*old(state), *final(state)),
        !more_at(old(reader).toks(), old(reader).pos_spec() as int) ==> (r matches Ok(v) && v@.len() == 1
            && v@[0]@ == "auto:list.dart"@) && *final(state) == *old(state),
{
    proof { lemma_grows_refl(*state); }
    let imports = match directives(reader) {
        Ok(v) => v,
        Err(e) => { return Err(e); },
    };
    while reader.more()
        invariant
            moved(*old(reader), *reader, true),
            reader.toks() == old(reader).toks(),
            grows(*old(state), *state),
            imports@.len() >= 1 && imports@[0]@ == "auto:list.dart"@,
            classes_constructed(*old(state), *state),
            !more_at(old(reader).toks(), old(reader).pos_spec() as int) ==> imports@.len() == 1
                && reader.pos_spec() == old(reader).pos_spec() && *state == *old(state),
        decreases left_to_read(*reader, false),
    {
        let ghost s0 = *state;
        let ghost r0 = *reader;
        let res = decl(reader, state);
        proof { lemma_grows_trans(*old(state), s0, *state); }
        match res {
            Ok(()) => {},
            Err(e) => { return Err(e); },
        }
        proof {
            assert forall|c: Seq<char>| #[trigger] state.objsys.classes().contains_key(c) && !old(state).objsys.classes().contains_key(c)
                implies has_constructor(state.globals@, old(state).globals@.len() as int, c) by {
                if s0.objsys.classes().contains_key(c) {
                    lemma_constructor_stays(s0, *state, old(state).globals@.len() as int, c);
                } else {
                    let i = choose|i: int| s0.globals@.len() <= i < state.globals@.len() && constructs(#[trigger] state.globals@[i], c);
                    assert(old(state).globals@.len() <= s0.globals@.len());
                    assert(constructs(state.globals@[i], c));
                }
            }
        }
    }
    Ok(imports)
}

/// Every class that `b` has and `a` had not comes with a constructor among
/// the top-level nodes added since `a`.
pub open spec fn classes_constructed(a: State, b: State) -> bool {
    forall|c: Seq<char>| #[trigger] b.objsys.classes().contains_key(c) && !a.objsys.classes().contains_key(c)
        ==> has_constructor(b.globals@, a.globals@.len() as int, c)
}

/// A constructor among the top-level nodes stays there as they grow.
proof fn lemma_constructor_stays(a: State, b: State, from: int, c: Seq<char>)
    requires
        grows(a, b),
        0 <= from,
        has_constructor(a.globals@, from, c),
    ensures
        has_constructor(b.globals@, from, c),
{
    let i = choose|i: int| from <= i < a.globals@.len() && constructs(#[trigger] a.globals@[i], c);
    assert(b.globals@.subrange(0, a.globals@.len() as int)[i] == b.globals@[i]);
    assert(constructs(b.globals@[i], c));
}

/// Every class a file declares gets a constructor: its own, or an implicit
/// one when it declares none.
pub proof fn law_declared_classes_have_constructors(a: State, b: State, c: Seq<char>)
    requires
        classes_constructed(a, b),
        b.objsys.classes().contains_key(c),
        !a.objsys.classes().contains_key(c),
    ensures
        exists|i: int| a.globals@.len() <= i < b.globals@.len() && constructs(#[trigger] b.globals@[i], c),
{
}

/// Reads the `import` directives at the start of a file.
fn directives(reader: &mut Reader) -> (r: Result<Vec<String>, ParseError>)
    requires
        old(reader).pos_spec() < old(reader).toks().len(),
    ensures
        moved(*old(reader), *final(reader), r is Ok),
        r matches Ok(v) ==> v@.len() >= 1 && v@[0]@ == "auto:list.dart"@,
        !(more_at(old(reader).toks(), old(reader).pos_spec() as int) && old(reader).current().kind == TokKind::Import) ==> (r matches Ok(v) && v@.len() == 1
            && v@[0]@ == "auto:list.dart"@) && final(reader).pos_spec() == old(reader).pos_spec(),
{
    let mut imports = autoincludes();
    while reader.more() && reader.kind() == TokKind::Import
        invariant
            moved(*old(reader), *reader, true),
            imports@.len() >= 1 && imports@[0]@ == "auto:list.dart"@,
            !(more_at(old(reader).toks(), old(reader).pos_spec() as int) && old(reader).current().kind == TokKind::Import) ==> imports@.len() == 1
                && reader.pos_spec() == old(reader).pos_spec(),
        decreases reader.toks().len() - reader.pos_spec(),
    {
        reader.next();
        let t = reader.tok();
        if t.kind() != TokKind::Str {
            return Err(fail(FailKind::Panicked, String::from_str("Error: Expected string after 'import'."), &t));
        }
        match reader.advance() {
            Ok(()) => {},
            Err(e) => { return Err(e); },
        }
        match reader.skip(";") {
            Ok(()) => {},
            Err(e) => { return Err(e); },
        }
        imports.push(t.text());
    }
    Ok(imports)
}

/// From `p`: `T x = literal ;`, a top-level variable whose value is a
/// literal. Gives its node and the position after the `;`.
#[verifier::opaque]
pub open spec fn top_var_decl(ts: Seq<TokenV>, p: int) -> Option<(NodeV, int)> {
    if 0 <= p && more_at(ts, p) && ts[p].kind == TokKind::Name && more_at(ts, p + 1) && ts[p + 1].kind == TokKind::Name
        && more_at(ts, p + 2) && ts[p + 2].kind == TokKind::Assign && lone_literal(ts, p + 3) {
        match literal_spec(ts, p + 3) {
            Ok((n, q)) => match skip_spec(ts, q, ";"@) {
                Ok(q2) => Some((NodeV {
                    ty: NodeTypeV { kind: NodeKind::TopVarLazy, strs: seq![ts[p].text, ts[p + 1].text], int_val: 0, flag: false,
                        boxes: seq![], line: ts[p + 1].line, col: ts[p + 1].col },
                    children: seq![n],
                }, q2)),
                Err(_) => None,
            },
            Err(_) => None,
        }
    } else {
        None
    }
}

/// Reads a top-level declaration: a function, a variable, a constant or a
/// class.
#[verifier::rlimit(60)]
fn decl(reader: &mut Reader, state: &mut State) -> (r: Result<(), ParseError>)
    requires
        old(reader).pos_spec() < old(reader).toks().len(),
        old(state).objsys.wf(),
    ensures
        moved(*old(reader), *final(reader), r is Ok),
        r is Ok ==> old(reader).pos_spec() < final(reader).pos_spec(),
        grows(*old(state), *final(state)),
        r is Ok && old(reader).current().kind == TokKind::Class ==> class_declared(*old(reader), *old(state), *final(state)),
        old(reader).current().kind != TokKind::Class ==> final(state).objsys == old(state).objsys,
        old(reader).current().kind == TokKind::Import ==> (r matches Err(x) && x@ == crate::reader::fail_at(FailKind::Reported,
            "Directives must appear before any declarations."@, old(reader).current()))
            && *final(reader) == *old(reader) && *final(state) == *old(state),
        top_var_decl(old(reader).toks(), old(reader).pos_spec() as int) matches Some((n, q)) ==> r is Ok
            && final(reader).pos_spec() == q && final(state).globals@.len() == old(state).globals@.len() + 1
            && final(state).globals@.last().view() == n,
{
    proof { reveal(top_var_decl); }
    let ghost s0 = *state;
    assert(state.globals@.subrange(0, state.globals@.len() as int) =~= state.globals@);
    let t = reader.tok();
    let k = t.kind();
    if k == TokKind::Name {
        let typ = t.text();
        match reader.advance() {
            Ok(()) => {},
            Err(e) => { return Err(e); },
        }
        let t2 = reader.tok();
        if t2.kind() != TokKind::Name {
            return Err(fail(FailKind::Panicked, String::from_str("Expected function name."), &t2));
        }
        let name = t2.text();
        let (ln, sn) = t2.find_token_position();
        match reader.advance() {
            Ok(()) => {},
            Err(e) => { return Err(e); },
        }
        let t3 = reader.tok();
        if t3.kind() == TokKind::Paren1 {
            let mut node = Node::new(NodeType::FunDef(typ, name, state.filepath.clone(), ln, sn));
            let params = match paramlist(reader, false) {
                Ok(p) => p,
                Err(e) => { return Err(e); },
            };
            push_child(&mut node, params);
            match reader.skip("{") {
                Ok(()) => {},
                Err(e) => { return Err(e); },
            }
            let body = match block(reader, state.filepath.as_str()) {
                Ok(b) => b,
                Err(e) => { return Err(e); },
            };
            push_child(&mut node, body);
            state.globals.push(node);
            assert(state.globals@.subrange(0, s0.globals@.len() as int) =~= s0.globals@);
            Ok(())
        } else if t3.kind() == TokKind::Assign {
            match reader.advance() {
                Ok(()) => {},
                Err(e) => { return Err(e); },
            }
            let mut node = Node::new(NodeType::TopVarLazy(typ, name, ln, sn));
            let val = match expression(reader, state.filepath.as_str()) {
                Ok(v) => v,
                Err(e) => { return Err(e); },
            };
            let ghost vv = val.view();
            push_child(&mut node, val);
            assert(node.view().children =~= seq![vv]);
            state.globals.push(node);
            assert(state.globals@.subrange(0, s0.globals@.len() as int) =~= s0.globals@);
            match reader.skip(";") {
                Ok(()) => Ok(()),
                Err(e) => Err(e),
            }
        } else {
            Err(fail_with_token(FailKind::Reported, "Unexpected token: ", &t3, &t3))
        }
    } else if k == TokKind::Const {
        match reader.advance() {
            Ok(()) => {},
            Err(e) => { return Err(e); },
        }
        let t2 = reader.tok();
        if t2.kind() != TokKind::Name {
            return Err(fail(FailKind::Reported, String::from_str("Expected name after 'const'."), &t2));
        }
        let type_or_name = t2.text();
        let (l1, c1) = t2.find_token_position();
        match reader.advance() {
            Ok(()) => {},
            Err(e) => { return Err(e); },
        }
        let t3 = reader.tok();
        if t3.kind() == TokKind::Name {
            let name = t3.text();
            let (l2, c2) = t3.find_token_position();
            match reader.advance() {
                Ok(()) => {},
                Err(e) => { return Err(e); },
            }
            match reader.skip("=") {
                Ok(()) => {},
                Err(e) => { return Err(e); },
            }
            let val = match expression(reader, state.filepath.as_str()) {
                Ok(v) => v,
                Err(e) => { return Err(e); },
            };
            match reader.skip(";") {
                Ok(()) => {},
                Err(e) => { return Err(e); },
            }
            let mut node = Node::new(NodeType::ConstTopLazy(type_or_name, name, l2, c2));
            push_child(&mut node, val);
            state.globals.push(node);
            assert(state.globals@.subrange(0, s0.globals@.len() as int) =~= s0.globals@);
            Ok(())
        } else if t3.kind() == TokKind::Assign {
            match reader.advance() {
                Ok(()) => {},
                Err(e) => { return Err(e); },
            }
            let val = match expression(reader, state.filepath.as_str()) {
                Ok(v) => v,
                Err(e) => { return Err(e); },
            };
            match reader.skip(";") {
                Ok(()) => {},
                Err(e) => { return Err(e); },
            }
            let mut node = Node::new(NodeType::ConstTopLazy(String::from_str("dynamic"), type_or_name, l1, c1));
            push_child(&mut node, val);
            state.globals.push(node);
            assert(state.globals@.subrange(0, s0.globals@.len() as int) =~= s0.globals@);
            Ok(())
        } else {
            Err(fail_with_token(FailKind::Reported, "Unexpected token: ", &t3, &t3))
        }
    } else if k == TokKind::Class {
        class(reader, state)
    } else if k == TokKind::Import {
        Err(fail(FailKind::Reported, String::from_str("Directives must appear before any declarations."), &t))
    } else {
        Err(fail_with_token(FailKind::Reported, "Expected top level declaration. Got ", &t, &t))
    }
}

/// Reading a class declaration whose name follows the `class` token at
/// `r`'s position registered a class of that name, left the heap alone
/// and added a constructor for it to the top-level nodes.
pub open spec fn class_declared(r: Reader, a: State, b: State) -> bool {
    let name = r.toks()[r.pos_spec() + 1int].text;
    &&& b.objsys.classes().dom() == a.objsys.classes().dom().insert(name)
    &&& b.objsys.classes()[name].name@ == name
    &&& b.objsys.instances() == a.objsys.instances()
    &&& b.objsys.lists() == a.objsys.lists()
    &&& b.objsys.files() == a.objsys.files()
    &&& has_constructor(b.globals@, a.globals@.len() as int, name)
}

/// Reads a class declaration, from `class`, and registers the class.
fn class(reader: &mut Reader, state: &mut State) -> (r: Result<(), ParseError>)
    requires
        old(reader).pos_spec() < old(reader).toks().len(),
        old(state).objsys.wf(),
    ensures
        moved(*old(reader), *final(reader), r is Ok),
        r is Ok ==> old(reader).pos_spec() < final(reader).pos_spec(),
        grows(*old(state), *final(state)),
        r is Ok ==> class_declared(*old(reader), *old(state), *final(state)),
{
    let ghost s0 = *state;
    assert(state.globals@.subrange(0, state.globals@.len() as int) =~= state.globals@);
    match reader.advance() {
        Ok(()) => {},
        Err(e) => { return Err(e); },
    }
    let t = reader.tok();
    if t.kind() != TokKind::Name {
        return Err(fail(FailKind::Reported, String::from_str("Expected class name"), &t));
    }
    let mut class = Class::new(t.text());
    match reader.advance() {
        Ok(()) => {},
        Err(e) => { return Err(e); },
    }
    if reader.kind() == TokKind::Extends {
        match reader.advance() {
            Ok(()) => {},
            Err(e) => { return Err(e); },
        }
        let t2 = reader.tok();
        if t2.kind() != TokKind::Name {
            return Err(fail(FailKind::Reported, String::from_str("Expected parent class name"), &t2));
        }
        class.parent = t2.text();
        match reader.advance() {
            Ok(()) => {},
            Err(e) => { return Err(e); },
        }
    }
    match reader.skip("{") {
        Ok(()) => {},
        Err(e) => { return Err(e); },
    }
    match readmembers(&mut class, reader, state) {
        Ok(()) => {},
        Err(e) => { return Err(e); },
    }
    match reader.skip("}") {
        Ok(()) => {},
        Err(e) => { return Err(e); },
    }
    state.objsys.register_class(class);
    Ok(())
}

/// `n` is a constructor of the class called `name`.
pub open spec fn constructs(n: Node, name: Seq<char>) -> bool {
    n.nodetype matches NodeType::Constructor(c, _, _, _, _, _, _) && c@ == name
}

/// Some top-level node from index `from` on constructs the class `name`.
pub open spec fn has_constructor(globals: Seq<Node>, from: int, name: Seq<char>) -> bool {
    exists|i: int| from <= i < globals.len() && constructs(#[trigger] globals[i], name)
}

/// The constructor that a class without one gets: no parameters, no
/// initializer list and no body.
pub open spec fn implicit_constructor(n: Node, name: Seq<char>) -> bool {
    &&& n.nodetype matches NodeType::Constructor(c, params, init, body, _, l, col)
        && c@ == name && params.nodetype is Null && init.nodetype is Null && body.nodetype is Null && l == 0 && col == 0
    &&& n.children@.len() == 2
    &&& n.children@[0].nodetype is ParamList
    &&& n.children@[0].children@.len() == 0
    &&& n.children@[1].nodetype is Null
}

/// A constructor that the class body declares, as its node stands among
/// the top-level nodes.
pub open spec fn declared_constructor(n: Node, name: Seq<char>) -> bool {
    constructs(n, name) && n.children@.len() == 0
}

/// Reads the members of a class body, after its `{`, up to the `}` that
/// ends it, which stays for the caller. Fields, methods and getters go into
/// `class`; constructors become top-level nodes, and a class that declares
/// none gets an implicit one without parameters.
#[verifier::rlimit(60)]
fn readmembers(class: &mut Class, reader: &mut Reader, state: &mut State) -> (r: Result<(), ParseError>)
    requires
        old(reader).pos_spec() < old(reader).toks().len(),
        old(class).wf(),
        old(state).objsys.wf(),
    ensures
        moved(*old(reader), *final(reader), r is Ok),
        final(class).wf(),
        final(class).name == old(class).name,
        final(class).parent == old(class).parent,
        grows(*old(state), *final(state)),
        final(state).objsys == old(state).objsys,
        r is Ok ==> has_constructor(final(state).globals@, old(state).globals@.len() as int, old(class).name@),
        r is Ok ==> forall|i: int| old(state).globals@.len() <= i < final(state).globals@.len()
            ==> constructs(#[trigger] final(state).globals@[i], old(class).name@),
        old(reader).current().kind == TokKind::Block2 ==> r is Ok
            && final(state).globals@.len() == old(state).globals@.len() + 1
            && final(reader).pos_spec() == old(reader).pos_spec(),
        r is Ok ==> (final(state).globals@.len() == old(state).globals@.len() + 1
                && implicit_constructor(final(state).globals@.last(), old(class).name@))
            || forall|i: int| old(state).globals@.len() <= i < final(state).globals@.len()
                ==> declared_constructor(#[trigger] final(state).globals@[i], old(class).name@),
{
    let ghost s0 = *state;
    let ghost cname = class.name@;
    let mut got_constructor = false;
    let mut done = false;
    assert(state.globals@.subrange(0, state.globals@.len() as int) =~= state.globals@);
    while !done && reader.more()
        invariant
            moved(*old(reader), *reader, true),
            class.wf(),
            class.name == old(class).name,
            class.parent == old(class).parent,
            cname == old(class).name@,
            s0 == *old(state),
            grows(s0, *state),
            state.objsys == s0.objsys,
            got_constructor ==> has_constructor(state.globals@, s0.globals@.len() as int, cname),
            !got_constructor ==> state.globals@.len() == s0.globals@.len(),
            state.globals@.len() >= s0.globals@.len(),
            forall|i: int| s0.globals@.len() <= i < state.globals@.len() ==> constructs(#[trigger] state.globals@[i], cname),
            forall|i: int| s0.globals@.len() <= i < state.globals@.len() ==> declared_constructor(#[trigger] state.globals@[i], cname),
            old(reader).current().kind == TokKind::Block2 ==> !got_constructor && reader.pos_spec() == old(reader).pos_spec(),
        decreases left_to_read(*reader, done),
    {
        let t = reader.tok();
        let k = t.kind();
        if k == TokKind::Name {
            let mtype = t.text();
            let (tl, tc) = t.find_token_position();
            if mtype == class.name {
                reader.next();
                let bl = reader.linenum();
                let bc = reader.symnum();
                let params = match paramlist(reader, true) {
                    Ok(p) => p,
                    Err(e) => { return Err(e); },
                };
                let mut initlist = Node::new(NodeType::Null(bl, bc));
                let mut body = Node::new(NodeType::Null(bl, bc));
                let cur = reader.tok();
                let k2 = cur.kind();
                if k2 == TokKind::Colon {
                    initlist = match initializer_list(reader, state.filepath.as_str()) {
                        Ok(n) => n,
                        Err(e) => { return Err(e); },
                    };
                    if reader.kind() == TokKind::Block1 {
                        match reader.advance() {
                            Ok(()) => {},
                            Err(e) => { return Err(e); },
                        }
                        body = match block(reader, state.filepath.as_str()) {
                            Ok(n) => n,
                            Err(e) => { return Err(e); },
                        };
                    }
                } else if k2 == TokKind::Block1 {
                    match reader.advance() {
                        Ok(()) => {},
                        Err(e) => { return Err(e); },
                    }
                    body = match block(reader, state.filepath.as_str()) {
                        Ok(n) => n,
                        Err(e) => { return Err(e); },
                    };
                } else if k2 == TokKind::EndSt {
                    match reader.advance() {
                        Ok(()) => {},
                        Err(e) => { return Err(e); },
                    }
                } else {
                    return Err(fail_with_token(FailKind::Reported, "Unexpected token when parsing constructor: ", &cur, &cur));
                }
                let node = Node::new(NodeType::Constructor(class.name.clone(), Box::new(params), Box::new(initlist), Box::new(body), state.filepath.clone(), tl, tc));
                let ghost g0 = state.globals@;
                state.globals.push(node);
                proof {
                    assert(constructs(state.globals@[g0.len() as int], cname));
                    assert(declared_constructor(state.globals@[g0.len() as int], cname));
                    assert(state.globals@.subrange(0, s0.globals@.len() as int) =~= g0.subrange(0, s0.globals@.len() as int));
                    if got_constructor {
                        let i = choose|i: int| s0.globals@.len() <= i < g0.len() && constructs(#[trigger] g0[i], cname);
                        assert(state.globals@[i] == g0[i]);
                    }
                }
                got_constructor = true;
            } else {
                let t2 = reader.next();
                let k2 = t2.kind();
                if k2 == TokKind::Name {
                    let fieldname = t2.text();
                    let (fl, fc) = t2.find_token_position();
                    match reader.advance() {
                        Ok(()) => {},
                        Err(e) => { return Err(e); },
                    }
                    let t3 = reader.tok();
                    let k3 = t3.kind();
                    if k3 == TokKind::Paren1 {
                        let params = match paramlist(reader, false) {
                            Ok(p) => p,
                            Err(e) => { return Err(e); },
                        };
                        match reader.skip("{") {
                            Ok(()) => {},
                            Err(e) => { return Err(e); },
                        }
                        let body = match block(reader, state.filepath.as_str()) {
                            Ok(n) => n,
                            Err(e) => { return Err(e); },
                        };
                        let args = match method_params(&params) {
                            Ok(a) => a,
                            Err(e) => { return Err(e); },
                        };
                        let m = Object::Function(fieldname.clone(), state.filepath.clone(), body, args);
                        class.add_method(fieldname, m);
                    } else if k3 == TokKind::EndSt {
                        match reader.advance() {
                            Ok(()) => {},
                            Err(e) => { return Err(e); },
                        }
                        class.add_field(mtype, fieldname, Node::new(NodeType::Null(fl, fc)));
                    } else if k3 == TokKind::Assign {
                        match reader.advance() {
                            Ok(()) => {},
                            Err(e) => { return Err(e); },
                        }
                        let val = match expression(reader, state.filepath.as_str()) {
                            Ok(n) => n,
                            Err(e) => { return Err(e); },
                        };
                        match reader.skip(";") {
                            Ok(()) => {},
                            Err(e) => { return Err(e); },
                        }
                        class.add_field(mtype, fieldname, val);
                    } else if k3 == TokKind::Block2 {
                        done = true;
                    } else {
                        let mut e = fail_with_token(FailKind::Panicked, "Unexpected token when parsing class member: '", &t3, &t3);
                        e.msg.append("'");
                        return Err(e);
                    }
                } else if k2 == TokKind::Get {
                    match reader.advance() {
                        Ok(()) => {},
                        Err(e) => { return Err(e); },
                    }
                    let t3 = reader.tok();
                    if t3.kind() == TokKind::Name {
                        let gname = t3.text();
                        match reader.advance() {
                            Ok(()) => {},
                            Err(e) => { return Err(e); },
                        }
                        match reader.skip("{") {
                            Ok(()) => {},
                            Err(e) => { return Err(e); },
                        }
                        let body = match block(reader, state.filepath.as_str()) {
                            Ok(n) => n,
                            Err(e) => { return Err(e); },
                        };
                        let g = Object::Function(gname.clone(), state.filepath.clone(), body, Vec::new());
                        class.add_getter(gname, g);
                    } else {
                        return Err(fail(FailKind::Reported, String::from_str("Expected name after 'get'"), &t3));
                    }
                } else if k2 == TokKind::Block2 {
                    done = true;
                } else {
                    let mut e = fail_with_token(FailKind::Panicked, "Expected class member declaration. Got: '", &t2, &t2);
                    e.msg.append("'");
                    return Err(e);
                }
            }
        } else if k == TokKind::Block2 {
            done = true;
        } else {
            return Err(fail_with_token(FailKind::Panicked, "Unexpected first token when parsing class member: ", &t, &t));
        }
    }
    if !got_constructor {
        let l = reader.linenum();
        let c = reader.symnum();
        let mut node = Node::new(NodeType::Constructor(
            class.name.clone(),
            Box::new(Node::new(NodeType::Null(l, c))),
            Box::new(Node::new(NodeType::Null(l, c))),
            Box::new(Node::new(NodeType::Null(l, c))),
            state.filepath.clone(),
            0,
            0,
        ));
        push_child(&mut node, Node::new(NodeType::ParamList(0, 0)));
        push_child(&mut node, Node::new(NodeType::Null(0, 0)));
        let ghost g0 = state.globals@;
        state.globals.push(node);
        proof {
            assert(constructs(state.globals@[g0.len() as int], cname));
            assert(implicit_constructor(state.globals@.last(), cname));
            assert(state.globals@.subrange(0, s0.globals@.len() as int) =~= g0.subrange(0, s0.globals@.len() as int));
        }
    }
    Ok(())
}

/// A node that stands for a method's parameter: a plain or a typed name.
pub open spec fn is_param_node(n: NodeV) -> bool {
    n.ty.kind == NodeKind::Name || n.ty.kind == NodeKind::TypedVar
}

/// The type and name of the parameter that node `n` stands for: a plain
/// name has the type `var`.
pub open spec fn param_of(n: NodeV) -> (Seq<char>, Seq<char>) {
    if n.ty.kind == NodeKind::Name { ("var"@, n.ty.strs[0]) } else { (n.ty.strs[0], n.ty.strs[1]) }
}

/// The parameters of a method, from the parameter list node `params`:
/// untyped ones get the type `var`.
fn method_params(params: &Node) -> (r: Result<Vec<ParamObj>, ParseError>)
    ensures
        r is Ok <==> forall|i: int| 0 <= i < params.children@.len() ==> is_param_node(#[trigger] params.children@[i].view()),
        r matches Ok(v) ==> v@.len() == params.children@.len() && forall|i: int| 0 <= i < v@.len() ==> {
            &&& (#[trigger] v@[i]).typ@ == param_of(params.children@[i].view()).0
            &&& v@[i].name@ == param_of(params.children@[i].view()).1
            &&& !v@[i].fieldinit
        },
{
    let mut args: Vec<ParamObj> = Vec::new();
    let mut i: usize = 0;
    while i < params.children.len()
        invariant
            i <= params.children@.len(),
            args@.len() == i,
            forall|j: int| 0 <= j < i ==> is_param_node(#[trigger] params.children@[j].view()),
            forall|j: int| 0 <= j < i ==> {
                &&& (#[trigger] args@[j]).typ@ == param_of(params.children@[j].view()).0
                &&& args@[j].name@ == param_of(params.children@[j].view()).1
                &&& !args@[j].fieldinit
            },
        decreases params.children@.len() - i,
    {
        let p = &params.children[i];
        proof { lemma_node_view(p.nodetype, p.children); }
        match &p.nodetype {
            NodeType::Name(s, _, _) => {
                args.push(ParamObj { typ: String::from_str("var"), name: s.clone(), fieldinit: false });
            },
            NodeType::TypedVar(t, s, _, _) => {
                args.push(ParamObj { typ: t.clone(), name: s.clone(), fieldinit: false });
            },
            x => {
                let (line, col) = x.position();
                return Err(ParseError {
                    kind: FailKind::Panicked,
                    msg: String::from_str("Invalid parameter: "),
                    culprit: Some(Node::new(x.duplicate())),
                    line,
                    col,
                });
            },
        }
        i = i + 1;
    }
    Ok(args)
}

/// The node kinds a parameter list may hold: plain and typed names, and,
/// in a constructor, `this.name`.
pub open spec fn param_kind(k: NodeKind, is_constructor: bool) -> bool {
    k == NodeKind::Name || k == NodeKind::TypedVar || (is_constructor && k == NodeKind::ThisFieldInit)
}

/// Every child of `n` is a parameter.
pub open spec fn params_ok(ch: Seq<NodeV>, is_constructor: bool) -> bool {
    forall|i: int| 0 <= i < ch.len() ==> param_kind((#[trigger] ch[i]).ty.kind, is_constructor)
}

/// At `p` stands the parameter list `( this . name )`, with a token after it.
pub open spec fn this_field_param(ts: Seq<TokenV>, p: int) -> bool {
    &&& 0 <= p
    &&& ts[p].kind == TokKind::Paren1
    &&& more_at(ts, p + 4)
    &&& ts[p + 1].kind == TokKind::This
    &&& crate::reader::skip_spec(ts, p + 2, "."@) == Ok::<int, crate::reader::PErr>(p + 3)
    &&& ts[p + 3].kind == TokKind::Name
    &&& ts[p + 4].kind == TokKind::Paren2
}

/// The `this.name` parameter node of the name token `t`.
pub open spec fn this_init(t: TokenV) -> NodeV {
    NodeV { ty: tyv(NodeKind::ThisFieldInit, seq![t.text], t), children: seq![] }
}

/// Reads a parenthesised parameter list. Only a constructor's list may
/// hold `this.name` parameters.
#[verifier::rlimit(40)]
fn paramlist(reader: &mut Reader, is_constructor: bool) -> (r: Result<Node, ParseError>)
    requires
        old(reader).pos_spec() < old(reader).toks().len(),
    ensures
        moved(*old(reader), *final(reader), r is Ok),
        r is Ok ==> old(reader).pos_spec() < final(reader).pos_spec(),
        r matches Ok(n) ==> n.view().ty == tyv(NodeKind::ParamList, seq![], old(reader).current())
            && params_ok(n.view().children, is_constructor),
        old(reader).current().kind != TokKind::Paren1 ==> r is Err,
        old(reader).current().kind == TokKind::Paren1 && more_at(old(reader).toks(), old(reader).pos_spec() as int + 1) && old(reader).toks()[old(reader).pos_spec() as int + 1].kind == TokKind::Paren2
            ==> gives(r, final(reader).pos_spec(), Ok((NodeV { ty: tyv(NodeKind::ParamList, seq![], old(reader).current()), children: seq![] }, old(reader).pos_spec() as int + 2))),
        old(reader).current().kind == TokKind::Paren1 && more_at(old(reader).toks(), old(reader).pos_spec() as int + 1) && old(reader).toks()[old(reader).pos_spec() as int + 1].kind == TokKind::This && !is_constructor
            ==> (r matches Err(x) && x@ == crate::reader::fail_at(FailKind::Reported,
                "Initializing formal parameters can only be used in constructors"@, old(reader).toks()[old(reader).pos_spec() as int + 1])),
        is_constructor && this_field_param(old(reader).toks(), old(reader).pos_spec() as int)
            ==> gives(r, final(reader).pos_spec(), Ok((NodeV { ty: tyv(NodeKind::ParamList, seq![], old(reader).current()),
                children: seq![this_init(old(reader).toks()[old(reader).pos_spec() as int + 3])] }, old(reader).pos_spec() as int + 5))),
{
    let t = reader.tok();
    if t.kind() != TokKind::Paren1 {
        return Err(fail(FailKind::Reported, String::from_str("Expected parameter list after constructor declaration."), &t));
    }
    let (l, c) = t.find_token_position();
    let mut children: Vec<Node> = Vec::new();
    let mut expect_comma = false;
    match reader.advance() {
        Ok(()) => {},
        Err(e) => { return Err(e); },
    }
    while reader.more()
        invariant
            moved(*old(reader), *reader, true),
            old(reader).pos_spec() < reader.pos_spec(),
            params_ok(nodes_view(children@), is_constructor),
            t.view() == old(reader).current(),
            old(reader).current().kind == TokKind::Paren1,
            l as nat == old(reader).current().line,
            c as nat == old(reader).current().col,
            more_at(old(reader).toks(), old(reader).pos_spec() as int + 1) && old(reader).toks()[old(reader).pos_spec() as int + 1].kind == TokKind::Paren2
                ==> reader.pos_spec() == old(reader).pos_spec() + 1 && children@.len() == 0,
            more_at(old(reader).toks(), old(reader).pos_spec() as int + 1) && old(reader).toks()[old(reader).pos_spec() as int + 1].kind == TokKind::This && !is_constructor
                ==> reader.pos_spec() == old(reader).pos_spec() + 1,
            is_constructor && this_field_param(old(reader).toks(), old(reader).pos_spec() as int)
                ==> (reader.pos_spec() == old(reader).pos_spec() + 1 && children@.len() == 0 && !expect_comma)
                || (reader.pos_spec() == old(reader).pos_spec() + 4 && expect_comma
                    && nodes_view(children@) == seq![this_init(old(reader).toks()[old(reader).pos_spec() as int + 3])]),
        decreases left_to_read(*reader, false),
    {
        let cur = reader.tok();
        let k = cur.kind();
        if k == TokKind::Paren2 {
            reader.next();
            let node = Node { nodetype: NodeType::ParamList(l, c), children };
            proof {
                lemma_node_view(node.nodetype, node.children);
                if node.children@.len() == 0 {
                    assert(node.view().children =~= Seq::<NodeV>::empty());
                }
            }
            return Ok(node);
        } else if k == TokKind::This {
            if !is_constructor {
                return Err(fail(FailKind::Reported, String::from_str("Initializing formal parameters can only be used in constructors"), &cur));
            }
            reader.next();
            match reader.skip(".") {
                Ok(()) => {},
                Err(e) => { return Err(e); },
            }
            let t2 = reader.tok();
            if t2.kind() != TokKind::Name {
                return Err(fail_with_token(FailKind::Reported, "Expected identifier. Got ", &t2, &t2));
            }
            let (nl, nc) = t2.find_token_position();
            let n = Node::new(NodeType::ThisFieldInit(t2.text(), nl, nc));
            proof { lemma_nodes_push(children@, n); }
            children.push(n);
            proof {
                if is_constructor && this_field_param(old(reader).toks(), old(reader).pos_spec() as int) {
                    assert(nodes_view(children@) =~= seq![this_init(old(reader).toks()[old(reader).pos_spec() as int + 3])]);
                }
            }
            expect_comma = true;
            match reader.advance() {
                Ok(()) => {},
                Err(e) => { return Err(e); },
            }
        } else if k == TokKind::Comma {
            if !expect_comma {
                return Err(fail(FailKind::Reported, String::from_str("Expected an identifier, but got ','."), &cur));
            }
            reader.next();
            expect_comma = false;
        } else if k == TokKind::Name {
            let t2 = reader.peek();
            if t2.kind() == TokKind::Name {
                reader.next();
                let (nl, nc) = t2.find_token_position();
                let n = Node::new(NodeType::TypedVar(cur.text(), t2.text(), nl, nc));
                proof { lemma_nodes_push(children@, n); }
                children.push(n);
                expect_comma = true;
                match reader.advance() {
                    Ok(()) => {},
                    Err(e) => { return Err(e); },
                }
            } else {
                let (nl, nc) = cur.find_token_position();
                let n = Node::new(NodeType::Name(cur.text(), nl, nc));
                proof { lemma_nodes_push(children@, n); }
                children.push(n);
                expect_comma = true;
                reader.next();
            }
        } else {
            return Err(fail_with_token(FailKind::Panicked, "Unexpected token when reading parameters: ", &cur, &cur));
        }
    }
    let cur = reader.tok();
    Err(fail(FailKind::Panicked, String::from_str("Error when reading param list."), &cur))
}

/// The shape of an initializer list's entries: `name = value` initializers,
/// and at most one `super(...)` call, which comes last.
pub open spec fn initializers_ok(ch: Seq<NodeV>) -> bool {
    &&& forall|i: int| 0 <= i < ch.len() ==>
        (#[trigger] ch[i]).ty.kind == NodeKind::Initializer || ch[i].ty.kind == NodeKind::Super
    &&& forall|i: int| 0 <= i < ch.len() - 1 ==> (#[trigger] ch[i]).ty.kind == NodeKind::Initializer
}

/// Reads a constructor's initializer list, from the `:` before it to the
/// `;` after it.
#[verifier::rlimit(60)]
fn initializer_list(reader: &mut Reader, file: &str) -> (r: Result<Node, ParseError>)
    requires
        old(reader).pos_spec() < old(reader).toks().len(),
    ensures
        moved(*old(reader), *final(reader), r is Ok),
        r is Ok ==> old(reader).pos_spec() < final(reader).pos_spec(),
        r matches Ok(n) ==> n.view().ty == tyv(NodeKind::InitList, seq![], old(reader).current())
            && n.view().children.len() > 0
            && initializers_ok(n.view().children),
{
    let l = reader.linenum();
    let c = reader.symnum();
    let start = reader.tok();
    let mut children: Vec<Node> = Vec::new();
    let mut got_super = false;
    let mut expect_comma = false;
    let mut done = false;
    match reader.advance() {
        Ok(()) => {},
        Err(e) => { return Err(e); },
    }
    while !done && reader.more()
        invariant
            moved(*old(reader), *reader, true),
            old(reader).pos_spec() < reader.pos_spec(),
            initializers_ok(nodes_view(children@)),
            got_super <==> (children@.len() > 0 && nodes_view(children@).last().ty.kind == NodeKind::Super),
            l as nat == old(reader).current().line,
            c as nat == old(reader).current().col,
        decreases left_to_read(*reader, done),
    {
        let cur = reader.tok();
        let k = cur.kind();
        if k == TokKind::Name {
            if got_super {
                return Err(fail(FailKind::Reported, String::from_str("The superconstructor call must be last in the initializer list"), &cur));
            }
            if expect_comma {
                return Err(fail(FailKind::Reported, String::from_str("Expected separator, got: '{}'"), &cur));
            }
            let name_node = Node::new(NodeType::Name(cur.text(), reader.linenum(), reader.pos()));
            reader.next();
            match reader.skip("=") {
                Ok(()) => {},
                Err(e) => { return Err(e); },
            }
            let val = match expression(reader, file) {
                Ok(v) => v,
                Err(e) => { return Err(e); },
            };
            let mut init = Node::new(NodeType::Initializer(reader.linenum(), reader.symnum()));
            push_child(&mut init, name_node);
            push_child(&mut init, val);
            proof { lemma_nodes_push(children@, init); }
            children.push(init);
            expect_comma = true;
        } else if k == TokKind::Super {
            if got_super {
                return Err(fail(FailKind::Reported, String::from_str("Unexpected superconstructor call"), &cur));
            }
            if expect_comma {
                return Err(fail(FailKind::Reported, String::from_str("Expected separator, got: '{}'"), &cur));
            }
            got_super = true;
            let mut super_node = Node::new(NodeType::Super(reader.linenum(), reader.symnum()));
            match reader.advance() {
                Ok(()) => {},
                Err(e) => { return Err(e); },
            }
            let args = match arglist(reader, file) {
                Ok(a) => a,
                Err(e) => { return Err(e); },
            };
            push_child(&mut super_node, args);
            proof { lemma_nodes_push(children@, super_node); }
            children.push(super_node);
        } else if k == TokKind::Comma {
            if !expect_comma {
                return Err(fail(FailKind::Reported, String::from_str("Unexpected symbol: ','"), &cur));
            }
            reader.next();
            expect_comma = false;
        } else if k == TokKind::EndSt {
            reader.next();
            done = true;
        } else {
            return Err(fail_with_token(FailKind::Reported, "Unexpected token: ", &cur, &cur));
        }
    }
    if children.len() == 0 {
        return Err(fail(FailKind::Reported, String::from_str("Expected an initializer"), &start));
    }
    let node = Node { nodetype: NodeType::InitList(l, c), children };
    proof { lemma_node_view(node.nodetype, node.children); }
    Ok(node)
}

/// From `q`, after a condition: `) { }`. Gives the position of the token
/// after the `{`, where the empty block's node stands, and the position
/// after the `}`.
pub open spec fn close_empty_block(ts: Seq<TokenV>, q: int) -> Option<(int, int)> {
    match skip_spec(ts, q, ")"@) {
        Ok(q2) => match skip_spec(ts, q2, "{"@) {
            Ok(q3) => if ts[q3].kind == TokKind::Block2 && more_at(ts, q3) { Some((q3, q3 + 1)) } else { None },
            Err(_) => None,
        },
        Err(_) => None,
    }
}

/// From `p`: `( literal ) { }`. Gives the literal's node, the position of
/// the empty block and the position after it.
pub open spec fn guarded_empty(ts: Seq<TokenV>, p: int) -> Option<(NodeV, int, int)> {
    match skip_spec(ts, p, "("@) {
        Ok(p1) => if lone_literal(ts, p1) {
            match literal_spec(ts, p1) {
                Ok((n, q)) => match close_empty_block(ts, q) {
                    Some((b, e)) => Some((n, b, e)),
                    None => None,
                },
                Err(_) => None,
            }
        } else {
            None
        },
        Err(_) => None,
    }
}

/// The node of an empty block whose first token stands at `b`.
pub open spec fn empty_block(ts: Seq<TokenV>, b: int) -> NodeV {
    nodev(NodeKind::Block, ts[b], seq![])
}

/// The node of kind `k` for the keyword at `p` followed by
/// `( literal ) { }`, and the position after it.
#[verifier::opaque]
pub open spec fn guarded_node(k: NodeKind, ts: Seq<TokenV>, p: int) -> Option<(NodeV, int)> {
    match guarded_empty(ts, p + 1) {
        Some((n, b, e)) => Some((nodev(k, ts[p], seq![n, empty_block(ts, b)]), e)),
        None => None,
    }
}

/// The conditional with the one part `if ( literal ) { }` at `p`, and the
/// position after it.
pub open spec fn lone_conditional(ts: Seq<TokenV>, p: int) -> (NodeV, int) {
    let (n, e) = guarded_node(NodeKind::If, ts, p)->0;
    (nodev(NodeKind::Conditional, ts[p], seq![n]), e)
}

/// Reads the statements of a block, after its `{`, and the `}` that ends
/// it.
pub fn block(reader: &mut Reader, file: &str) -> (r: Result<Node, ParseError>)
    requires
        old(reader).pos_spec() < old(reader).toks().len(),
    ensures
        moved(*old(reader), *final(reader), r is Ok),
        r matches Ok(n) ==> n.view().ty == tyv(NodeKind::Block, seq![], old(reader).current()),
        !more_at(old(reader).toks(), old(reader).pos_spec() as int) || old(reader).current().kind == TokKind::End
            ==> gives(r, final(reader).pos_spec(), Ok((empty_block(old(reader).toks(), old(reader).pos_spec() as int), old(reader).pos_spec() as int))),
        more_at(old(reader).toks(), old(reader).pos_spec() as int) && old(reader).current().kind == TokKind::Block2
            ==> gives(r, final(reader).pos_spec(), Ok((empty_block(old(reader).toks(), old(reader).pos_spec() as int), old(reader).pos_spec() as int + 1))),
    decreases old(reader).toks().len() - old(reader).pos_spec(), 4int,
{
    let l = reader.linenum();
    let c = reader.symnum();
    let mut children: Vec<Node> = Vec::new();
    let mut done = false;
    while !done && reader.more()
        invariant
            moved(*old(reader), *reader, true),
            reader.toks() == old(reader).toks(),
            l as nat == old(reader).current().line,
            c as nat == old(reader).current().col,
            !more_at(old(reader).toks(), old(reader).pos_spec() as int) ==> children@.len() == 0 && reader.pos_spec() == old(reader).pos_spec(),
            old(reader).current().kind == TokKind::End ==> children@.len() == 0 && reader.pos_spec() == old(reader).pos_spec(),
            old(reader).current().kind == TokKind::Block2 ==> children@.len() == 0
                && reader.pos_spec() == old(reader).pos_spec() + (if done { 1int } else { 0int }),
        decreases left_to_read(*reader, done),
    {
        let k = reader.kind();
        if k == TokKind::Block2 {
            reader.next();
            done = true;
        } else if k == TokKind::End {
            done = true;
        } else if k == TokKind::EndSt {
            reader.next();
        } else {
            let snode = match statement(reader, file) {
                Ok(n) => n,
                Err(e) => { return Err(e); },
            };
            children.push(snode);
            if reader.kind() == TokKind::EndSt {
                match reader.advance() {
                    Ok(()) => {},
                    Err(e) => { return Err(e); },
                }
            }
        }
    }
    let node = Node { nodetype: NodeType::Block(l, c), children };
    proof {
        lemma_node_view(node.nodetype, node.children);
        if node.children@.len() == 0 {
            assert(node.view().children =~= Seq::<NodeV>::empty());
        }
    }
    Ok(node)
}

/// Reads `= value` after the assignment target `left`.
fn assign_help(left: Node, reader: &mut Reader, file: &str) -> (r: Result<Node, ParseError>)
    requires
        old(reader).pos_spec() < old(reader).toks().len(),
    ensures
        moved(*old(reader), *final(reader), r is Ok),
        r is Ok ==> old(reader).pos_spec() < final(reader).pos_spec(),
        r matches Ok(n) ==> n.view().ty == tyv(NodeKind::Assign, seq![], old(reader).current())
            && n.view().children.len() == 2 && n.view().children[0] == left.view(),
        more_at(old(reader).toks(), old(reader).pos_spec() as int) && lone_literal(old(reader).toks(), old(reader).pos_spec() as int + 1) ==> gives(r, final(reader).pos_spec(),
            match literal_spec(old(reader).toks(), old(reader).pos_spec() as int + 1) {
                Ok((n, q)) => Ok((NodeV { ty: tyv(NodeKind::Assign, seq![], old(reader).current()), children: seq![left.view(), n] }, q)),
                Err(e) => Err(e),
            }),
        more_at(old(reader).toks(), old(reader).pos_spec() as int) && chain_expression(old(reader).toks(), old(reader).pos_spec() as int + 1)
            ==> gives(r, final(reader).pos_spec(), Ok((NodeV { ty: tyv(NodeKind::Assign, seq![], old(reader).current()),
                children: seq![left.view(), (sum_result(old(reader).toks(), old(reader).pos_spec() as int + 1)->Ok_0).0] },
                (sum_result(old(reader).toks(), old(reader).pos_spec() as int + 1)->Ok_0).1))),
{
    let l = reader.linenum();
    let c = reader.symnum();
    match reader.advance() {
        Ok(()) => {},
        Err(e) => { return Err(e); },
    }
    let right = match expression(reader, file) {
        Ok(n) => n,
        Err(e) => { return Err(e); },
    };
    let ghost lv = left.view();
    let ghost rv = right.view();
    let mut node = Node::new(NodeType::Assign(l, c));
    push_child(&mut node, left);
    push_child(&mut node, right);
    assert(node.view().children =~= seq![lv, rv]);
    Ok(node)
}

/// Reads a statement: a declaration, an assignment, a conditional, a loop,
/// a return or an expression.
#[verifier::rlimit(80)]
pub fn statement(reader: &mut Reader, file: &str) -> (r: Result<Node, ParseError>)
    requires
        old(reader).pos_spec() < old(reader).toks().len(),
    ensures
        moved(*old(reader), *final(reader), r is Ok),
        r is Ok ==> advanced(*old(reader), *final(reader)),
        r matches Ok(n) ==> {
            &&& old(reader).current().kind == TokKind::If ==> n.view().ty == tyv(NodeKind::Conditional, seq![], old(reader).current())
            &&& old(reader).current().kind == TokKind::While ==> n.view().ty == tyv(NodeKind::While, seq![], old(reader).current())
                && n.view().children.len() == 2
            &&& old(reader).current().kind == TokKind::Do ==> n.view().ty == tyv(NodeKind::DoWhile, seq![], old(reader).current())
                && n.view().children.len() == 2
            &&& old(reader).current().kind == TokKind::For ==> n.view().ty == tyv(NodeKind::For, seq![], old(reader).current())
            &&& old(reader).current().kind == TokKind::Return ==> n.view().ty == tyv(NodeKind::Return, seq![], old(reader).current())
                && n.view().children.len() == 1
        },
        lone_literal(old(reader).toks(), old(reader).pos_spec() as int) ==> gives(r, final(reader).pos_spec(), literal_spec(old(reader).toks(), old(reader).pos_spec() as int)),
        old(reader).current().kind == TokKind::Return && more_at(old(reader).toks(), old(reader).pos_spec() as int) && lone_literal(old(reader).toks(), old(reader).pos_spec() as int + 1)
            ==> gives(r, final(reader).pos_spec(), match literal_spec(old(reader).toks(), old(reader).pos_spec() as int + 1) {
                Ok((n, q)) => Ok((nodev(NodeKind::Return, old(reader).current(), seq![n]), q)),
                Err(e) => Err(e),
            }),
        old(reader).current().kind == TokKind::While && more_at(old(reader).toks(), old(reader).pos_spec() as int) && guarded_node(NodeKind::While, old(reader).toks(), old(reader).pos_spec() as int) is Some
            ==> gives(r, final(reader).pos_spec(), Ok(guarded_node(NodeKind::While, old(reader).toks(), old(reader).pos_spec() as int)->0)),
        old(reader).current().kind == TokKind::If && more_at(old(reader).toks(), old(reader).pos_spec() as int) && guarded_node(NodeKind::If, old(reader).toks(), old(reader).pos_spec() as int) is Some
            && old(reader).toks()[(guarded_node(NodeKind::If, old(reader).toks(), old(reader).pos_spec() as int)->0).1].kind != TokKind::Else
            ==> gives(r, final(reader).pos_spec(), Ok(lone_conditional(old(reader).toks(), old(reader).pos_spec() as int))),
        old(reader).current().kind == TokKind::Name && more_at(old(reader).toks(), old(reader).pos_spec() as int) && old(reader).toks()[old(reader).pos_spec() as int + 1].kind == TokKind::Name
            && more_at(old(reader).toks(), old(reader).pos_spec() as int + 1) && old(reader).toks()[old(reader).pos_spec() as int + 2].kind == TokKind::Assign && more_at(old(reader).toks(), old(reader).pos_spec() as int + 2) && lone_literal(old(reader).toks(), old(reader).pos_spec() as int + 3)
            ==> gives(r, final(reader).pos_spec(), match literal_spec(old(reader).toks(), old(reader).pos_spec() as int + 3) {
                Ok((n, q)) => Ok((NodeV { ty: tyv(NodeKind::Assign, seq![], old(reader).toks()[old(reader).pos_spec() as int + 2]), children: seq![typed_var_at(old(reader).toks(), old(reader).pos_spec() as int), n] }, q)),
                Err(e) => Err(e),
            }),
        old(reader).current().kind == TokKind::Name && more_at(old(reader).toks(), old(reader).pos_spec() as int) && old(reader).toks()[old(reader).pos_spec() as int + 1].kind == TokKind::Assign
            && more_at(old(reader).toks(), old(reader).pos_spec() as int + 1) && lone_literal(old(reader).toks(), old(reader).pos_spec() as int + 2)
            ==> gives(r, final(reader).pos_spec(), match literal_spec(old(reader).toks(), old(reader).pos_spec() as int + 2) {
                Ok((n, q)) => Ok((NodeV { ty: tyv(NodeKind::Assign, seq![], old(reader).toks()[old(reader).pos_spec() as int + 1]), children: seq![named(old(reader).current(), seq![]), n] }, q)),
                Err(e) => Err(e),
            }),
        old(reader).current().kind == TokKind::Name && more_at(old(reader).toks(), old(reader).pos_spec() as int) && old(reader).toks()[old(reader).pos_spec() as int + 1].kind == TokKind::Name
            && more_at(old(reader).toks(), old(reader).pos_spec() as int + 1) && old(reader).toks()[old(reader).pos_spec() as int + 2].kind == TokKind::Assign && more_at(old(reader).toks(), old(reader).pos_spec() as int + 2)
            && chain_expression(old(reader).toks(), old(reader).pos_spec() as int + 3)
            ==> gives(r, final(reader).pos_spec(), Ok((NodeV { ty: tyv(NodeKind::Assign, seq![], old(reader).toks()[old(reader).pos_spec() as int + 2]),
                children: seq![typed_var_at(old(reader).toks(), old(reader).pos_spec() as int), (sum_result(old(reader).toks(), old(reader).pos_spec() as int + 3)->Ok_0).0] },
                (sum_result(old(reader).toks(), old(reader).pos_spec() as int + 3)->Ok_0).1))),
        old(reader).current().kind == TokKind::Name && more_at(old(reader).toks(), old(reader).pos_spec() as int) && old(reader).toks()[old(reader).pos_spec() as int + 1].kind == TokKind::Assign
            && more_at(old(reader).toks(), old(reader).pos_spec() as int + 1) && chain_expression(old(reader).toks(), old(reader).pos_spec() as int + 2)
            ==> gives(r, final(reader).pos_spec(), Ok((NodeV { ty: tyv(NodeKind::Assign, seq![], old(reader).toks()[old(reader).pos_spec() as int + 1]),
                children: seq![named(old(reader).current(), seq![]), (sum_result(old(reader).toks(), old(reader).pos_spec() as int + 2)->Ok_0).0] },
                (sum_result(old(reader).toks(), old(reader).pos_spec() as int + 2)->Ok_0).1))),
    decreases old(reader).toks().len() - old(reader).pos_spec(), 3int,
{
    proof { lemma_lone_literal(reader.toks(), reader.pos_spec() as int); }
    let t = reader.tok();
    let k = t.kind();
    let (l, c) = t.find_token_position();
    if k == TokKind::Name {
        if !reader.more() {
            return Err(fail(FailKind::Panicked, String::from_str("Unexpected end of input."), &t));
        }
        let t2 = reader.peek();
        let k2 = t2.kind();
        if k2 == TokKind::Name {
            let (l2, c2) = t2.find_token_position();
            let typed_var = Node::new(NodeType::TypedVar(t.text(), t2.text(), l2, c2));
            reader.next();
            match reader.advance() {
                Ok(()) => {},
                Err(e) => { return Err(e); },
            }
            let k3 = reader.kind();
            if k3 == TokKind::Assign {
                assign_help(typed_var, reader, file)
            } else if k3 == TokKind::Paren1 {
                let params = match paramlist(reader, false) {
                    Ok(p) => p,
                    Err(e) => { return Err(e); },
                };
                match reader.skip("{") {
                    Ok(()) => {},
                    Err(e) => { return Err(e); },
                }
                let body = match block(reader, file) {
                    Ok(b) => b,
                    Err(e) => { return Err(e); },
                };
                let mut funcnode = Node::new(NodeType::FunDef(t.text(), t2.text(), String::from_str(file), l2, c2));
                push_child(&mut funcnode, params);
                push_child(&mut funcnode, body);
                Ok(funcnode)
            } else {
                let t3 = reader.tok();
                Err(fail_with_token(FailKind::Panicked, "Unexpected token: ", &t3, &t3))
            }
        } else if k2 == TokKind::Access || k2 == TokKind::Brack1 {
            reader.next();
            let owner = Node::new(NodeType::Name(t.text(), l, c));
            let left = match access_help(reader, owner, file) {
                Ok(n) => n,
                Err(e) => { return Err(e); },
            };
            if reader.kind() == TokKind::Assign {
                assign_help(left, reader, file)
            } else {
                Ok(left)
            }
        } else if k2 == TokKind::Assign {
            reader.next();
            let left = Node::new(NodeType::Name(t.text(), l, c));
            assign_help(left, reader, file)
        } else {
            expression(reader, file)
        }
    } else if k == TokKind::If {
        if_statement(reader, file)
    } else if k == TokKind::While {
        while_statement(reader, file)
    } else if k == TokKind::Do {
        match reader.advance() {
            Ok(()) => {},
            Err(e) => { return Err(e); },
        }
        match reader.skip("{") {
            Ok(()) => {},
            Err(e) => { return Err(e); },
        }
        let blocknode = match block(reader, file) {
            Ok(n) => n,
            Err(e) => { return Err(e); },
        };
        match reader.skip("while") {
            Ok(()) => {},
            Err(e) => { return Err(e); },
        }
        match reader.skip("(") {
            Ok(()) => {},
            Err(e) => { return Err(e); },
        }
        let boolexpr = match expression(reader, file) {
            Ok(n) => n,
            Err(e) => { return Err(e); },
        };
        match reader.skip(")") {
            Ok(()) => {},
            Err(e) => { return Err(e); },
        }
        let mut node = Node::new(NodeType::DoWhile(l, c));
        push_child(&mut node, blocknode);
        push_child(&mut node, boolexpr);
        Ok(node)
    } else if k == TokKind::For {
        for_statement(reader, file)
    } else if k == TokKind::Return {
        match reader.advance() {
            Ok(()) => {},
            Err(e) => { return Err(e); },
        }
        let val = match expression(reader, file) {
            Ok(n) => n,
            Err(e) => { return Err(e); },
        };
        let ghost vv = val.view();
        let mut node = Node::new(NodeType::Return(l, c));
        push_child(&mut node, val);
        assert(node.view().children =~= seq![vv]);
        Ok(node)
    } else {
        expression(reader, file)
    }
}

/// Reads a conditional: its `if` part and the `else if` and `else` parts
/// after it.
fn if_statement(reader: &mut Reader, file: &str) -> (r: Result<Node, ParseError>)
    requires
        old(reader).pos_spec() < old(reader).toks().len(),
        old(reader).current().kind == TokKind::If,
    ensures
        moved(*old(reader), *final(reader), r is Ok),
        r is Ok ==> old(reader).pos_spec() < final(reader).pos_spec(),
        r matches Ok(n) ==> n.view().ty == tyv(NodeKind::Conditional, seq![], old(reader).current()),
        more_at(old(reader).toks(), old(reader).pos_spec() as int) && guarded_node(NodeKind::If, old(reader).toks(), old(reader).pos_spec() as int) is Some
            && old(reader).toks()[(guarded_node(NodeKind::If, old(reader).toks(), old(reader).pos_spec() as int)->0).1].kind != TokKind::Else
            ==> gives(r, final(reader).pos_spec(), Ok(lone_conditional(old(reader).toks(), old(reader).pos_spec() as int))),
    decreases old(reader).toks().len() - old(reader).pos_spec(), 2int,
{
    let t = reader.tok();
    let (l, c) = t.find_token_position();
    let mut parts: Vec<Node> = Vec::new();
    let first = match conditional(reader, file) {
        Ok(n) => n,
        Err(e) => { return Err(e); },
    };
    let ghost lone = more_at(old(reader).toks(), old(reader).pos_spec() as int) && guarded_node(NodeKind::If, old(reader).toks(), old(reader).pos_spec() as int) is Some
        && old(reader).toks()[(guarded_node(NodeKind::If, old(reader).toks(), old(reader).pos_spec() as int)->0).1].kind != TokKind::Else;
    let ghost fv = first.view();
    parts.push(first);
    while reader.kind() == TokKind::Else
        invariant
            moved(*old(reader), *reader, true),
            old(reader).pos_spec() < reader.pos_spec(),
            reader.toks() == old(reader).toks(),
            lone == (more_at(old(reader).toks(), old(reader).pos_spec() as int) && guarded_node(NodeKind::If, old(reader).toks(), old(reader).pos_spec() as int) is Some
                && old(reader).toks()[(guarded_node(NodeKind::If, old(reader).toks(), old(reader).pos_spec() as int)->0).1].kind != TokKind::Else),
            lone ==> fv == (guarded_node(NodeKind::If, old(reader).toks(), old(reader).pos_spec() as int)->0).0,
            lone ==> parts@.len() == 1 && parts@[0].view() == fv
                && reader.pos_spec() == (guarded_node(NodeKind::If, old(reader).toks(), old(reader).pos_spec() as int)->0).1,
        decreases reader.toks().len() - reader.pos_spec(),
    {
        let next = match conditional(reader, file) {
            Ok(n) => n,
            Err(e) => { return Err(e); },
        };
        parts.push(next);
    }
    let node = Node { nodetype: NodeType::Conditional(l, c), children: parts };
    proof {
        lemma_node_view(node.nodetype, node.children);
        if lone {
            assert(node.view().children =~= seq![fv]);
        }
    }
    Ok(node)
}

/// Reads a `while` loop.
fn while_statement(reader: &mut Reader, file: &str) -> (r: Result<Node, ParseError>)
    requires
        old(reader).pos_spec() < old(reader).toks().len(),
        old(reader).current().kind == TokKind::While,
    ensures
        moved(*old(reader), *final(reader), r is Ok),
        r is Ok ==> old(reader).pos_spec() < final(reader).pos_spec(),
        r matches Ok(n) ==> n.view().ty == tyv(NodeKind::While, seq![], old(reader).current()) && n.view().children.len() == 2,
        more_at(old(reader).toks(), old(reader).pos_spec() as int) && guarded_node(NodeKind::While, old(reader).toks(), old(reader).pos_spec() as int) is Some
            ==> gives(r, final(reader).pos_spec(), Ok(guarded_node(NodeKind::While, old(reader).toks(), old(reader).pos_spec() as int)->0)),
    decreases old(reader).toks().len() - old(reader).pos_spec(), 2int,
{
    proof { reveal(guarded_node); }
    let t = reader.tok();
    let (l, c) = t.find_token_position();
    match reader.advance() {
        Ok(()) => {},
        Err(e) => { return Err(e); },
    }
    match reader.skip("(") {
        Ok(()) => {},
        Err(e) => { return Err(e); },
    }
    let boolexpr = match expression(reader, file) {
        Ok(n) => n,
        Err(e) => { return Err(e); },
    };
    match reader.skip(")") {
        Ok(()) => {},
        Err(e) => { return Err(e); },
    }
    match reader.skip("{") {
        Ok(()) => {},
        Err(e) => { return Err(e); },
    }
    let blocknode = match block(reader, file) {
        Ok(n) => n,
        Err(e) => { return Err(e); },
    };
    let ghost bv = boolexpr.view();
    let ghost kv = blocknode.view();
    let mut node = Node::new(NodeType::While(l, c));
    push_child(&mut node, boolexpr);
    push_child(&mut node, blocknode);
    assert(node.view().children =~= seq![bv, kv]);
    Ok(node)
}

/// The typed variable `T x` whose type and name tokens stand at `p` and
/// `p + 1`.
pub open spec fn typed_var_at(ts: Seq<TokenV>, p: int) -> NodeV {
    NodeV {
        ty: NodeTypeV { kind: NodeKind::TypedVar, strs: seq![ts[p].text, ts[p + 1].text], int_val: 0, flag: false,
            boxes: seq![], line: ts[p + 1].line, col: ts[p + 1].col },
        children: seq![],
    }
}

/// From the `for` at `p`: `for ( T x in literal ) { }`. Gives the loop's
/// node and the position after it.
#[verifier::opaque]
pub open spec fn for_in_empty(ts: Seq<TokenV>, p: int) -> Option<(NodeV, int)> {
    if !more_at(ts, p) {
        None
    } else {
        match skip_spec(ts, p + 1, "("@) {
            Ok(p1) => if ts[p1].kind == TokKind::Name && more_at(ts, p1) && ts[p1 + 1].kind == TokKind::Name
                && more_at(ts, p1 + 1) && ts[p1 + 2].kind == TokKind::In && more_at(ts, p1 + 2) && lone_literal(ts, p1 + 3) {
                match literal_spec(ts, p1 + 3) {
                    Ok((n, q)) => match close_empty_block(ts, q) {
                        Some((b, e)) => Some((nodev(NodeKind::For, ts[p], seq![typed_var_at(ts, p1), n, empty_block(ts, b)]), e)),
                        None => None,
                    },
                    Err(_) => None,
                }
            } else {
                None
            },
            Err(_) => None,
        }
    }
}

/// Reads a `for` loop: with an initializer, a condition and a step, or
/// over the elements of an iterable (`for (T x in xs)`).
#[verifier::rlimit(60)]
fn for_statement(reader: &mut Reader, file: &str) -> (r: Result<Node, ParseError>)
    requires
        old(reader).pos_spec() < old(reader).toks().len(),
    ensures
        moved(*old(reader), *final(reader), r is Ok),
        r is Ok ==> old(reader).pos_spec() < final(reader).pos_spec(),
        r matches Ok(n) ==> n.view().ty == tyv(NodeKind::For, seq![], old(reader).current()),
        for_in_empty(old(reader).toks(), old(reader).pos_spec() as int) is Some
            ==> gives(r, final(reader).pos_spec(), Ok(for_in_empty(old(reader).toks(), old(reader).pos_spec() as int)->0)),
    decreases old(reader).toks().len() - old(reader).pos_spec(), 1int,
{
    proof { reveal(for_in_empty); }
    let l = reader.linenum();
    let c = reader.symnum();
    match reader.advance() {
        Ok(()) => {},
        Err(e) => { return Err(e); },
    }
    match reader.skip("(") {
        Ok(()) => {},
        Err(e) => { return Err(e); },
    }
    let t = reader.tok();
    if t.kind() != TokKind::Name {
        return Err(fail(FailKind::Reported, String::from_str("Expected identifier."), &t));
    }
    let (nl, nc) = t.find_token_position();
    match reader.advance() {
        Ok(()) => {},
        Err(e) => { return Err(e); },
    }
    let t2 = reader.tok();
    let mut parts: Vec<Node> = Vec::new();
    if t2.kind() == TokKind::Name {
        let (nl2, nc2) = t2.find_token_position();
        match reader.advance() {
            Ok(()) => {},
            Err(e) => { return Err(e); },
        }
        let typvar = Node::new(NodeType::TypedVar(t.text(), t2.text(), nl2, nc2));
        let t3 = reader.tok();
        if t3.kind() == TokKind::Assign {
            let (al, ac) = t3.find_token_position();
            match reader.skip("=") {
                Ok(()) => {},
                Err(e) => { return Err(e); },
            }
            let initexpr = match expression(reader, file) {
                Ok(n) => n,
                Err(e) => { return Err(e); },
            };
            let mut assign = Node::new(NodeType::Assign(al, ac));
            push_child(&mut assign, typvar);
            push_child(&mut assign, initexpr);
            parts.push(assign);
        } else if t3.kind() == TokKind::In {
            match reader.advance() {
                Ok(()) => {},
                Err(e) => { return Err(e); },
            }
            let iterable = match expression(reader, file) {
                Ok(n) => n,
                Err(e) => { return Err(e); },
            };
            match reader.skip(")") {
                Ok(()) => {},
                Err(e) => { return Err(e); },
            }
            match reader.skip("{") {
                Ok(()) => {},
                Err(e) => { return Err(e); },
            }
            let body = match block(reader, file) {
                Ok(n) => n,
                Err(e) => { return Err(e); },
            };
            let ghost tv = typvar.view();
            let ghost iv = iterable.view();
            let ghost bv = body.view();
            parts.push(typvar);
            parts.push(iterable);
            parts.push(body);
            let node = Node { nodetype: NodeType::For(l, c), children: parts };
            proof {
                lemma_node_view(node.nodetype, node.children);
                assert(node.view().children =~= seq![tv, iv, bv]);
            }
            return Ok(node);
        } else {
            return Err(fail_with_token(FailKind::Reported, "Unexpected token in for-loop: ", &t3, &t3));
        }
    } else if t2.kind() == TokKind::Assign {
        let (al, ac) = t2.find_token_position();
        match reader.advance() {
            Ok(()) => {},
            Err(e) => { return Err(e); },
        }
        let initexpr = match expression(reader, file) {
            Ok(n) => n,
            Err(e) => { return Err(e); },
        };
        let mut assign = Node::new(NodeType::Assign(al, ac));
        push_child(&mut assign, Node::new(NodeType::Name(t.text(), nl, nc)));
        push_child(&mut assign, initexpr);
        parts.push(assign);
    } else {
        return Err(fail_with_token(FailKind::Reported, "Expected identifier or assignment. Got: ", &t2, &t2));
    }
    match reader.skip(";") {
        Ok(()) => {},
        Err(e) => { return Err(e); },
    }
    let condexpr = match expression(reader, file) {
        Ok(n) => n,
        Err(e) => { return Err(e); },
    };
    match reader.skip(";") {
        Ok(()) => {},
        Err(e) => { return Err(e); },
    }
    let mutexpr = match expression(reader, file) {
        Ok(n) => n,
        Err(e) => { return Err(e); },
    };
    match reader.skip(")") {
        Ok(()) => {},
        Err(e) => { return Err(e); },
    }
    match reader.skip("{") {
        Ok(()) => {},
        Err(e) => { return Err(e); },
    }
    let body = match block(reader, file) {
        Ok(n) => n,
        Err(e) => { return Err(e); },
    };
    parts.push(condexpr);
    parts.push(mutexpr);
    parts.push(body);
    let node = Node { nodetype: NodeType::For(l, c), children: parts };
    proof { lemma_node_view(node.nodetype, node.children); }
    Ok(node)
}

/// Reads one part of a conditional: `if (..) {..}`, `else if (..) {..}` or
/// `else {..}`.
fn conditional(reader: &mut Reader, file: &str) -> (r: Result<Node, ParseError>)
    requires
        old(reader).pos_spec() < old(reader).toks().len(),
    ensures
        moved(*old(reader), *final(reader), r is Ok),
        r is Ok ==> old(reader).pos_spec() < final(reader).pos_spec(),
        r matches Ok(n) ==> (n.view().ty.kind == NodeKind::If || n.view().ty.kind == NodeKind::ElseIf) && n.view().children.len() == 2
            || n.view().ty.kind == NodeKind::Else && n.view().children.len() == 1,
        r matches Ok(n) ==> (n.view().ty.kind == NodeKind::If <==> old(reader).current().kind == TokKind::If),
        old(reader).current().kind == TokKind::If && more_at(old(reader).toks(), old(reader).pos_spec() as int) && guarded_node(NodeKind::If, old(reader).toks(), old(reader).pos_spec() as int) is Some
            ==> gives(r, final(reader).pos_spec(), Ok(guarded_node(NodeKind::If, old(reader).toks(), old(reader).pos_spec() as int)->0)),
    decreases old(reader).toks().len() - old(reader).pos_spec(), 1int,
{
    proof { reveal(guarded_node); }
    let t = reader.tok();
    let k = t.kind();
    let (l, c) = t.find_token_position();
    if k == TokKind::If {
        match reader.advance() {
            Ok(()) => {},
            Err(e) => { return Err(e); },
        }
        match reader.skip("(") {
            Ok(()) => {},
            Err(e) => { return Err(e); },
        }
        let boolnode = match expression(reader, file) {
            Ok(n) => n,
            Err(e) => { return Err(e); },
        };
        match reader.skip(")") {
            Ok(()) => {},
            Err(e) => { return Err(e); },
        }
        match reader.skip("{") {
            Ok(()) => {},
            Err(e) => { return Err(e); },
        }
        let bodynode = match block(reader, file) {
            Ok(n) => n,
            Err(e) => { return Err(e); },
        };
        let ghost bv = boolnode.view();
        let ghost kv = bodynode.view();
        let mut node = Node::new(NodeType::If(l, c));
        push_child(&mut node, boolnode);
        push_child(&mut node, bodynode);
        assert(node.view().children =~= seq![bv, kv]);
        Ok(node)
    } else if k == TokKind::Else {
        match reader.advance() {
            Ok(()) => {},
            Err(e) => { return Err(e); },
        }
        let t2 = reader.tok();
        let k2 = t2.kind();
        if k2 == TokKind::If {
            let (l2, c2) = t2.find_token_position();
            match reader.advance() {
                Ok(()) => {},
                Err(e) => { return Err(e); },
            }
            match reader.skip("(") {
                Ok(()) => {},
                Err(e) => { return Err(e); },
            }
            let boolnode = match expression(reader, file) {
                Ok(n) => n,
                Err(e) => { return Err(e); },
            };
            match reader.skip(")") {
                Ok(()) => {},
                Err(e) => { return Err(e); },
            }
            match reader.skip("{") {
                Ok(()) => {},
                Err(e) => { return Err(e); },
            }
            let bodynode = match block(reader, file) {
                Ok(n) => n,
                Err(e) => { return Err(e); },
            };
            let mut node = Node::new(NodeType::ElseIf(l2, c2));
            push_child(&mut node, boolnode);
            push_child(&mut node, bodynode);
            Ok(node)
        } else if k2 == TokKind::Block1 {
            match reader.advance() {
                Ok(()) => {},
                Err(e) => { return Err(e); },
            }
            let bodynode = match block(reader, file) {
                Ok(n) => n,
                Err(e) => { return Err(e); },
            };
            let mut node = Node::new(NodeType::Else(l, c));
            push_child(&mut node, bodynode);
            Ok(node)
        } else {
            Err(fail_with_token(FailKind::Panicked, "Unexpeced token afer 'else': ", &t2, &t2))
        }
    } else {
        Err(fail(FailKind::Panicked, String::from_str("Expected conditional"), &t))
    }
}

} // verus!
