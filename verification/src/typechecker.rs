use vstd::prelude::*;
use crate::node::{Node, NodeType, NodeV, NodeKind, NodeTypeV, lemma_node_parts, nodes_view};
use crate::state::State;

verus! {

broadcast use vstd::std_specs::vec::group_vec_axioms;

/// The names of the built-in types.
pub open spec fn builtin_type(t: Seq<char>) -> bool {
    t == "void"@ || t == "bool"@ || t == "int"@ || t == "double"@ || t == "num"@ || t == "String"@
}

/// Whether `t` names a type: a built-in one, or a class whose constructor
/// the current file sees.
pub open spec fn hastype_spec(t: Seq<char>, state: State) -> bool {
    builtin_type(t) || (state.table().contains_key(t)
        && state.globals@[state.table()[t] as int].nodetype is Constructor)
}

/// Whether `t` names a type.
pub fn hastype(t: &String, state: &State) -> (r: bool)
    requires
        state.tables_wf(),
        state.has_table(),
        state.table().contains_key(t@) ==> state.global_ok(t@),
    ensures
        r == hastype_spec(t@, *state),
{
    let s = t.as_str();
    if t.eq(&String::from_str("void")) || t.eq(&String::from_str("bool")) || t.eq(&String::from_str("int"))
        || t.eq(&String::from_str("double")) || t.eq(&String::from_str("num")) || t.eq(&String::from_str("String")) {
        return true;
    }
    if state.has_global(s) {
        let n = state.get_global_ref(s);
        if let NodeType::Constructor(..) = n.nodetype {
            return true;
        }
    }
    false
}

/// The type of `+`, `-` or `*` on operands of types `t1` and `t2`.
pub open spec fn arith_type(t1: Seq<char>, t2: Seq<char>) -> Result<Seq<char>, Seq<char>> {
    if t1 == "int"@ {
        if t2 == "int"@ {
            Ok("int"@)
        } else if t2 == "num"@ {
            Ok("num"@)
        } else {
            Err("no type check"@)
        }
    } else if t1 == "num"@ {
        if t2 == "int"@ || t2 == "num"@ {
            Ok("num"@)
        } else {
            Err("no type check"@)
        }
    } else {
        Err("Type check failed"@)
    }
}

/// The type of expression `n`: integer literals are `int`, and `+`, `-`
/// and `*` combine their operands' types; anything else is not checked.
pub open spec fn tc_type(n: NodeV) -> Result<Seq<char>, Seq<char>>
    decreases n,
{
    if n.ty.kind == NodeKind::Int {
        Ok("int"@)
    } else if n.ty.kind == NodeKind::Add || n.ty.kind == NodeKind::Sub || n.ty.kind == NodeKind::Mul {
        if n.children.len() < 2 {
            Err("Missing operand"@)
        } else {
            match tc_type(n.children[0]) {
                Err(e) => Err(e),
                Ok(t1) => match tc_type(n.children[1]) {
                    Err(e) => Err(e),
                    Ok(t2) => arith_type(t1, t2),
                },
            }
        }
    } else {
        Err("Type check not implemented"@)
    }
}

fn text(s: &str) -> (r: String)
    ensures
        r@ == s@,
{
    String::from_str(s)
}

/// The type of expression `node`.
pub fn tc_expression(node: &Node) -> (r: Result<String, String>)
    ensures
        match tc_type(node.view()) {
            Ok(t) => r matches Ok(x) && x@ == t,
            Err(e) => r matches Err(x) && x@ == e,
        },
    decreases node,
{
    proof { lemma_node_parts(*node); }
    match node.nodetype {
        NodeType::Int(..) => Ok(text("int")),
        NodeType::Add(..) | NodeType::Sub(..) | NodeType::Mul(..) => {
            if node.children.len() < 2 {
                return Err(text("Missing operand"));
            }
            proof {
                assert(decreases_to!(node => node.children));
                assert(decreases_to!(node.children => node.children@));
                assert(decreases_to!(node.children@ => node.children@[0]));
                assert(decreases_to!(node.children@ => node.children@[1]));
            }
            let t1 = match tc_expression(&node.children[0]) {
                Ok(t) => t,
                Err(e) => { return Err(e); },
            };
            let t2 = match tc_expression(&node.children[1]) {
                Ok(t) => t,
                Err(e) => { return Err(e); },
            };
            if t1.eq(&text("int")) {
                if t2.eq(&text("int")) {
                    Ok(text("int"))
                } else if t2.eq(&text("num")) {
                    Ok(text("num"))
                } else {
                    Err(text("no type check"))
                }
            } else if t1.eq(&text("num")) {
                if t2.eq(&text("int")) || t2.eq(&text("num")) {
                    Ok(text("num"))
                } else {
                    Err(text("no type check"))
                }
            } else {
                Err(text("Type check failed"))
            }
        },
        _ => Err(text("Type check not implemented")),
    }
}

/// The declaration `typ name` at `(l, c)` with its declared type replaced by
/// `t`.
pub open spec fn retyped(target: NodeV, t: Seq<char>) -> NodeV {
    NodeV {
        ty: NodeTypeV { kind: NodeKind::TypedVar, strs: seq![t, target.ty.strs[1]], int_val: 0, flag: false, boxes: seq![], line: target.ty.line, col: target.ty.col },
        children: seq![],
    }
}

/// Checking statement `n`: a declaration with an initial value gets the
/// value's type, which must match the declared one unless that is `var`; a
/// call is `void`. Gives the statement's type and the statement as it is
/// after the check.
pub open spec fn tc_stmt(n: NodeV) -> Result<(Seq<char>, NodeV), Seq<char>> {
    if n.ty.kind == NodeKind::Assign {
        if n.children.len() < 2 {
            Err("Missing operand"@)
        } else if n.children[0].ty.kind != NodeKind::TypedVar {
            Err("Not typechecking1"@)
        } else {
            let declared = n.children[0].ty.strs[0];
            match tc_type(n.children[1]) {
                Err(e) => Err(e),
                Ok(res) => if res != declared && declared != "var"@ {
                    Err("Typecheck expected: "@ + declared + ", got: "@ + res)
                } else {
                    Ok((res, NodeV { ty: n.ty, children: n.children.update(0, retyped(n.children[0], res)) }))
                },
            }
        }
    } else if n.ty.kind == NodeKind::FunCall {
        Ok(("void"@, n))
    } else {
        Err("Not typechecking2"@)
    }
}

/// Checks statement `node` and gives its type.
pub fn tc_statement(node: &mut Node) -> (r: Result<String, String>)
    ensures
        match tc_stmt(old(node).view()) {
            Ok((t, n)) => r matches Ok(x) && x@ == t && final(node).view() == n,
            Err(e) => r matches Err(x) && x@ == e,
        },
{
    proof { lemma_node_parts(*node); }
    match node.nodetype {
        NodeType::Assign(..) => {
            if node.children.len() < 2 {
                return Err(text("Missing operand"));
            }
            proof { lemma_node_parts(node.children@[0]); }
            let (typ, name, lc, cc) = match &node.children[0].nodetype {
                NodeType::TypedVar(typ, name, lc, cc) => (typ.clone(), name.clone(), *lc, *cc),
                _ => { return Err(text("Not typechecking1")); },
            };
            let res = match tc_expression(&node.children[1]) {
                Ok(t) => t,
                Err(e) => { return Err(e); },
            };
            if !res.eq(&typ) && !typ.eq(&text("var")) {
                let mut msg = text("Typecheck expected: ");
                msg.append(typ.as_str());
                msg.append(", got: ");
                msg.append(res.as_str());
                return Err(msg);
            }
            let nn = Node::new(NodeType::TypedVar(res.clone(), name, lc, cc));
            let ghost old_node = *node;
            node.children.set(0, nn);
            proof {
                lemma_node_parts(*node);
                assert(node.view().children =~= old_node.view().children.update(0, retyped(old_node.view().children[0], res@)));
            }
            Ok(res)
        },
        NodeType::FunCall(..) => Ok(text("void")),
        _ => Err(text("Not typechecking2")),
    }
}

/// Checking the statements `ch` in order, up to the first that fails.
pub open spec fn tc_all(ch: Seq<NodeV>) -> Result<Seq<NodeV>, Seq<char>>
    decreases ch.len(),
{
    if ch.len() == 0 {
        Ok(seq![])
    } else {
        match tc_all(ch.drop_last()) {
            Err(e) => Err(e),
            Ok(done) => match tc_stmt(ch.last()) {
                Err(e) => Err(e),
                Ok((_, n)) => Ok(done.push(n)),
            },
        }
    }
}

/// Checks the statements of block `node`.
pub fn tc_block(node: &mut Node) -> (r: Result<(), String>)
    ensures
        match tc_all(old(node).view().children) {
            Ok(ch) => r is Ok && final(node).view() == (NodeV { ty: old(node).view().ty, children: ch }),
            Err(e) => r matches Err(x) && x@ == e,
        },
{
    let ghost orig = node.view();
    proof { lemma_node_parts(*node); }
    let mut i: usize = 0;
    proof {
        assert(orig.children.take(0) =~= Seq::<NodeV>::empty());
        assert(nodes_prefix(node.children@, 0) =~= Seq::<NodeV>::empty());
    }
    while i < node.children.len()
        invariant
            i <= node.children@.len(),
            node.children@.len() == orig.children.len(),
            node.nodetype.view() == orig.ty,
            orig == old(node).view(),
            tc_all(orig.children.take(i as int)) == Ok::<Seq<NodeV>, Seq<char>>(nodes_prefix(node.children@, i as int)),
            forall|j: int| i <= j < orig.children.len() ==> #[trigger] node.children@[j].view() == orig.children[j],
        decreases orig.children.len() - i,
    {
        let mut c = node.children[i].clone();
        let res = tc_statement(&mut c);
        proof {
            assert(orig.children.take(i as int + 1).drop_last() =~= orig.children.take(i as int));
            assert(orig.children.take(i as int + 1).last() == orig.children[i as int]);
        }
        match res {
            Ok(_) => {},
            Err(e) => {
                proof {
                    assert(tc_all(orig.children.take(i as int + 1)) == Err::<Seq<NodeV>, Seq<char>>(e@));
                    lemma_tc_all_prefix_err(orig.children, i as int + 1);
                }
                return Err(e);
            },
        }
        let ghost before = node.children@;
        node.children.set(i, c);
        proof {
            assert(nodes_prefix(node.children@, i as int + 1) =~= nodes_prefix(before, i as int).push(c.view()));
        }
        i = i + 1;
    }
    proof {
        assert(orig.children.take(i as int) =~= orig.children);
        lemma_node_parts(*node);
        assert(node.view().children =~= nodes_prefix(node.children@, i as int));
    }
    Ok(())
}

/// The values of the first `k` nodes of `v`.
pub open spec fn nodes_prefix(v: Seq<Node>, k: int) -> Seq<NodeV> {
    Seq::new(k as nat, |j: int| v[j].view())
}

/// A failure in the first `k` statements is a failure of them all.
proof fn lemma_tc_all_prefix_err(ch: Seq<NodeV>, k: int)
    requires
        0 <= k <= ch.len(),
        tc_all(ch.take(k)) is Err,
    ensures
        tc_all(ch) == tc_all(ch.take(k)),
    decreases ch.len() - k,
{
    if k < ch.len() {
        assert(ch.take(k + 1).drop_last() =~= ch.take(k));
        lemma_tc_all_prefix_err(ch, k + 1);
    } else {
        assert(ch.take(k) =~= ch);
    }
}

/// Checking top-level node `n`: a function's body is checked; constructors
/// and variables and constants whose values are computed on first use are
/// left as they are.
pub open spec fn tc_global(n: NodeV) -> Result<NodeV, Seq<char>> {
    if n.ty.kind == NodeKind::FunDef {
        if n.children.len() < 2 {
            Err("Missing function body"@)
        } else {
            match tc_all(n.children[1].children) {
                Err(e) => Err(e),
                Ok(ch) => Ok(NodeV { ty: n.ty, children: n.children.update(1, NodeV { ty: n.children[1].ty, children: ch }) }),
            }
        }
    } else if n.ty.kind == NodeKind::Constructor || n.ty.kind == NodeKind::ConstTopLazy || n.ty.kind == NodeKind::TopVarLazy {
        Ok(n)
    } else {
        Err("Not typechecking: "@)
    }
}

/// Checking the top-level nodes `g` in order, up to the first that fails.
pub open spec fn tc_globals(g: Seq<NodeV>) -> Result<Seq<NodeV>, Seq<char>>
    decreases g.len(),
{
    if g.len() == 0 {
        Ok(seq![])
    } else {
        match tc_globals(g.drop_last()) {
            Err(e) => Err(e),
            Ok(done) => match tc_global(g.last()) {
                Err(e) => Err(e),
                Ok(n) => Ok(done.push(n)),
            },
        }
    }
}

/// A failure among the first `k` top-level nodes is a failure of them all.
proof fn lemma_tc_globals_prefix_err(g: Seq<NodeV>, k: int)
    requires
        0 <= k <= g.len(),
        tc_globals(g.take(k)) is Err,
    ensures
        tc_globals(g) == tc_globals(g.take(k)),
    decreases g.len() - k,
{
    if k < g.len() {
        assert(g.take(k + 1).drop_last() =~= g.take(k));
        lemma_tc_globals_prefix_err(g, k + 1);
    } else {
        assert(g.take(k) =~= g);
    }
}

/// Checks one top-level node.
fn tc_global_node(n: &mut Node) -> (r: Result<(), String>)
    ensures
        match tc_global(old(n).view()) {
            Ok(m) => r is Ok && final(n).view() == m,
            Err(e) => r matches Err(x) && x@ == e,
        },
        !(old(n).nodetype is FunDef) ==> *final(n) == *old(n),
{
    proof { lemma_node_parts(*n); }
    match n.nodetype {
        NodeType::FunDef(..) => {
            if n.children.len() < 2 {
                return Err(text("Missing function body"));
            }
            let mut body = n.children[1].clone();
            match tc_block(&mut body) {
                Ok(()) => {},
                Err(e) => { return Err(e); },
            }
            let ghost before = *n;
            n.children.set(1, body);
            proof {
                lemma_node_parts(*n);
                assert(n.view().children =~= before.view().children.update(1, body.view()));
            }
            Ok(())
        },
        NodeType::Constructor(..) | NodeType::ConstTopLazy(..) | NodeType::TopVarLazy(..) => Ok(()),
        _ => Err(text("Not typechecking: ")),
    }
}

/// Type-checks the program: the body of every top-level function.
pub fn typecheck(state: &mut State) -> (r: Result<(), String>)
    ensures
        match tc_globals(nodes_view(old(state).globals@)) {
            Ok(g) => r is Ok && nodes_view(final(state).globals@) == g,
            Err(e) => r matches Err(x) && x@ == e,
        },
        final(state).filepath == old(state).filepath,
        final(state).looktables == old(state).looktables,
        final(state).stack == old(state).stack,
        final(state).objsys == old(state).objsys,
        final(state).globals@.len() == old(state).globals@.len(),
        forall|j: int| 0 <= j < old(state).globals@.len() && !(old(state).globals@[j].nodetype is FunDef)
            ==> #[trigger] final(state).globals@[j] == old(state).globals@[j],
{
    let ghost orig = nodes_view(state.globals@);
    let mut i: usize = 0;
    proof {
        assert(orig.take(0) =~= Seq::<NodeV>::empty());
        assert(nodes_prefix(state.globals@, 0) =~= Seq::<NodeV>::empty());
    }
    while i < state.globals.len()
        invariant
            i <= state.globals@.len(),
            state.globals@.len() == orig.len(),
            orig == nodes_view(old(state).globals@),
            state.filepath == old(state).filepath,
            state.looktables == old(state).looktables,
            state.stack == old(state).stack,
            state.objsys == old(state).objsys,
            tc_globals(orig.take(i as int)) == Ok::<Seq<NodeV>, Seq<char>>(nodes_prefix(state.globals@, i as int)),
            forall|j: int| i <= j < orig.len() ==> #[trigger] state.globals@[j].view() == orig[j],
            forall|j: int| i <= j < orig.len() ==> #[trigger] state.globals@[j] == old(state).globals@[j],
            forall|j: int| 0 <= j < i && !(old(state).globals@[j].nodetype is FunDef)
                ==> #[trigger] state.globals@[j] == old(state).globals@[j],
        decreases orig.len() - i,
    {
        let mut g = state.globals[i].clone();
        let res = tc_global_node(&mut g);
        proof {
            assert(orig.take(i as int + 1).drop_last() =~= orig.take(i as int));
            assert(orig.take(i as int + 1).last() == orig[i as int]);
        }
        match res {
            Ok(()) => {},
            Err(e) => {
                proof {
                    assert(tc_globals(orig.take(i as int + 1)) == Err::<Seq<NodeV>, Seq<char>>(e@));
                    lemma_tc_globals_prefix_err(orig, i as int + 1);
                }
                return Err(e);
            },
        }
        let ghost before = state.globals@;
        let is_fun = match &state.globals[i].nodetype {
            NodeType::FunDef(..) => true,
            _ => false,
        };
        if is_fun {
            state.globals.set(i, g);
        }
        proof {
            if !is_fun {
                crate::node::lemma_node_ty(before[i as int]);
                assert(g.view() == before[i as int].view());
            }
            assert(nodes_prefix(state.globals@, i as int + 1) =~= nodes_prefix(before, i as int).push(g.view()));
        }
        i = i + 1;
    }
    proof {
        assert(orig.take(i as int) =~= orig);
        assert(nodes_view(state.globals@) =~= nodes_prefix(state.globals@, i as int));
    }
    Ok(())
}


/// A checked statement checks again to the same type and stays as it is.
proof fn lemma_tc_stmt_stable(n: NodeV)
    requires
        tc_stmt(n) is Ok,
    ensures
        tc_stmt(tc_stmt(n)->Ok_0.1) == tc_stmt(n),
{
    if n.ty.kind == NodeKind::Assign {
        let res = tc_type(n.children[1])->Ok_0;
        let m = tc_stmt(n)->Ok_0.1;
        assert(m.children[1] == n.children[1]);
        assert(m.children[0].ty.strs[0] == res);
        assert(retyped(m.children[0], res) == m.children[0]) by {
            assert(m.children[0].ty.strs =~= seq![res, n.children[0].ty.strs[1]]);
            assert(retyped(m.children[0], res).ty.strs =~= seq![res, m.children[0].ty.strs[1]]);
        }
        assert(m.children.update(0, retyped(m.children[0], res)) =~= m.children);
    }
}

/// Checking statements that already passed gives them back unchanged.
proof fn lemma_tc_all_stable(ch: Seq<NodeV>)
    requires
        tc_all(ch) is Ok,
    ensures
        tc_all(tc_all(ch)->Ok_0) == tc_all(ch),
    decreases ch.len(),
{
    if ch.len() > 0 {
        let done = tc_all(ch.drop_last())->Ok_0;
        lemma_tc_all_stable(ch.drop_last());
        let n = tc_stmt(ch.last())->Ok_0.1;
        lemma_tc_stmt_stable(ch.last());
        let out = done.push(n);
        assert(out.drop_last() =~= done);
        assert(out.last() == n);
    }
}

/// Type checking is idempotent: once a program has passed, checking it
/// again passes and changes nothing.
pub proof fn law_typecheck_idempotent(g: Seq<NodeV>)
    requires
        tc_globals(g) is Ok,
    ensures
        tc_globals(tc_globals(g)->Ok_0) == tc_globals(g),
    decreases g.len(),
{
    if g.len() > 0 {
        let done = tc_globals(g.drop_last())->Ok_0;
        law_typecheck_idempotent(g.drop_last());
        let n = g.last();
        let m = tc_global(n)->Ok_0;
        if n.ty.kind == NodeKind::FunDef {
            lemma_tc_all_stable(n.children[1].children);
            let body = NodeV { ty: n.children[1].ty, children: tc_all(n.children[1].children)->Ok_0 };
            assert(m.children[1] == body);
            assert(m.children.update(1, NodeV { ty: m.children[1].ty, children: tc_all(m.children[1].children)->Ok_0 }) =~= m.children);
        }
        let out = done.push(m);
        assert(out.drop_last() =~= done);
        assert(out.last() == m);
    }
}

} // verus!
