use vstd::prelude::*;
use crate::node::{Node, NodeType, NodeKind};
use crate::object::{Object, ParamObj, copies};
use crate::objsys::{ObjSys, RefKey, file_ids, instance_ids, lemma_first_index};
use crate::state::State;
use crate::values::{self, Outcome, Side};
use crate::evalhelp::{self, MaybeRef, FieldFound, FieldError, function_params_ok};
use crate::heapobjs::{InternalList, InternalFile, MaybeObject};
use crate::reader::FailKind;
use crate::api::list::{self, ApiError, shown_all};
use crate::api::math::{self, RandomError};
use crate::builtin::{has_function, is_builtin};
use crate::assoc::assoc_map;
use crate::text::{int_to_text, int_text};
use crate::stack::{visible, update_model, add_new_model, top, StackModel, push_call_model, in_call, law_update_then_get, law_update_keeps_others};

verus! {

broadcast use vstd::std_specs::vec::group_vec_axioms;

/// A failure while running a program: how it is reported, its message, and
/// the line and column of the node it is about (0 for failures of the
/// interpreter itself).
pub struct EvalError {
    pub kind: FailKind,
    pub msg: String,
    pub line: usize,
    pub col: usize,
}

/// Why a mathematical built-in refuses its arguments.
#[derive(PartialEq, Eq, Structural, Clone, Copy, Debug)]
pub enum MathFailure {
    /// It takes this many arguments.
    ArgCount(usize),
    /// The argument at this index is no number.
    ArgType(usize),
}

/// What running a program needs from its surroundings: arithmetic on
/// doubles, the written form of values, output, files, the mathematical
/// functions, and the clock that paces the garbage collector. Nothing is
/// assumed of what these give back.
pub trait Host {
    /// The result of arithmetic or comparison `op` on numbers `a` and `b`
    /// when a double takes part.
    fn floating(&mut self, op: NodeKind, a: &Object, b: &Object) -> Object;
    /// The double that the literal `text` stands for.
    fn double_literal(&mut self, text: &str) -> Object;
    /// How the double `v` is written out.
    fn show(&mut self, v: &Object) -> String;
    /// Writes `text` and a newline.
    fn print_line(&mut self, text: &str);
    /// Whether the file `path` can be opened.
    fn file_exists(&mut self, path: &str) -> bool;
    /// The contents of file `path`, if it can be read.
    fn read_file(&mut self, path: &str) -> Option<String>;
    /// The mathematical built-in `name` (on doubles) applied to `args`.
    fn math(&mut self, name: &str, args: &Vec<Object>) -> Result<Object, MathFailure>;
    /// Whether the garbage collector is due.
    fn gc_due(&mut self) -> bool;
    /// The garbage collector ran.
    fn gc_done(&mut self);
}

/// The state is sound: its stack, object system and look-up tables.
pub open spec fn rt_wf(s: State) -> bool {
    s.stack.wf() && s.objsys.wf() && s.tables_wf()
}

/// What running a program never changes: the classes, the look-up tables
/// and the number of top-level declarations.
pub open spec fn keeps(a: State, b: State) -> bool {
    &&& b.objsys.classes() == a.objsys.classes()
    &&& b.looktables == a.looktables
    &&& b.globals@.len() == a.globals@.len()
}

/// `b` is `a` but for its stack.
pub open spec fn stack_only(a: State, b: State) -> bool {
    b == (State { stack: b.stack, ..a })
}

/// `msg` about `node`, reported with the node's position.
fn err_node(msg: String, node: &Node) -> (e: EvalError)
    ensures
        e.msg == msg,
        e.kind == FailKind::Reported,
{
    let (line, col) = node.find_node_position();
    EvalError { kind: FailKind::Reported, msg, line, col }
}

/// A failure of the interpreter itself.
fn fatal(msg: String) -> (e: EvalError)
    ensures
        e.msg == msg,
        e.kind == FailKind::Panicked,
{
    EvalError { kind: FailKind::Panicked, msg, line: 0, col: 0 }
}

fn text(s: &str) -> (r: String)
    ensures
        r@ == s@,
{
    String::from_str(s)
}

fn concat(a: &str, b: &str) -> (r: String)
    ensures
        r@ == a@ + b@,
{
    let mut r = String::from_str(a);
    r.append(b);
    r
}

fn concat3(a: &str, b: &str, c: &str) -> (r: String)
    ensures
        r@ == a@ + b@ + c@,
{
    let mut r = String::from_str(a);
    r.append(b);
    r.append(c);
    r
}

/// How value `v` is written out where the library writes it itself: all
/// values but doubles, which the host writes.
pub open spec fn shown_text(v: Object) -> Option<Seq<char>>
    decreases v,
{
    match v {
        Object::Int(i) => Some(int_text(i as int)),
        Object::Double(_) => None,
        Object::Bool(b) => Some(if b { "true"@ } else { "false"@ }),
        Object::String(s) => Some(s@),
        Object::Function(..) => Some("() => ?"@),
        Object::Constructor(..) => Some("() => ?"@),
        Object::Reference(k) => Some("Reference<RefKey<"@ + k.0@ + ">>"@),
        Object::Null => Some("null"@),
        Object::Return(x) => shown_text(*x),
    }
}

/// Writes value `v` out: the host writes doubles, the library everything
/// else (a returned value as the value itself).
pub fn show_value<H: Host>(v: &Object, host: &mut H) -> (r: String)
    ensures
        shown_text(*v) matches Some(t) ==> r@ == t,
    decreases v,
{
    match v {
        Object::Int(i) => int_to_text(*i),
        Object::Double(_) => host.show(v),
        Object::Bool(b) => if *b { text("true") } else { text("false") },
        Object::String(s) => s.clone(),
        Object::Function(..) => text("() => ?"),
        Object::Constructor(..) => text("() => ?"),
        Object::Reference(k) => {
            let mut m = text("Reference<RefKey<");
            m.append(k.0.as_str());
            m.append(">>");
            m
        },
        Object::Null => text("null"),
        Object::Return(x) => show_value(&**x, host),
    }
}

/// The value of a node that is an integer, boolean or `null` literal.
pub open spec fn literal_value(n: Node) -> Option<Object> {
    match n.nodetype {
        NodeType::Int(v, _, _) => Some(Object::Int(v)),
        NodeType::Bool(b, _, _) => Some(Object::Bool(b)),
        NodeType::Null(_, _) => Some(Object::Null),
        _ => None,
    }
}

/// Every node of `s` is an integer, boolean or `null` literal.
pub open spec fn all_literals(s: Seq<Node>) -> bool {
    forall|i: int| 0 <= i < s.len() ==> (#[trigger] literal_value(s[i])) is Some
}

/// The values of the literal nodes `s`.
pub open spec fn literal_values(s: Seq<Node>) -> Seq<Object> {
    s.map_values(|n: Node| literal_value(n)->0)
}

/// Takes one step of the budget that bounds a run.
fn burn(fuel: &mut u64) -> (r: Result<(), EvalError>)
    ensures
        r is Ok <==> *old(fuel) > 0,
        r is Ok ==> *final(fuel) == *old(fuel) - 1,
        r is Err ==> *final(fuel) == *old(fuel) && r->Err_0.kind == FailKind::Panicked,
{
    if *fuel == 0 {
        return Err(fatal(text("Evaluation step budget exhausted.")));
    }
    *fuel = *fuel - 1;
    Ok(())
}

/// The `i`-th child of `node`, which the parser always gives it.
fn child<'a>(node: &'a Node, i: usize) -> (r: Result<&'a Node, EvalError>)
    ensures
        r is Ok <==> i < node.children@.len(),
        r matches Ok(c) ==> i < node.children@.len() && *c == node.children@[i as int],
{
    if i < node.children.len() {
        Ok(&node.children[i])
    } else {
        Err(fatal(concat("Malformed node: ", "missing child")))
    }
}

/// The message for an operand of the wrong sort.
fn operand_msg<H: Host>(side: &str, what: &str, v: &Object, host: &mut H) -> (r: String)
    ensures
        exists|shown: Seq<char>| r@ == "Illegal "@ + side@ + " operand for "@ + what@ + ": "@ + shown,
        shown_text(*v) matches Some(t) ==> r@ == "Illegal "@ + side@ + " operand for "@ + what@ + ": "@ + t,
{
    let mut m = text("Illegal ");
    m.append(side);
    m.append(" operand for ");
    m.append(what);
    m.append(": ");
    let s = show_value(v, host);
    m.append(s.as_str());
    proof {
        reveal_strlit("Illegal ");
        assert(m@ == "Illegal "@ + side@ + " operand for "@ + what@ + ": "@ + s@);
    }
    m
}

/// The word for operation `op` in a message about its left operand
/// (`left`) or its right one.
pub open spec fn op_word(op: NodeKind, left: bool) -> Seq<char> {
    if op == NodeKind::Add {
        "addition"@
    } else if op == NodeKind::Sub {
        "subtraction"@
    } else if op == NodeKind::Mul {
        "multiplication"@
    } else if op == NodeKind::Div {
        if left { "divison"@ } else { "division"@ }
    } else if op == NodeKind::BitAnd {
        "bitwise and"@
    } else if op == NodeKind::BitOr {
        "bitwise or"@
    } else if op == NodeKind::BitXor {
        "bitwise xor"@
    } else if op == NodeKind::LogOr {
        "||"@
    } else if op == NodeKind::LogAnd {
        "&&"@
    } else {
        "comparison"@
    }
}

fn op_name(op: NodeKind, left: bool) -> (r: &'static str)
    ensures
        r@ == op_word(op, left),
{
    match op {
        NodeKind::Add => "addition",
        NodeKind::Sub => "subtraction",
        NodeKind::Mul => "multiplication",
        NodeKind::Div => if left { "divison" } else { "division" },
        NodeKind::BitAnd => "bitwise and",
        NodeKind::BitOr => "bitwise or",
        NodeKind::BitXor => "bitwise xor",
        NodeKind::LogOr => "||",
        NodeKind::LogAnd => "&&",
        _ => "comparison",
    }
}

/// Whether `op` is a binary operation that checks its left operand before
/// computing the right one.
pub open spec fn checked_binary(op: NodeKind) -> bool {
    op == NodeKind::Add || op == NodeKind::Sub || op == NodeKind::Mul || op == NodeKind::Div
        || values::is_bitwise(op) || values::is_comparison(op) || op == NodeKind::LogOr || op == NodeKind::LogAnd
}

/// What a binary operation `op` gives for the integers `x` and `y`, where
/// the library computes it itself; `None` for division, which the host
/// computes, and for `||` and `&&`, which refuse integers.
pub open spec fn int_binary(op: NodeKind, x: i64, y: i64) -> Option<Object> {
    if op == NodeKind::Add {
        Some(Object::Int(x.wrapping_add(y)))
    } else if op == NodeKind::Sub {
        Some(Object::Int(x.wrapping_sub(y)))
    } else if op == NodeKind::Mul {
        Some(Object::Int(x.wrapping_mul(y)))
    } else if values::is_bitwise(op) {
        Some(Object::Int(values::bits(op, x, y)))
    } else if values::is_comparison(op) {
        Some(Object::Bool(values::compare_ints(op, x, y)))
    } else {
        None
    }
}

/// A binary operation: the left operand, checked, then the right one.
fn binary<H: Host>(node: &Node, op: NodeKind, state: &mut State, host: &mut H, fuel: &mut u64) -> (r: Result<Object, EvalError>)
    requires
        rt_wf(*old(state)),
        checked_binary(op),
    ensures
        rt_wf(*final(state)),
        keeps(*old(state), *final(state)),
        *final(fuel) <= *old(fuel),
        r is Ok ==> *final(fuel) < *old(fuel),
        *old(fuel) > 2 && node.children@.len() >= 2 ==> (literal_value(node.children@[0]) matches Some(Object::Int(x))
            ==> (literal_value(node.children@[1]) matches Some(Object::Int(y)) ==> {
            &&& int_binary(op, x, y) matches Some(v) ==> r == Ok::<Object, EvalError>(v)
            &&& op == NodeKind::Div ==> r is Ok
            &&& (op == NodeKind::LogOr || op == NodeKind::LogAnd) ==> r is Err
        })),
        *old(fuel) > 2 && node.children@.len() >= 2 ==> (literal_value(node.children@[0]) matches Some(Object::Bool(x))
            ==> (literal_value(node.children@[1]) matches Some(Object::Bool(y)) ==> {
            &&& op == NodeKind::LogOr ==> r == Ok::<Object, EvalError>(Object::Bool(x || y))
            &&& op == NodeKind::LogAnd ==> r == Ok::<Object, EvalError>(Object::Bool(x && y))
            &&& !(op == NodeKind::LogOr || op == NodeKind::LogAnd) ==> r is Err
        })),
        node.children@.len() >= 2 && *old(fuel) >= 1 + pure_cost(node.children@[0]) + pure_cost(node.children@[1])
            ==> (pure_value(node.children@[0], *old(state)) matches Some(a) ==> (pure_value(node.children@[1], *old(state)) matches Some(b)
            ==> (op_result(op, a, b) matches Some(v) ==> r == Ok::<Object, EvalError>(v) && *final(state) == *old(state)
                && *final(fuel) == *old(fuel) - 1 - pure_cost(node.children@[0]) - pure_cost(node.children@[1])))),
        r is Ok && node.children@.len() >= 2
            ==> (pure_value(node.children@[0], *old(state)) matches Some(a) ==> (pure_value(node.children@[1], *old(state)) matches Some(b)
            ==> (op_result(op, a, b) matches Some(v) ==> r == Ok::<Object, EvalError>(v) && *final(state) == *old(state)
                && *final(fuel) == *old(fuel) - 1 - pure_cost(node.children@[0]) - pure_cost(node.children@[1])))),
    decreases *old(fuel), 2nat,
{
    burn(fuel)?;
    let lnode = child(node, 0)?;
    let rnode = child(node, 1)?;
    let a = eval(lnode, state, host, fuel)?;
    if !values::accepts_left(op, &a) {
        let m = operand_msg("left", op_name(op, true), &a, host);
        return Err(err_node(m, lnode));
    }
    let b = eval(rnode, state, host, fuel)?;
    let out = if op == NodeKind::Add {
        values::add_values(&a, &b)
    } else if op == NodeKind::Sub {
        values::sub_values(&a, &b)
    } else if op == NodeKind::Mul {
        values::mul_values(&a, &b)
    } else if op == NodeKind::Div {
        values::div_values(&a, &b)
    } else if op == NodeKind::BitAnd || op == NodeKind::BitOr || op == NodeKind::BitXor {
        values::bit_values(op, &a, &b)
    } else if op == NodeKind::LogOr {
        values::logic_values(true, &a, &b)
    } else if op == NodeKind::LogAnd {
        values::logic_values(false, &a, &b)
    } else {
        values::compare_values(op, &a, &b)
    };
    match out {
        Outcome::Value(v) => Ok(v),
        Outcome::Floating => Ok(host.floating(op, &a, &b)),
        Outcome::Illegal(Side::Left) => {
            let m = operand_msg("left", op_name(op, true), &a, host);
            Err(err_node(m, lnode))
        },
        Outcome::Illegal(Side::Right) => {
            let m = operand_msg("right", op_name(op, false), &b, host);
            Err(err_node(m, rnode))
        },
    }
}

/// Reports why field `field` of `obj` cannot be reached.
fn field_failure<H: Host>(e: FieldError, field: &str, obj: &Object, host: &mut H, node: &Node) -> (r: EvalError)
    ensures
        e matches FieldError::NoField(classname) ==> r.kind == FailKind::Reported
            && r.msg@ == "Object of type '"@ + classname@ + "' has no field '"@ + field@ + "'"@,
        !(e is NoField) ==> r.kind == FailKind::Panicked
            && exists|shown: Seq<char>| r.msg@ == "Not a reference to an instance: "@ + shown,
{
    match e {
        FieldError::NoField(classname) => {
            let mut m = text("Object of type '");
            m.append(classname.as_str());
            m.append("' has no field '");
            m.append(field);
            m.append("'");
            proof { reveal_strlit("Object of type '"); }
            err_node(m, node)
        },
        _ => {
            let s = show_value(obj, host);
            let r = fatal(concat("Not a reference to an instance: ", s.as_str()));
            assert(r.msg@ == "Not a reference to an instance: "@ + s@);
            r
        },
    }
}

/// The value of field `field` of `obj`, running its class's getter if it
/// has one.
pub fn get_field<H: Host>(obj: Object, field: &str, state: &mut State, host: &mut H, fuel: &mut u64, node: &Node) -> (r: Result<Object, EvalError>)
    requires
        rt_wf(*old(state)),
    ensures
        rt_wf(*final(state)),
        keeps(*old(state), *final(state)),
        *final(fuel) <= *old(fuel),
        r is Ok ==> *final(fuel) < *old(fuel),
        evalhelp::field_source(old(state).objsys, obj, field@, old(state).objsys.instances().len()) is Err ==> r is Err,
        evalhelp::field_source(old(state).objsys, obj, field@, old(state).objsys.instances().len()) matches Ok((k, false))
            ==> (*old(fuel) > 0 ==> (r matches Ok(v) && copies(v, old(state).objsys.instances()[old(state).objsys.inst_index(k)].field_map()[field@]))
                && *final(state) == *old(state)),
    decreases *old(fuel), 3nat,
{
    burn(fuel)?;
    match evalhelp::lookup_field(&state.objsys, &obj, field) {
        Ok(FieldFound::Value(v)) => Ok(v),
        Ok(FieldFound::Getter(rk, g)) => {
            let args = Node::new(NodeType::ArgList(0, 0));
            call_function(MaybeRef::Ref(rk), &g, &args, state, host, fuel)
        },
        Err(e) => Err(field_failure(e, field, &obj, host, node)),
    }
}

/// Sets field `field` of `obj`.
pub fn set_field<H: Host>(obj: Object, field: &str, val: Object, state: &mut State, host: &mut H, node: &Node) -> (r: Result<(), EvalError>)
    requires
        rt_wf(*old(state)),
    ensures
        rt_wf(*final(state)),
        keeps(*old(state), *final(state)),
        r is Ok <==> evalhelp::field_owner(old(state).objsys, obj, field@, old(state).objsys.instances().len()) is Ok,
{
    match evalhelp::set_field(&mut state.objsys, &obj, field, val) {
        Ok(()) => Ok(()),
        Err(e) => Err(field_failure(e, field, &obj, host, node)),
    }
}

/// `this`, when a method or constructor is running.
fn this_object(state: &State, node: &Node) -> (r: Result<Object, EvalError>)
    ensures
        r is Ok <==> state.objsys.inst_index(state.objsys.this_key()) >= 0,
        r matches Ok(v) ==> (v matches Object::Reference(k) && k.0@ == state.objsys.this_key()),
{
    if !state.objsys.has_this() {
        return Err(err_node(text("Not found in context: 'this'."), node));
    }
    Ok(state.objsys.get_this_object())
}

/// Where field `field` of the instance with key `k` is found: the first
/// step of `field_source` for a reference to that instance.
pub open spec fn key_field_source(o: crate::objsys::ObjSys, k: Seq<char>, field: Seq<char>, steps: nat) -> Result<(Seq<char>, bool), FieldError> {
    if o.inst_index(k) < 0 {
        Err(FieldError::NoInstance)
    } else {
        let inst = o.instances()[o.inst_index(k)];
        if !o.classes().contains_key(inst.classname@) {
            Err(FieldError::NoClass)
        } else if assoc_map(o.classes()[inst.classname@].getters@).contains_key(field) {
            Ok((k, true))
        } else if inst.field_map().contains_key(field) {
            Ok((k, false))
        } else {
            match inst.parent {
                MaybeObject::Present(p) => if steps == 0 { Err(FieldError::ParentCycle) } else { evalhelp::field_source(o, p, field, (steps - 1) as nat) },
                MaybeObject::Absent => Err(FieldError::NoField(inst.classname)),
            }
        }
    }
}

/// Whether `name` is a field of `this`.
fn this_has_field(state: &State, name: &str) -> (r: bool)
    requires
        rt_wf(*state),
    ensures
        r == (state.objsys.inst_index(state.objsys.this_key()) >= 0
            && key_field_source(state.objsys, state.objsys.this_key(), name@, state.objsys.instances().len()) matches Ok((_, false))),
{
    if !state.objsys.has_this() {
        return false;
    }
    let this = state.objsys.get_this_object();
    match evalhelp::lookup_field(&state.objsys, &this, name) {
        Ok(FieldFound::Value(_)) => true,
        _ => false,
    }
}

/// The value of the top-level variable or constant `name`, computed and
/// stored on first use.
fn global_value<H: Host>(name: &str, idx: usize, state: &mut State, host: &mut H, fuel: &mut u64) -> (r: Result<Object, EvalError>)
    requires
        rt_wf(*old(state)),
    ensures
        rt_wf(*final(state)),
        keeps(*old(state), *final(state)),
        *final(fuel) <= *old(fuel),
        r is Ok ==> *final(fuel) < *old(fuel),
        *old(fuel) > 0 && (idx as int) < old(state).globals@.len() && old(state).globals@[idx as int].nodetype is TopVar
            ==> (r matches Ok(v) && copies(v, *old(state).globals@[idx as int].nodetype->TopVar_2)),
        *old(fuel) > 0 && (idx as int) < old(state).globals@.len() && old(state).globals@[idx as int].nodetype is ConstTopVar
            ==> (r matches Ok(v) && copies(v, *old(state).globals@[idx as int].nodetype->ConstTopVar_2)),
        *old(fuel) > 0 && (idx as int) < old(state).globals@.len() && old(state).globals@[idx as int].view().ty.kind == NodeKind::TopVarLazy && old(state).globals@[idx as int].view().ty.strs[1] == old(state).eval_var@
            ==> r is Err && r->Err_0.kind == FailKind::Reported
                && r->Err_0.msg@ == "Top level variable '"@ + old(state).eval_var@ + "' depends on itself."@,
        *old(fuel) > 0 && (idx as int) < old(state).globals@.len() && old(state).globals@[idx as int].view().ty.kind == NodeKind::ConstTopLazy && old(state).globals@[idx as int].view().ty.strs[1] == old(state).eval_var@
            ==> r is Err && r->Err_0.kind == FailKind::Reported
                && r->Err_0.msg@ == "Top level const '"@ + old(state).eval_var@ + "' depends on itself."@,
        (idx as int) < old(state).globals@.len() && old(state).globals@[idx as int].view().ty.kind == NodeKind::TopVarLazy
            ==> (r matches Ok(v) ==> final(state).globals@[idx as int].nodetype matches NodeType::TopVar(_, n, val, _, _)
                && n@ == old(state).globals@[idx as int].view().ty.strs[1] && copies(*val, v)),
        (idx as int) < old(state).globals@.len() && old(state).globals@[idx as int].view().ty.kind == NodeKind::ConstTopLazy
            ==> (r matches Ok(v) ==> final(state).globals@[idx as int].nodetype matches NodeType::ConstTopVar(_, n, val, _, _)
                && n@ == old(state).globals@[idx as int].view().ty.strs[1] && copies(*val, v)),
    decreases *old(fuel), 3nat,
{
    burn(fuel)?;
    if idx >= state.globals.len() {
        return Err(fatal(text("Global out of range")));
    }
    proof { crate::node::lemma_node_ty(state.globals@[idx as int]); }
    match &state.globals[idx].nodetype {
        NodeType::TopVar(_, _, val, _, _) | NodeType::ConstTopVar(_, _, val, _, _) => {
            let v: &Object = &**val;
            return Ok(v.duplicate());
        },
        _ => {},
    }
    let n = state.globals[idx].clone();
    proof {
        crate::node::lemma_node_ty(n);
        crate::node::lemma_node_ty(state.globals@[idx as int]);
        crate::node::lemma_lazy_view(n.nodetype);
    }
    match &n.nodetype {
        NodeType::TopVarLazy(typ, topname, l, c) | NodeType::ConstTopLazy(typ, topname, l, c) => {
            let is_const = match &n.nodetype {
                NodeType::ConstTopLazy(..) => true,
                _ => false,
            };
            if topname.eq(&state.eval_var) {
                let m = if is_const {
                    concat3("Top level const '", topname.as_str(), "' depends on itself.")
                } else {
                    concat3("Top level variable '", topname.as_str(), "' depends on itself.")
                };
                return Err(err_node(m, &n));
            }
            if state.eval_var.eq(&text("")) {
                state.eval_var = topname.clone();
            }
            if is_const {
                state.in_const = true;
            }
            let valnode = child(&n, 0)?;
            let res = eval(valnode, state, host, fuel)?;
            state.in_const = false;
            state.eval_var = String::new();
            let resolved = if is_const {
                NodeType::ConstTopVar(typ.clone(), topname.clone(), Box::new(res.duplicate()), *l, *c)
            } else {
                NodeType::TopVar(typ.clone(), topname.clone(), Box::new(res.duplicate()), *l, *c)
            };
            if idx < state.globals.len() {
                state.globals.set(idx, Node::new(resolved));
            }
            Ok(res)
        },
        NodeType::TopVar(_, _, val, _, _) | NodeType::ConstTopVar(_, _, val, _, _) => {
            let v: &Object = &**val;
            Ok(v.duplicate())
        },
        _ => Err(fatal(text("Unexpected node type in globals"))),
    }
}

/// `name_node` is a plain name, read outside a constant expression and
/// outside a variable's initialisation, that a frame of the current call
/// holds.
pub open spec fn local_lookup(name_node: &Node, st: State) -> bool {
    &&& name_node.nodetype is Name
    &&& !st.in_const
    &&& name_node.children.len() == 0
    &&& st.eval_var@.len() == 0
    &&& st.stack.model().frames.len() > 0
    &&& st.stack.model().lex_level > 0
    &&& visible(st.stack.model(), name_node.nodetype->Name_0@) is Some
}

/// `name_node` is a plain name read outside a constant expression and
/// outside a variable's initialisation that no frame of the current call
/// holds.
pub open spec fn nonlocal_lookup(name_node: &Node, st: State) -> bool {
    &&& name_node.nodetype is Name
    &&& !st.in_const
    &&& name_node.children@.len() == 0
    &&& st.eval_var@.len() == 0
    &&& !(st.stack.model().frames.len() > 0 && st.stack.model().lex_level > 0
        && visible(st.stack.model(), name_node.nodetype->Name_0@) is Some)
}

/// The value of a name: a field of its owner, a variable of the current
/// call, a field of `this`, or a top-level name of the current file.
pub fn get_name<H: Host>(name_node: &Node, state: &mut State, host: &mut H, fuel: &mut u64) -> (r: Result<Object, EvalError>)
    requires
        rt_wf(*old(state)),
    ensures
        rt_wf(*final(state)),
        keeps(*old(state), *final(state)),
        *final(fuel) <= *old(fuel),
        r is Ok ==> *final(fuel) < *old(fuel),
        *old(fuel) > 0 && !(name_node.nodetype is Name) ==> r is Err,
        *old(fuel) > 0 && name_node.nodetype is Name && old(state).in_const ==> r is Err && r->Err_0.kind == FailKind::Reported,
        *old(fuel) > 0 && local_lookup(name_node, *old(state)) ==>
            (r matches Ok(v) && copies(v, visible(old(state).stack.model(), name_node.nodetype->Name_0@)->0)),
        *old(fuel) > 1 && nonlocal_lookup(name_node, *old(state)) && old(state).objsys.inst_index(old(state).objsys.this_key()) >= 0
            ==> (key_field_source(old(state).objsys, old(state).objsys.this_key(), name_node.nodetype->Name_0@, old(state).objsys.instances().len()) matches Ok((k, false))
            ==> (r matches Ok(v) && copies(v, old(state).objsys.instances()[old(state).objsys.inst_index(k)].field_map()[name_node.nodetype->Name_0@]))),
        *old(fuel) > 1 && nonlocal_lookup(name_node, *old(state)) && old(state).objsys.inst_index(old(state).objsys.this_key()) < 0
            && old(state).has_table() && old(state).global_ok(name_node.nodetype->Name_0@) && old(state).globals@[old(state).table()[name_node.nodetype->Name_0@] as int].nodetype is TopVar
            ==> (r matches Ok(v) && copies(v, *old(state).globals@[old(state).table()[name_node.nodetype->Name_0@] as int].nodetype->TopVar_2)),
        *old(fuel) > 1 && nonlocal_lookup(name_node, *old(state)) && old(state).objsys.inst_index(old(state).objsys.this_key()) < 0
            && old(state).has_table() && old(state).global_ok(name_node.nodetype->Name_0@)
            && old(state).globals@[old(state).table()[name_node.nodetype->Name_0@] as int].view().ty.kind == NodeKind::TopVarLazy
            ==> (r matches Ok(v) ==> final(state).globals@[old(state).table()[name_node.nodetype->Name_0@] as int].nodetype
                matches NodeType::TopVar(_, n, val, _, _)
                && n@ == old(state).globals@[old(state).table()[name_node.nodetype->Name_0@] as int].view().ty.strs[1] && copies(*val, v)),
        *old(fuel) > 1 && nonlocal_lookup(name_node, *old(state)) && old(state).objsys.inst_index(old(state).objsys.this_key()) < 0
            && !(old(state).has_table() && old(state).global_ok(name_node.nodetype->Name_0@))
            ==> r is Err && r->Err_0.kind == FailKind::Reported && r->Err_0.msg@ == "Undefined name: '"@ + name_node.nodetype->Name_0@ + "'."@,
        *old(fuel) > 0 && local_lookup(name_node, *old(state)) ==> *final(state) == *old(state) && *final(fuel) == *old(fuel) - 1,
    decreases *old(fuel), 3nat,
{
    burn(fuel)?;
    proof {
        reveal_strlit("");
        if state.eval_var@.len() == 0 {
            assert(state.eval_var@ =~= ""@);
        }
    }
    match &name_node.nodetype {
        NodeType::Name(s, _, _) => {
            if state.in_const {
                return Err(err_node(text("Not a constant expression."), name_node));
            }
            if name_node.children.len() > 0 {
                let owner = eval(&name_node.children[0], state, host, fuel)?;
                return get_field(owner, s.as_str(), state, host, fuel, name_node);
            }
            if state.eval_var.eq(&text("")) {
                if state.stack.ready() && state.stack.has(s.as_str()) {
                    return Ok(state.stack.get(s.as_str()).duplicate());
                } else if state.objsys.has_this() {
                    let this = state.objsys.get_this_object();
                    return get_field(this, s.as_str(), state, host, fuel, name_node);
                }
            }
            match state.find_global(s.as_str()) {
                Some(i) => global_value(s.as_str(), i, state, host, fuel),
                None => Err(err_node(concat3("Undefined name: '", s.as_str(), "'."), name_node)),
            }
        },
        _ => Err(err_node(text("Not a name."), name_node)),
    }
}

/// Assigns `val` to a name: a field of its owner, a variable of the current
/// call, a field of `this`, or a top-level variable of the current file.
pub fn set_name<H: Host>(name_node: &Node, val: Object, state: &mut State, host: &mut H, fuel: &mut u64) -> (r: Result<(), EvalError>)
    requires
        rt_wf(*old(state)),
    ensures
        rt_wf(*final(state)),
        keeps(*old(state), *final(state)),
        *final(fuel) <= *old(fuel),
        r is Ok ==> *final(fuel) < *old(fuel),
        *old(fuel) > 0 && !(name_node.nodetype is Name) ==> r is Err,
        *old(fuel) > 0 && name_node.nodetype is Name && name_node.children@.len() == 0
            && old(state).stack.model().frames.len() > 0 && old(state).stack.model().lex_level > 0
            && visible(old(state).stack.model(), name_node.nodetype->Name_0@) is Some
            ==> r is Ok && final(state).stack.model() == update_model(old(state).stack.model(), name_node.nodetype->Name_0@, val)
                && stack_only(*old(state), *final(state)),
        *old(fuel) > 0 && name_node.nodetype is Name && name_node.children@.len() == 0
            && !(old(state).stack.model().frames.len() > 0 && old(state).stack.model().lex_level > 0 && visible(old(state).stack.model(), name_node.nodetype->Name_0@) is Some)
            && !(old(state).objsys.inst_index(old(state).objsys.this_key()) >= 0
                && key_field_source(old(state).objsys, old(state).objsys.this_key(), name_node.nodetype->Name_0@, old(state).objsys.instances().len()) matches Ok((_, false)))
            && old(state).has_table() && old(state).global_ok(name_node.nodetype->Name_0@) && (old(state).globals@[old(state).table()[name_node.nodetype->Name_0@] as int].nodetype is TopVar || old(state).globals@[old(state).table()[name_node.nodetype->Name_0@] as int].nodetype is TopVarLazy)
            ==> r is Ok && final(state).globals@.len() == old(state).globals@.len()
                && (final(state).globals@[old(state).table()[name_node.nodetype->Name_0@] as int].nodetype matches NodeType::TopVar(t, n, v, _, _)
                && n@ == name_node.nodetype->Name_0@ && *v == val
                && t@ == global_type(old(state).globals@[old(state).table()[name_node.nodetype->Name_0@] as int].nodetype)),
        *old(fuel) > 0 && name_node.nodetype is Name && name_node.children@.len() == 0
            && !(old(state).stack.model().frames.len() > 0 && old(state).stack.model().lex_level > 0 && visible(old(state).stack.model(), name_node.nodetype->Name_0@) is Some)
            && !(old(state).objsys.inst_index(old(state).objsys.this_key()) >= 0
                && key_field_source(old(state).objsys, old(state).objsys.this_key(), name_node.nodetype->Name_0@, old(state).objsys.instances().len()) matches Ok((_, false)))
            && old(state).has_table() && old(state).global_ok(name_node.nodetype->Name_0@) && (old(state).globals@[old(state).table()[name_node.nodetype->Name_0@] as int].nodetype is ConstTopVar || old(state).globals@[old(state).table()[name_node.nodetype->Name_0@] as int].nodetype is ConstTopLazy)
            ==> r is Err && r->Err_0.kind == FailKind::Reported
                && r->Err_0.msg@ == "Cannot change const: "@ + global_name(old(state).globals@[old(state).table()[name_node.nodetype->Name_0@] as int].nodetype),
        *old(fuel) > 0 && name_node.nodetype is Name && name_node.children@.len() == 0
            && !(old(state).stack.model().frames.len() > 0 && old(state).stack.model().lex_level > 0 && visible(old(state).stack.model(), name_node.nodetype->Name_0@) is Some)
            && !(old(state).objsys.inst_index(old(state).objsys.this_key()) >= 0
                && key_field_source(old(state).objsys, old(state).objsys.this_key(), name_node.nodetype->Name_0@, old(state).objsys.instances().len()) matches Ok((_, false)))
            && !(old(state).has_table() && old(state).global_ok(name_node.nodetype->Name_0@))
            ==> r is Err && r->Err_0.kind == FailKind::Reported && r->Err_0.msg@ == "Setter not found: '"@ + name_node.nodetype->Name_0@ + "'"@,
    decreases *old(fuel), 3nat,
{
    burn(fuel)?;
    match &name_node.nodetype {
        NodeType::Name(name, l, c) => {
            if name_node.children.len() > 0 {
                let left = eval(&name_node.children[0], state, host, fuel)?;
                return set_field(left, name.as_str(), val, state, host, name_node);
            }
            if state.stack.ready() && state.stack.has(name.as_str()) {
                state.stack.update(name.as_str(), val);
                return Ok(());
            }
            if this_has_field(state, name.as_str()) {
                let this = state.objsys.get_this_object();
                return set_field(this, name.as_str(), val, state, host, name_node);
            }
            match state.find_global(name.as_str()) {
                Some(i) => {
                    let n = state.get_global_ref(name.as_str());
                    match &n.nodetype {
                        NodeType::TopVarLazy(typ, _, _, _) | NodeType::TopVar(typ, _, _, _, _) => {
                            let newval = Node::new(NodeType::TopVar(typ.clone(), name.clone(), Box::new(val), *l, *c));
                            state.set_global(name.as_str(), newval);
                            Ok(())
                        },
                        NodeType::ConstTopLazy(_, cname, _, _) | NodeType::ConstTopVar(_, cname, _, _, _) => {
                            Err(err_node(concat("Cannot change const: ", cname.as_str()), n))
                        },
                        _ => Err(fatal(text("Unexpected node type in globals"))),
                    }
                },
                None => Err(err_node(concat3("Setter not found: '", name.as_str(), "'"), name_node)),
            }
        },
        _ => Err(err_node(text("Can not assign to this."), name_node)),
    }
}

/// The declared type of a top-level variable's node.
pub open spec fn global_type(t: NodeType) -> Seq<char> {
    match t {
        NodeType::TopVar(typ, _, _, _, _) => typ@,
        NodeType::TopVarLazy(typ, _, _, _) => typ@,
        NodeType::ConstTopVar(typ, _, _, _, _) => typ@,
        NodeType::ConstTopLazy(typ, _, _, _) => typ@,
        _ => seq![],
    }
}

/// The name of a top-level variable's node.
pub open spec fn global_name(t: NodeType) -> Seq<char> {
    match t {
        NodeType::TopVar(_, n, _, _, _) => n@,
        NodeType::TopVarLazy(_, n, _, _) => n@,
        NodeType::ConstTopVar(_, n, _, _, _) => n@,
        NodeType::ConstTopLazy(_, n, _, _) => n@,
        _ => seq![],
    }
}

/// Sets element `index` of the list `ulist_ref` to `value`.
pub fn set_list_element<H: Host>(ulist_ref: Object, index: Object, value: Object, state: &mut State, host: &mut H, fuel: &mut u64, owner_node: &Node, index_node: &Node) -> (r: Result<(), EvalError>)
    requires
        rt_wf(*old(state)),
    ensures
        rt_wf(*final(state)),
        keeps(*old(state), *final(state)),
        *final(fuel) <= *old(fuel),
        r is Ok ==> *final(fuel) < *old(fuel),
        *old(fuel) > 1 ==> (evalhelp::field_source(old(state).objsys, ulist_ref, "__list"@, old(state).objsys.instances().len()) matches Ok((k, false))
            ==> (old(state).objsys.instances()[old(state).objsys.inst_index(k)].field_map()["__list"@] matches Object::Reference(rk)
            ==> (index matches Object::Int(i) ==> (0 <= i && old(state).objsys.list_index(rk.0@) >= 0
                && i < old(state).objsys.lists()[old(state).objsys.list_index(rk.0@)].els@.len()
            ==> r is Ok && final(state).objsys.lists()[old(state).objsys.list_index(rk.0@)].els@
                == old(state).objsys.lists()[old(state).objsys.list_index(rk.0@)].els@.update(i as int, value))))),
    decreases *old(fuel), 4nat,
{
    burn(fuel)?;
    let ilist_ref = get_field(ulist_ref, "__list", state, host, fuel, owner_node)?;
    match (&ilist_ref, &index) {
        (Object::Reference(rk), Object::Int(i)) => {
            if *i < 0 {
                return Err(err_node(text("Index must be positive."), index_node));
            }
            if !state.objsys.has_list(rk) || *i as u64 >= state.objsys.get_list(rk).els.len() as u64 {
                return Err(fatal(text("List index out of range.")));
            }
            state.objsys.list_set_el(rk, *i as usize, value);
            Ok(())
        },
        _ => Err(fatal(text("Expected reference when setting list element."))),
    }
}

/// The values of the argument nodes `argnodes`, computed in order.
pub fn argnodes_to_argobjs<H: Host>(argnodes: &Vec<Node>, state: &mut State, host: &mut H, fuel: &mut u64) -> (r: Result<Vec<Object>, EvalError>)
    requires
        rt_wf(*old(state)),
    ensures
        rt_wf(*final(state)),
        keeps(*old(state), *final(state)),
        *final(fuel) <= *old(fuel),
        r is Ok ==> *final(fuel) < *old(fuel),
        r matches Ok(v) ==> v@.len() == argnodes@.len(),
        *old(fuel) > argnodes@.len() && all_literals(argnodes@) ==> (r matches Ok(v) && v@ == literal_values(argnodes@))
            && *final(fuel) == *old(fuel) - 1 - argnodes@.len() && *final(state) == *old(state),
        *old(fuel) >= 1 + pure_costs(argnodes@) ==> (pure_values(argnodes@, *old(state)) matches Some(vs)
            ==> (r matches Ok(v) && v@ == vs) && *final(state) == *old(state) && *final(fuel) == *old(fuel) - 1 - pure_costs(argnodes@)),
    decreases *old(fuel), 3nat,
{
    burn(fuel)?;
    let mut out: Vec<Object> = Vec::new();
    let mut i: usize = 0;
    proof {
        assert(argnodes@.take(0) =~= Seq::<Node>::empty());
    }
    while i < argnodes.len()
        invariant
            rt_wf(*state),
            keeps(*old(state), *state),
            *fuel < *old(fuel),
            i <= argnodes@.len(),
            out@.len() == i,
            *old(fuel) > argnodes@.len() && all_literals(argnodes@) ==> *fuel == *old(fuel) - 1 - i
                && *state == *old(state) && out@ == literal_values(argnodes@).take(i as int),
            *old(fuel) >= 1 + pure_costs(argnodes@) && pure_values(argnodes@, *old(state)) is Some ==> *state == *old(state)
                && *fuel == *old(fuel) - 1 - pure_costs(argnodes@.take(i as int))
                && pure_values(argnodes@.take(i as int), *old(state)) == Some(out@),
        decreases argnodes@.len() - i,
    {
        proof {
            if *old(fuel) > argnodes@.len() && all_literals(argnodes@) {
                assert(literal_value(argnodes@[i as int]) is Some);
            }
            if *old(fuel) >= 1 + pure_costs(argnodes@) && pure_values(argnodes@, *old(state)) is Some {
                lemma_pure_prefix(argnodes@, *old(state), i as int);
                lemma_pure_prefix(argnodes@, *old(state), i as int + 1);
            }
        }
        let v = eval(&argnodes[i], state, host, fuel)?;
        out.push(v);
        i = i + 1;
        proof {
            if *old(fuel) > argnodes@.len() && all_literals(argnodes@) {
                assert(out@ =~= literal_values(argnodes@).take(i as int));
            }
        }
    }
    proof {
        if *old(fuel) > argnodes@.len() && all_literals(argnodes@) {
            assert(out@ =~= literal_values(argnodes@));
        }
        assert(argnodes@.take(argnodes@.len() as int) =~= argnodes@);
    }
    Ok(out)
}

/// Runs function `func` with the arguments of `args`, on `instance` when it
/// is a method: the arguments are computed in the caller's context, then a
/// new call holds the parameters while the body runs in the function's file.
pub fn call_function<H: Host>(instance: MaybeRef, func: &Object, args: &Node, state: &mut State, host: &mut H, fuel: &mut u64) -> (r: Result<Object, EvalError>)
    requires
        rt_wf(*old(state)),
    ensures
        rt_wf(*final(state)),
        keeps(*old(state), *final(state)),
        *final(fuel) <= *old(fuel),
        r is Ok ==> *final(fuel) < *old(fuel),
        *old(fuel) > 0 && !(func is Function) ==> r is Err,
        *old(fuel) > 0 && func is Function && args.children@.len() != func->Function_3@.len() ==> r is Err && r->Err_0.kind == FailKind::Reported,
        *old(fuel) > 3 ==> (func matches Object::Function(_, _, body, params) ==> (params@.len() == 0 && args.children@.len() == 0
            && literal_value(*body) is Some && old(state).stack.model().call_level < usize::MAX
            ==> r == Ok::<Object, EvalError>(literal_value(*body)->0) && final(state).filepath@ == old(state).filepath@
                && final(state).objsys.this_key() == old(state).objsys.this_key()
                && final(state).stack.model().call_level == old(state).stack.model().call_level)),
        *old(fuel) > 4 ==> (func matches Object::Function(_, _, body, params) ==> (params@.len() == 0 && args.children@.len() == 0
            && body.nodetype is Return && body.children@.len() >= 1 && literal_value(body.children@[0]) is Some
            && old(state).stack.model().call_level < usize::MAX
            ==> r == Ok::<Object, EvalError>(literal_value(body.children@[0])->0) && final(state).filepath@ == old(state).filepath@
                && final(state).objsys.this_key() == old(state).objsys.this_key()
                && final(state).stack.model().call_level == old(state).stack.model().call_level)),
        func matches Object::Function(_, _, body, params) ==> (body.nodetype is Return && body.children@.len() >= 1
            && args.children@.len() == params@.len() && !old(state).in_const && old(state).eval_var@.len() == 0
            && old(state).stack.model().call_level < usize::MAX
            && *old(fuel) >= 3 + pure_costs(args.children@) + pure_cost(body.children@[0])
            ==> (pure_values(args.children@, *old(state)) matches Some(vs)
            ==> (pure_with(body.children@[0], bind_params(push_call_model(old(state).stack.model()), params@, vs), true) matches Some(v)
            ==> r == Ok::<Object, EvalError>(v) && final(state).printed == old(state).printed))),
        *old(fuel) > 0 ==> (func matches Object::Function(fname, _, _, params) ==> (args.children@.len() != params@.len()
            ==> r->Err_0.msg@ == "In method call "@ + fname@ + ", "@ + int_text((params@.len() as i64) as int)
                + " arguments expected but "@ + int_text((args.children@.len() as i64) as int) + " given."@)),
    decreases *old(fuel), 3nat,
{
    burn(fuel)?;
    match func {
        Object::Function(funcname, filename, body, params) => {
            if args.children.len() != params.len() {
                let mut m = concat3("In method call ", funcname.as_str(), ", ");
                let p = show_value(&Object::Int(params.len() as i64), host);
                m.append(p.as_str());
                m.append(" arguments expected but ");
                let a = show_value(&Object::Int(args.children.len() as i64), host);
                m.append(a.as_str());
                m.append(" given.");
                assert(m@ == "In method call "@ + funcname@ + ", "@ + p@ + " arguments expected but "@ + a@ + " given."@);
                return Err(err_node(m, args));
            }
            let ghost pure_case = body.nodetype is Return && body.children@.len() >= 1
                && !old(state).in_const && old(state).eval_var@.len() == 0
                && *old(fuel) >= 3 + pure_costs(args.children@) + pure_cost(body.children@[0])
                && pure_values(args.children@, *old(state)) is Some;
            let ghost m0 = state.stack.model();
            proof { lemma_pure_values_plain(args.children@, *old(state)); }
            let argobjs = argnodes_to_argobjs(&args.children, state, host, fuel)?;
            if state.stack.call_level() == usize::MAX {
                return Err(fatal(text("Stack overflow.")));
            }
            state.stack.push_call();
            let mut i: usize = 0;
            let ghost fuel_i = *fuel;
            let ghost st_i = *state;
            proof {
                assert(params@.take(0) =~= Seq::<ParamObj>::empty());
            }
            while i < params.len()
                invariant
                    params@.len() == 0 ==> *fuel == fuel_i && *state == st_i,
                    pure_case ==> *fuel == fuel_i && state.in_const == old(state).in_const && state.eval_var == old(state).eval_var
                        && argobjs@ == pure_values(args.children@, *old(state))->0
                        && state.stack.model() == bind_params(push_call_model(m0), params@.take(i as int), argobjs@.take(i as int)),
                    pure_case ==> forall|j: int| 0 <= j < argobjs@.len() ==> !(#[trigger] argobjs@[j] is Function || argobjs@[j] is Constructor || argobjs@[j] is Return),
                    fuel_i == *fuel || !pure_case,
                    state.stack.model().frames.len() > 0 && state.stack.model().lex_level > 0,
                    pure_case ==> state.printed == old(state).printed,
                    func is Function && func->Function_3@ == params@,
                    rt_wf(*state),
                    keeps(*old(state), *state),
                    *fuel < *old(fuel),
                    argobjs@.len() == params@.len(),
                    i <= params@.len(),
                    !(func is Function && args.children@.len() != func->Function_3@.len()),
                decreases params@.len() - i,
            {
                if !state.stack.ready() {
                    return Err(fatal(text("No call frame.")));
                }
                let ghost mb = state.stack.model();
                let dup = argobjs[i].duplicate();
                proof {
                    if pure_case {
                        lemma_copies_plain(dup, argobjs@[i as int]);
                    }
                }
                state.stack.add_new(params[i].name.as_str(), dup);
                proof {
                    if pure_case {
                        assert(params@.take(i + 1).drop_last() =~= params@.take(i as int));
                        assert(argobjs@.take(i + 1).drop_last() =~= argobjs@.take(i as int));
                    }
                }
                i = i + 1;
            }
            proof {
                if pure_case {
                    assert(params@.take(params@.len() as int) =~= params@);
                    assert(argobjs@.take(argobjs@.len() as int) =~= argobjs@);
                }
            }
            let oldfilename = state.filepath.clone();
            state.filepath = filename.clone();
            let mut oldthis = MaybeRef::Absent;
            match instance {
                MaybeRef::Ref(rk) => {
                    oldthis = MaybeRef::Ref(state.objsys.get_this());
                    state.objsys.set_this(rk);
                },
                MaybeRef::Absent => {},
            }
            let result = eval(body, state, host, fuel)?;
            match oldthis {
                MaybeRef::Ref(old_rk) => { state.objsys.set_this(old_rk); },
                MaybeRef::Absent => {},
            }
            state.filepath = oldfilename;
            state.stack.pop_call();
            match result {
                Object::Return(v) => Ok(*v),
                other => Ok(other),
            }
        },
        _ => Err(fatal(text("Called a non-function object."))),
    }
}

/// The stack `m` once each parameter of `params` that is not a `this.name`
/// one is declared, in order, with the value at its index in `vals`.
pub open spec fn bind_ctor_stack(m: StackModel, params: Seq<ParamObj>, vals: Seq<Object>) -> StackModel
    decreases params.len(),
{
    if params.len() == 0 || vals.len() == 0 {
        m
    } else {
        let prev = bind_ctor_stack(m, params.drop_last(), vals.drop_last());
        if params.last().fieldinit {
            prev
        } else {
            add_new_model(prev, params.last().name@, vals.last())
        }
    }
}

/// The fields `f` of an instance once each `this.name` parameter of
/// `params` sets, in order, its field to the value at its index in `vals`.
pub open spec fn bind_ctor_fields(f: Map<Seq<char>, Object>, params: Seq<ParamObj>, vals: Seq<Object>) -> Map<Seq<char>, Object>
    decreases params.len(),
{
    if params.len() == 0 || vals.len() == 0 {
        f
    } else {
        let prev = bind_ctor_fields(f, params.drop_last(), vals.drop_last());
        if params.last().fieldinit {
            prev.insert(params.last().name@, vals.last())
        } else {
            prev
        }
    }
}

/// Binds the parameters `params` of a constructor to copies of the argument
/// values `argobjs`, index by index: a `this.name` parameter sets that field
/// of the instance `refid`, any other is declared in the innermost scope.
fn bind_ctor_params(params: &Vec<ParamObj>, argobjs: &Vec<Object>, refid: &RefKey, state: &mut State) -> (r: Result<(), EvalError>)
    requires
        rt_wf(*old(state)),
        argobjs@.len() >= params@.len(),
    ensures
        rt_wf(*final(state)),
        keeps(*old(state), *final(state)),
        params@.len() == 0 ==> *final(state) == *old(state) && r is Ok,
        r is Ok ==> exists|vs: Seq<Object>| #![trigger bind_ctor_stack(old(state).stack.model(), params@, vs)]
            vs.len() == params@.len()
            && (forall|j: int| 0 <= j < vs.len() ==> copies(#[trigger] vs[j], argobjs@[j]))
            && final(state).stack.model() == bind_ctor_stack(old(state).stack.model(), params@, vs)
            && (old(state).objsys.inst_index(refid.0@) >= 0 ==> ({
                let i = old(state).objsys.inst_index(refid.0@);
                &&& final(state).objsys.inst_index(refid.0@) == i
                &&& final(state).objsys.instances()[i].field_map()
                    == bind_ctor_fields(old(state).objsys.instances()[i].field_map(), params@, vs)
            })),
{
    let mut i: usize = 0;
    let ghost mut vs: Seq<Object> = Seq::empty();
    let ghost m0 = state.stack.model();
    let ghost o0 = state.objsys;
    let ghost ix = o0.inst_index(refid.0@);
    proof {
        assert(params@.take(0) =~= Seq::<ParamObj>::empty());
    }
    while i < params.len()
        invariant
            rt_wf(*state),
            keeps(*old(state), *state),
            params@.len() == 0 ==> *state == *old(state),
            m0 == old(state).stack.model(),
            o0 == old(state).objsys,
            ix == o0.inst_index(refid.0@),
            argobjs@.len() >= params@.len(),
            i <= params@.len(),
            vs.len() == i,
            forall|j: int| 0 <= j < vs.len() ==> copies(#[trigger] vs[j], argobjs@[j]),
            state.stack.model() == bind_ctor_stack(m0, params@.take(i as int), vs),
            ix >= 0 ==> state.objsys.inst_index(refid.0@) == ix
                && state.objsys.instances()[ix].field_map()
                    == bind_ctor_fields(o0.instances()[ix].field_map(), params@.take(i as int), vs),
        decreases params@.len() - i,
    {
        let dup = argobjs[i].duplicate();
        let ghost before = *state;
        if params[i].fieldinit {
            if !state.objsys.has_instance(refid) {
                return Err(fatal(text("Instance under construction is gone.")));
            }
            state.objsys.set_instance_field(refid, params[i].name.clone(), dup);
            proof {
                assert(state.objsys.inst_index(refid.0@) == before.objsys.inst_index(refid.0@));
            }
        } else {
            if !state.stack.ready() {
                return Err(fatal(text("No call frame.")));
            }
            state.stack.add_new(params[i].name.as_str(), dup);
        }
        proof {
            let vs_old = vs;
            vs = vs.push(dup);
            let p1 = params@.take(i + 1);
            assert(p1.drop_last() =~= params@.take(i as int));
            assert(vs.drop_last() =~= vs_old);
            assert(p1.last() == params@[i as int]);
            assert(p1.len() > 0 && vs.len() > 0);
            assert(bind_ctor_stack(m0, p1, vs) == (if params@[i as int].fieldinit {
                bind_ctor_stack(m0, params@.take(i as int), vs_old)
            } else {
                add_new_model(bind_ctor_stack(m0, params@.take(i as int), vs_old), params@[i as int].name@, dup)
            }));
            if ix >= 0 {
                let f0 = o0.instances()[ix].field_map();
                assert(bind_ctor_fields(f0, p1, vs) == (if params@[i as int].fieldinit {
                    bind_ctor_fields(f0, params@.take(i as int), vs_old).insert(params@[i as int].name@, dup)
                } else {
                    bind_ctor_fields(f0, params@.take(i as int), vs_old)
                }));
            }
        }
        i = i + 1;
    }
    proof {
        assert(params@.take(params@.len() as int) =~= params@);
    }
    Ok(())
}

/// A construction that reads nothing and runs nothing but a literal: no
/// arguments, a constructor `funcobj` with no parameters, no initializers
/// and a literal for its body, of a registered class with no fields and no
/// parent, while the stack has room for one more call.
pub open spec fn simple_construction(funcobj: Object, args: Node, st: State) -> bool {
    match funcobj {
        Object::Constructor(cname, _, params, initlist, body) => {
            &&& args.children@.len() == 0
            &&& params@.len() == 0
            &&& initlist.children@.len() == 0
            &&& literal_value(body) is Some
            &&& st.stack.model().call_level < usize::MAX
            &&& st.objsys.classes().contains_key(cname@)
            &&& st.objsys.classes()[cname@].fields@.len() == 0
            &&& st.objsys.classes()[cname@].parent@.len() == 0
        },
        _ => false,
    }
}

/// Runs constructor `funcobj` with the arguments of `args`: makes an
/// instance with its fields' initial values, binds the parameters (setting
/// fields for `this.name` ones), runs the initializer list, builds the parent
/// part, runs the body, and gives a reference to the instance.
pub fn call_constructor<H: Host>(funcobj: &Object, args: &Node, state: &mut State, host: &mut H, fuel: &mut u64) -> (r: Result<Object, EvalError>)
    requires
        rt_wf(*old(state)),
    ensures
        rt_wf(*final(state)),
        keeps(*old(state), *final(state)),
        *final(fuel) <= *old(fuel),
        r is Ok ==> *final(fuel) < *old(fuel),
        *old(fuel) > 0 && !(funcobj is Constructor) ==> r is Err,
        *old(fuel) > 3 && simple_construction(*funcobj, *args, *old(state)) ==> (r matches Ok(v) && v is Reference)
            && final(state).objsys.this_key() == old(state).objsys.this_key() && final(state).filepath@ == old(state).filepath@
            && final(state).stack.model().call_level == old(state).stack.model().call_level
            && (r->Ok_0 matches Object::Reference(k) && final(state).objsys.inst_index(k.0@) >= 0
                && final(state).objsys.instances()[final(state).objsys.inst_index(k.0@)].classname@
                    == old(state).objsys.classes()[funcobj->Constructor_0@].name@
                && final(state).objsys.instances()[final(state).objsys.inst_index(k.0@)].fields@.len() == 0),
    decreases *old(fuel), 3nat,
{
    burn(fuel)?;
    match funcobj {
        Object::Constructor(cname, filename, params, initlist, body) => {
            let argobjs = argnodes_to_argobjs(&args.children, state, host, fuel)?;
            if argobjs.len() < params.len() {
                return Err(fatal(text("Too few arguments for constructor.")));
            }
            if state.stack.call_level() == usize::MAX {
                return Err(fatal(text("Stack overflow.")));
            }
            state.stack.push_call();
            let oldfilename = state.filepath.clone();
            state.filepath = filename.clone();
            if !state.objsys.has_class(cname.as_str()) {
                return Err(fatal(concat("Class not found: ", cname.as_str())));
            }
            let class = state.objsys.get_class(cname.as_str());
            let mut inst = class.instantiate();
            proof {
                if *old(fuel) > 3 && simple_construction(*funcobj, *args, *old(state)) {
                    assert(state.objsys.classes() == old(state).objsys.classes());
                }
            }
            let parent_name = class.parent.clone();
            let mut field_nodes: Vec<(String, Node)> = Vec::new();
            let mut j: usize = 0;
            while j < class.fields.len()
                invariant
                    j <= class.fields@.len(),
                    field_nodes@.len() == j,
                decreases class.fields@.len() - j,
            {
                field_nodes.push((class.fields[j].1.clone(), class.fields[j].2.clone()));
                j = j + 1;
            }
            let mut k: usize = 0;
            let ghost fuel_k = *fuel;
            let ghost st_k = *state;
            while k < field_nodes.len()
                invariant
                    field_nodes@.len() == 0 ==> *fuel == fuel_k,
                    field_nodes@.len() == 0 ==> *state == st_k,
                    *old(fuel) > 3 && simple_construction(*funcobj, *args, *old(state)) ==> field_nodes@.len() == 0,
                    rt_wf(*state),
                    keeps(*old(state), *state),
                    *fuel < *old(fuel),
                    k <= field_nodes@.len(),
                    crate::assoc::keys_unique(inst.fields@),
                    inst.classname@ == class.name@,
                    k == 0 ==> inst.fields@.len() == 0,
                decreases field_nodes@.len() - k,
            {
                let v = eval(&field_nodes[k].1, state, host, fuel)?;
                inst.set_field(field_nodes[k].0.clone(), v);
                k = k + 1;
            }
            let ghost ix = *inst;
            let ghost o0 = state.objsys;
            let instref = state.objsys.register_instance(*inst);
            proof {
                let o1 = state.objsys;
                let k = ix.id.0@;
                lemma_first_index(instance_ids(o0.instances()), k);
                lemma_first_index(instance_ids(o1.instances()), k);
                if o0.inst_index(k) >= 0 {
                    let i = o0.inst_index(k);
                    assert(instance_ids(o0.instances())[i] == k);
                    assert(instance_ids(o1.instances()) =~= instance_ids(o0.instances()));
                    assert(o1.inst_index(k) == i);
                } else {
                    let n = o0.instances().len() as int;
                    assert(instance_ids(o1.instances()) =~= instance_ids(o0.instances()).push(k));
                    assert(instance_ids(o1.instances())[n] == k);
                    assert(instance_ids(o1.instances()).contains(k));
                    let fi = o1.inst_index(k);
                    if fi < n {
                        assert(instance_ids(o1.instances())[fi] == instance_ids(o0.instances())[fi]);
                        assert(instance_ids(o0.instances()).contains(k));
                    }
                }
                assert(o1.inst_index(k) >= 0 && o1.instances()[o1.inst_index(k)] == ix);
            }
            let ghost inst_after = state.objsys.instances();
            let refid = match &instref {
                Object::Reference(k) => k.duplicate(),
                _ => { return Err(fatal(text("Couldn't find intance that was just created."))); },
            };
            state.constructing.push(refid.duplicate());
            let oldthis = state.objsys.get_this();
            state.objsys.set_this(refid.duplicate());
            bind_ctor_params(params, &argobjs, &refid, state)?;
            let mut parent_args = Node::new(NodeType::ArgList(0, 0));
            let mut m: usize = 0;
            let ghost fuel_m = *fuel;
            let ghost st_m = *state;
            while m < initlist.children.len()
                invariant
                    initlist.children@.len() == 0 ==> *fuel == fuel_m,
                    initlist.children@.len() == 0 ==> *state == st_m,
                    *old(fuel) > 3 && simple_construction(*funcobj, *args, *old(state)) ==> initlist.children@.len() == 0,
                    rt_wf(*state),
                    keeps(*old(state), *state),
                    *fuel < *old(fuel),
                    m <= initlist.children@.len(),
                decreases initlist.children@.len() - m,
            {
                let initter = &initlist.children[m];
                match &initter.nodetype {
                    NodeType::Initializer(_, _) => {
                        let target = child(initter, 0)?;
                        match &target.nodetype {
                            NodeType::Name(fieldname, _, _) => {
                                let valnode = child(initter, 1)?;
                                let fieldval = eval(valnode, state, host, fuel)?;
                                if !state.objsys.has_instance(&refid) {
                                    return Err(fatal(text("Instance under construction is gone.")));
                                }
                                state.objsys.set_instance_field(&refid, fieldname.clone(), fieldval);
                            },
                            _ => { return Err(fatal(text("Expected name node in initializer list"))); },
                        }
                    },
                    NodeType::Super(_, _) => {
                        let a = child(initter, 0)?;
                        parent_args = a.clone();
                    },
                    _ => { return Err(fatal(text("Expected initializer node in initializer list"))); },
                }
                m = m + 1;
            }
            proof {
                reveal_strlit("");
                if parent_name@.len() == 0 {
                    assert(parent_name@ =~= ""@);
                }
            }
            if !parent_name.eq(&text("")) {
                match state.find_global(parent_name.as_str()) {
                    Some(pi) => {
                        let parent_cons = state.globals[pi].clone();
                        match evalhelp::create_constructor(&parent_cons) {
                            Ok(pc) => {
                                let parent_rk = call_constructor(&pc, &parent_args, state, host, fuel)?;
                                if !state.objsys.has_instance(&refid) {
                                    return Err(fatal(text("Instance under construction is gone.")));
                                }
                                state.objsys.set_instance_parent(&refid, MaybeObject::Present(parent_rk));
                            },
                            Err(_) => { return Err(fatal(text("Not a constructor."))); },
                        }
                    },
                    None => {},
                }
            }
            let _ = eval(body, state, host, fuel)?;
            state.objsys.set_this(oldthis);
            state.constructing.pop();
            state.filepath = oldfilename;
            state.stack.pop_call();
            proof {
                if *old(fuel) > 3 && simple_construction(*funcobj, *args, *old(state)) {
                    assert(state.objsys.instances() == inst_after);
                    assert(instref == Object::Reference(ix.id));
                    assert(ix.classname@ == old(state).objsys.classes()[cname@].name@);
                }
            }
            Ok(instref)
        },
        _ => Err(fatal(text("Called a non-constructor object."))),
    }
}

/// Method `name` of the instance `rk` refers to.
pub fn method_of(rk: &RefKey, name: &str, state: &State, node: &Node) -> (r: Result<Object, EvalError>)
    requires
        rt_wf(*state),
    ensures
        state.objsys.inst_index(rk.0@) < 0 ==> r is Err && r->Err_0.kind == FailKind::Reported,
        state.objsys.inst_index(rk.0@) >= 0 ==> ({
            let inst = state.objsys.instances()[state.objsys.inst_index(rk.0@)];
            state.objsys.classes().contains_key(inst.classname@)
                && assoc_map(state.objsys.classes()[inst.classname@].methods@).contains_key(name@)
                && assoc_map(state.objsys.classes()[inst.classname@].methods@)[name@] is Function ==> r is Ok
        }),
        r matches Ok(m) ==> state.objsys.inst_index(rk.0@) >= 0 && ({
            let inst = state.objsys.instances()[state.objsys.inst_index(rk.0@)];
            &&& state.objsys.classes().contains_key(inst.classname@)
            &&& assoc_map(state.objsys.classes()[inst.classname@].methods@).contains_key(name@)
            &&& copies(m, assoc_map(state.objsys.classes()[inst.classname@].methods@)[name@])
            &&& m is Function
        }),
{
    if !state.objsys.has_instance(rk) {
        return Err(err_node(concat("No object for method ", name), node));
    }
    let inst = state.objsys.get_instance(rk);
    if !state.objsys.has_class(inst.classname.as_str()) {
        return Err(fatal(concat("Class not found: ", inst.classname.as_str())));
    }
    match state.objsys.get_class(inst.classname.as_str()).get_method(name) {
        Some(m) => Ok(m.duplicate()),
        None => Err(fatal(text("No such method"))),
    }
}

/// `n` after `++` (`up`) or `--`, wrapping as 64-bit integers do.
pub open spec fn stepped(n: i64, up: bool) -> i64 {
    if up { n.wrapping_add(1) } else { n.wrapping_sub(1) }
}

/// `++` or `--` on a name, before or after reading it.
fn step<H: Host>(node: &Node, up: bool, pre: bool, state: &mut State, host: &mut H, fuel: &mut u64) -> (r: Result<Object, EvalError>)
    requires
        rt_wf(*old(state)),
    ensures
        rt_wf(*final(state)),
        keeps(*old(state), *final(state)),
        *final(fuel) <= *old(fuel),
        r is Ok ==> *final(fuel) < *old(fuel),
        *old(fuel) > 0 && node.children@.len() > 0 && node.children@[0].nodetype is Name
            && old(state).stack.model().frames.len() > 0 && old(state).stack.model().lex_level > 0
            ==> (visible(old(state).stack.model(), node.children@[0].nodetype->Name_0@) matches Some(Object::Int(n))
            ==> r == Ok::<Object, EvalError>(Object::Int(if pre { stepped(n, up) } else { n }))
                && final(state).stack.model() == update_model(old(state).stack.model(), node.children@[0].nodetype->Name_0@,
                    Object::Int(stepped(n, up))) && stack_only(*old(state), *final(state))),
    decreases *old(fuel), 2nat,
{
    burn(fuel)?;
    let label = if pre { if up { "preincrement" } else { "predecrement" } } else { if up { "increment" } else { "decrement" } };
    let valnode = child(node, 0)?;
    match &valnode.nodetype {
        NodeType::Name(s, _, _) => {
            let on_stack = state.stack.ready() && state.stack.has(s.as_str());
            let oldval = if on_stack {
                state.stack.get(s.as_str()).duplicate()
            } else {
                let this = this_object(state, valnode)?;
                get_field(this, s.as_str(), state, host, fuel, valnode)?
            };
            match values::step_value(&oldval, up) {
                Outcome::Value(newval) => {
                    if on_stack && state.stack.ready() {
                        state.stack.update(s.as_str(), newval.duplicate());
                    } else {
                        let this = this_object(state, valnode)?;
                        set_field(this, s.as_str(), newval.duplicate(), state, host, valnode)?;
                    }
                    if pre { Ok(newval) } else { Ok(oldval) }
                },
                _ => {
                    let shown = show_value(&oldval, host);
                    let mut m = concat3("Illegal operand for ", label, ": ");
                    m.append(shown.as_str());
                    Err(err_node(m, valnode))
                },
            }
        },
        _ => Err(err_node(concat3("Illegal operand for ", label, "."), valnode)),
    }
}

/// An assignment: to a name, a new typed variable, or a list element.
fn assign<H: Host>(node: &Node, state: &mut State, host: &mut H, fuel: &mut u64) -> (r: Result<Object, EvalError>)
    requires
        rt_wf(*old(state)),
    ensures
        rt_wf(*final(state)),
        keeps(*old(state), *final(state)),
        *final(fuel) <= *old(fuel),
        r is Ok ==> *final(fuel) < *old(fuel),
        *old(fuel) > 2 && node.children@.len() >= 2 && node.children@[0].nodetype is TypedVar
            && literal_value(node.children@[1]) is Some
            && old(state).stack.model().frames.len() > 0 && old(state).stack.model().lex_level > 0
            && !top(old(state).stack.model()).last().contains_key(node.children@[0].nodetype->TypedVar_1@)
            ==> r == Ok::<Object, EvalError>(Object::Null) && final(state).stack.model()
                == add_new_model(old(state).stack.model(), node.children@[0].nodetype->TypedVar_1@, literal_value(node.children@[1])->0),
        node.children@.len() >= 2 && node.children@[0].nodetype is TypedVar && *old(fuel) >= 1 + pure_cost(node.children@[1])
            && old(state).stack.model().frames.len() > 0 && old(state).stack.model().lex_level > 0
            ==> (pure_value(node.children@[1], *old(state)) matches Some(v) ==> ({
                let x = node.children@[0].nodetype->TypedVar_1@;
                &&& top(old(state).stack.model()).last().contains_key(x) ==> r is Err && r->Err_0.kind == FailKind::Reported
                    && r->Err_0.msg@ == "'"@ + x + "' is already declared in this scope."@
                    && final(state).stack.model() == old(state).stack.model()
                &&& !top(old(state).stack.model()).last().contains_key(x) ==> r == Ok::<Object, EvalError>(Object::Null)
                    && final(state).stack.model() == add_new_model(old(state).stack.model(), x, v)
            })),
        r matches Ok(v) ==> v == Object::Null,
        r is Ok && node.nodetype is Assign && !old(state).in_const && old(state).eval_var@.len() == 0
            ==> (stmt_effect(*node, old(state).stack.model()) matches Some(m2) ==> final(state).stack.model() == m2
                && final(state).in_const == old(state).in_const && final(state).eval_var == old(state).eval_var),
    decreases *old(fuel), 2nat,
{
    burn(fuel)?;
    let target = child(node, 0)?;
    let valnode = child(node, 1)?;
    let right = eval(valnode, state, host, fuel)?;
    match &target.nodetype {
        NodeType::Name(_, _, _) => {
            set_name(target, right, state, host, fuel)?;
        },
        NodeType::TypedVar(_, name, _, _) => {
            if !state.stack.ready() {
                return Err(fatal(text("No call frame.")));
            }
            if state.stack.has_in_lexscope(name.as_str()) {
                return Err(err_node(concat3("'", name.as_str(), "' is already declared in this scope."), target));
            }
            state.stack.add_new(name.as_str(), right);
        },
        NodeType::CollAccess(_, _) => {
            let owner = child(target, 0)?;
            let index_node = child(target, 1)?;
            match &owner.nodetype {
                NodeType::Name(name, _, _) => {
                    let on_stack = state.stack.ready() && state.stack.has(name.as_str());
                    if !on_stack && !this_has_field(state, name.as_str()) {
                        match state.find_global(name.as_str()) {
                            Some(gi) => {
                                match &state.globals[gi].nodetype {
                                    NodeType::ConstTopLazy(..) | NodeType::ConstTopVar(..) => {
                                        return Err(err_node(text("Unsupported operation: Cannot modify an unmodifiable list"), node));
                                    },
                                    _ => {},
                                }
                            },
                            None => {},
                        }
                    }
                    let ulist = get_name(owner, state, host, fuel)?;
                    let index = eval(index_node, state, host, fuel)?;
                    set_list_element(ulist, index, right, state, host, fuel, owner, index_node)?;
                },
                _ => { return Err(err_node(text("Unexpected token."), owner)); },
            }
        },
        _ => { return Err(fatal(text("Illegal name for assignment."))); },
    }
    Ok(Object::Null)
}

/// The pieces of `s` between its `$` marks, in order: one more than there
/// are marks.
pub open spec fn dollar_pieces(s: Seq<char>) -> Seq<Seq<char>>
    decreases s.len(),
{
    if s.len() == 0 {
        seq![seq![]]
    } else {
        let p = dollar_pieces(s.drop_last());
        if s.last() == '$' {
            p.push(seq![])
        } else {
            p.update(p.len() - 1, p.last().push(s.last()))
        }
    }
}

pub proof fn lemma_dollar_pieces_len(s: Seq<char>)
    ensures
        dollar_pieces(s).len() >= 1,
    decreases s.len(),
{
    if s.len() > 0 {
        lemma_dollar_pieces_len(s.drop_last());
    }
}

/// Entry `i` of `x`, or nothing past its end.
pub open spec fn part(x: Seq<Seq<char>>, i: int) -> Seq<char> {
    if 0 <= i < x.len() { x[i] } else { seq![] }
}

/// The first `n` pieces `p` each followed by the value text `v` of the same
/// index.
pub open spec fn woven(p: Seq<Seq<char>>, v: Seq<Seq<char>>, n: nat) -> Seq<char>
    decreases n,
{
    if n == 0 { seq![] } else { woven(p, v, (n - 1) as nat) + part(p, n - 1) + part(v, n - 1) }
}

/// The text of a string literal `s` whose `$` marks are filled in with the
/// value texts `v`, in order.
pub open spec fn interpolated(s: Seq<char>, v: Seq<Seq<char>>) -> Seq<char> {
    let p = dollar_pieces(s);
    woven(p, v, if p.len() >= v.len() { p.len() } else { v.len() })
}

/// The pieces of `s` between its `$` marks, as `dollar_pieces` says.
fn dollar_pieces_of(s: &String) -> (r: Vec<String>)
    ensures
        r@.map_values(|x: String| x@) == dollar_pieces(s@),
{
    let cs = crate::text::chars_of(s.as_str());
    let mut pieces: Vec<String> = Vec::new();
    pieces.push(String::new());
    assert(pieces@.map_values(|x: String| x@) =~= dollar_pieces(cs@.take(0)));
    let mut i: usize = 0;
    while i < cs.len()
        invariant
            cs@ == s@,
            i <= cs@.len(),
            pieces@.len() >= 1,
            pieces@.map_values(|x: String| x@) == dollar_pieces(cs@.take(i as int)),
        decreases cs@.len() - i,
    {
        let ghost before = pieces@.map_values(|x: String| x@);
        assert(cs@.take(i + 1).drop_last() =~= cs@.take(i as int));
        if cs[i] == '$' {
            pieces.push(String::new());
            assert(pieces@.map_values(|x: String| x@) =~= before.push(seq![]));
        } else {
            let mut last = pieces.pop().unwrap();
            crate::text::string_push(&mut last, cs[i]);
            pieces.push(last);
            assert(pieces@.map_values(|x: String| x@) =~= before.update(before.len() - 1, before.last().push(cs@[i as int])));
        }
        i = i + 1;
    }
    assert(cs@.take(cs@.len() as int) =~= cs@);
    pieces
}

/// A string literal, with its interpolated values written in: the pieces
/// between its `$` marks, each followed by the text of the value of the
/// same index.
fn string_value<H: Host>(node: &Node, s: &String, state: &mut State, host: &mut H, fuel: &mut u64) -> (r: Result<Object, EvalError>)
    requires
        rt_wf(*old(state)),
    ensures
        rt_wf(*final(state)),
        keeps(*old(state), *final(state)),
        *final(fuel) <= *old(fuel),
        r is Ok ==> *final(fuel) < *old(fuel),
        *old(fuel) > 0 && node.children@.len() == 0 ==> (r matches Ok(Object::String(t)) && t@ == s@),
        *old(fuel) > 0 && node.children@.len() == 0 ==> r == Ok::<Object, EvalError>(Object::String(*s))
            && *final(state) == *old(state) && *final(fuel) == *old(fuel) - 1,
        *old(fuel) > 1 + node.children@.len() && node.children@.len() > 0 && all_literals(node.children@)
            ==> (r matches Ok(Object::String(t)) && t@ == interpolated(s@, shown_all(literal_values(node.children@)))),
        node.children@.len() == 1 && node.children@[0].children@.len() == 0 && !old(state).in_const && old(state).eval_var@.len() == 0
            && old(state).stack.model().call_level < usize::MAX
            ==> (pure_value(node.children@[0], *old(state)) matches Some(Object::Reference(k)) ==> (tostring_text(*old(state), k.0@) matches Some(t)
            ==> (*old(fuel) >= 5 + pure_cost(node.children@[0]) + pure_cost(tostring_expr(old(state).objsys, k.0@)->0)
            ==> (r matches Ok(Object::String(x)) && x@ == interpolated(s@, seq![t]))))),
    decreases *old(fuel), 2nat,
{
    let ghost refcase = node.children@.len() == 1 && node.children@[0].children@.len() == 0 && !old(state).in_const
        && old(state).eval_var@.len() == 0 && old(state).stack.model().call_level < usize::MAX
        && (pure_value(node.children@[0], *old(state)) matches Some(Object::Reference(k))
            && tostring_text(*old(state), k.0@) is Some
            && *old(fuel) >= 5 + pure_cost(node.children@[0]) + pure_cost(tostring_expr(old(state).objsys, k.0@)->0));
    let ghost tk = pure_value(node.children@[0], *old(state))->0->Reference_0;
    proof {
        if refcase {
            reveal_with_fuel(pure_costs, 2);
            reveal_with_fuel(pure_values, 2);
            assert(node.children@.drop_last() =~= Seq::<Node>::empty());
            assert(node.children@.last() == node.children@[0]);
            assert(pure_costs(node.children@) == pure_cost(node.children@[0]));
            assert(pure_values(node.children@, *old(state)) == Some(seq![Object::Reference(tk)]));
        }
    }
    burn(fuel)?;
    if node.children.len() == 0 {
        return Ok(Object::String(s.clone()));
    }
    let vals = argnodes_to_argobjs(&node.children, state, host, fuel)?;
    let ghost lits = all_literals(node.children@) && *old(fuel) > 1 + node.children@.len();
    let mut shown: Vec<String> = Vec::new();
    let mut i: usize = 0;
    while i < vals.len()
        invariant
            rt_wf(*state),
            keeps(*old(state), *state),
            *fuel < *old(fuel),
            i <= vals@.len(),
            vals@.len() == node.children@.len(),
            shown@.len() == i,
            lits == (all_literals(node.children@) && *old(fuel) > 1 + node.children@.len()),
            lits ==> vals@ == literal_values(node.children@),
            lits ==> shown@.map_values(|x: String| x@) == shown_all(vals@.take(i as int)),
            refcase == (node.children@.len() == 1 && node.children@[0].children@.len() == 0 && !old(state).in_const
                && old(state).eval_var@.len() == 0 && old(state).stack.model().call_level < usize::MAX
                && (pure_value(node.children@[0], *old(state)) matches Some(Object::Reference(k))
                    && tostring_text(*old(state), k.0@) is Some
                    && *old(fuel) >= 5 + pure_cost(node.children@[0]) + pure_cost(tostring_expr(old(state).objsys, k.0@)->0))),
            refcase ==> vals@ == seq![Object::Reference(tk)],
            refcase ==> pure_value(node.children@[0], *old(state)) == Some(Object::Reference(tk))
                && tostring_text(*old(state), tk.0@) is Some && !old(state).in_const && old(state).eval_var@.len() == 0
                && old(state).stack.model().call_level < usize::MAX && node.children@.len() == 1 && node.children@[0].children@.len() == 0
                && *old(fuel) >= 5 + pure_cost(node.children@[0]) + pure_cost(tostring_expr(old(state).objsys, tk.0@)->0),
            refcase && i == 0 ==> *state == *old(state) && *fuel >= *old(fuel) - 2 - pure_cost(node.children@[0]),
            refcase && i == 1 ==> shown@.map_values(|x: String| x@) == seq![tostring_text(*old(state), tk.0@)->0],
        decreases vals@.len() - i,
    {
        let ghost before = shown@.map_values(|x: String| x@);
        proof {
            if lits {
                assert(literal_value(node.children@[i as int]) is Some);
                assert(vals@[i as int] == literal_value(node.children@[i as int])->0);
            }
        }
        let piece = match &vals[i] {
            Object::Reference(rk) => {
                proof {
                    if refcase {
                        assert(i == 0);
                        assert(*rk == tk);
                        assert(*state == *old(state));
                        assert(pure_value(node.children@[0], *old(state)) == Some(Object::Reference(tk)));
                        assert(tostring_text(*old(state), tk.0@) is Some);
                        assert(tostring_expr(old(state).objsys, tk.0@) is Some);
                        assert(tostring_expr(state.objsys, rk.0@) is Some);
                        let o = state.objsys;
                        let inst = o.instances()[o.inst_index(rk.0@)];
                        assert(o.inst_index(rk.0@) >= 0);
                        assert(o.classes().contains_key(inst.classname@));
                        assert(assoc_map(o.classes()[inst.classname@].methods@).contains_key("toString"@));
                        assert(assoc_map(o.classes()[inst.classname@].methods@)["toString"@] is Function);
                    }
                }
                let m = method_of(rk, "toString", state, &node.children[i])?;
                call_tostring(rk, &m, &node.children[0], state, host, fuel)?
            },
            v => show_value(v, host),
        };
        let ghost before2 = shown@;
        shown.push(piece);
        proof {
            if refcase && i == 0 {
                assert(shown@.map_values(|x: String| x@) =~= seq![piece@]);
            }
        }
        proof {
            if lits {
                assert(literal_value(node.children@[i as int]) is Some);
                assert(shown_all(vals@.take(i + 1)) =~= shown_all(vals@.take(i as int)).push(shown_text(vals@[i as int])->0));
                assert(shown@.map_values(|x: String| x@) =~= before.push(piece@));
            }
        }
        i = i + 1;
    }
    let pieces = dollar_pieces_of(s);
    proof { lemma_dollar_pieces_len(s@); }
    let n = if pieces.len() >= shown.len() { pieces.len() } else { shown.len() };
    let ghost pv = pieces@.map_values(|x: String| x@);
    let ghost sv = shown@.map_values(|x: String| x@);
    let mut built = String::new();
    let mut j: usize = 0;
    while j < n
        invariant
            j <= n,
            n == (if pieces@.len() >= shown@.len() { pieces@.len() } else { shown@.len() }),
            pv == pieces@.map_values(|x: String| x@),
            sv == shown@.map_values(|x: String| x@),
            built@ == woven(pv, sv, j as nat),
        decreases n - j,
    {
        if j < pieces.len() {
            built.append(pieces[j].as_str());
        }
        if j < shown.len() {
            built.append(shown[j].as_str());
        }
        assert(built@ =~= woven(pv, sv, (j + 1) as nat));
        j = j + 1;
    }
    proof {
        if lits {
            assert(vals@.take(vals@.len() as int) =~= vals@);
        }
    }
    Ok(Object::String(built))
}

/// Runs `body` in a new lexical scope.
fn in_scope<H: Host>(body: &Node, state: &mut State, host: &mut H, fuel: &mut u64) -> (r: Result<Object, EvalError>)
    requires
        rt_wf(*old(state)),
    ensures
        rt_wf(*final(state)),
        keeps(*old(state), *final(state)),
        *final(fuel) <= *old(fuel),
        r is Ok ==> *final(fuel) < *old(fuel),
        *old(fuel) > 1 && literal_value(*body) is Some && old(state).stack.model().frames.len() > 0
            && 0 < old(state).stack.model().lex_level < usize::MAX ==> r == Ok::<Object, EvalError>(literal_value(*body)->0)
                && final(state).stack.model() == old(state).stack.model(),
    decreases *old(fuel), 2nat,
{
    burn(fuel)?;
    if !state.stack.ready() || state.stack.lex_level() == usize::MAX {
        return Err(fatal(text("No call frame.")));
    }
    let ghost m0 = state.stack.model();
    state.stack.push_lex();
    let ret = eval(body, state, host, fuel)?;
    if !state.stack.ready() || state.stack.lex_level() <= 1 {
        return Err(fatal(text("Scope lost.")));
    }
    state.stack.pop_lex();
    proof {
        if literal_value(*body) is Some {
            crate::stack::lemma_push_pop_lex(m0);
        }
    }
    Ok(ret)
}

/// A boolean condition's value.
fn condition<H: Host>(node: &Node, state: &mut State, host: &mut H, fuel: &mut u64) -> (r: Result<bool, EvalError>)
    requires
        rt_wf(*old(state)),
    ensures
        rt_wf(*final(state)),
        keeps(*old(state), *final(state)),
        *final(fuel) <= *old(fuel),
        r is Ok ==> *final(fuel) < *old(fuel),
        *old(fuel) > 1 && literal_value(*node) is Some ==> (literal_value(*node)->0 matches Object::Bool(b) ==> r == Ok::<bool, EvalError>(b))
            && (!(literal_value(*node)->0 is Bool) ==> r is Err) && *final(state) == *old(state)
            && (r is Ok ==> *final(fuel) == *old(fuel) - 2),
        r is Ok ==> (pure_value(*node, *old(state)) matches Some(Object::Bool(b))
            ==> r == Ok::<bool, EvalError>(b) && *final(state) == *old(state)),
    decreases *old(fuel), 2nat,
{
    burn(fuel)?;
    let v = eval(node, state, host, fuel)?;
    match v {
        Object::Bool(b) => Ok(b),
        other => {
            let shown = show_value(&other, host);
            Err(err_node(concat("Expected bool in conditional. Got: ", shown.as_str()), node))
        },
    }
}

/// Collects garbage when the host says it is due.
fn maybe_collect<H: Host>(state: &mut State, host: &mut H) -> (r: Result<(), EvalError>)
    requires
        rt_wf(*old(state)),
    ensures
        rt_wf(*final(state)),
        keeps(*old(state), *final(state)),
        final(state).stack == old(state).stack,
        final(state).globals == old(state).globals,
        final(state).constructing == old(state).constructing,
        final(state).objsys.this_key() == old(state).objsys.this_key(),
        *final(state) == (State { objsys: final(state).objsys, ..*old(state) }),
        r is Err ==> r->Err_0.kind == FailKind::Panicked
            && exists|k: Seq<char>| r->Err_0.msg@ == "GC could not find heap object: "@ + k && !old(state).objsys.heap_has(k),
{
    if host.gc_due() {
        match state.stack.garbagecollect(&mut state.objsys, &state.constructing) {
            Ok(_) => {},
            Err(missing) => {
                let e = fatal(concat("GC could not find heap object: ", missing.0.as_str()));
                assert(e.msg@ == "GC could not find heap object: "@ + missing.0@);
                return Err(e);
            },
        }
        host.gc_done();
    }
    Ok(())
}

/// Loops: `while`, `do .. while`, and the two forms of `for`.
fn run_loop<H: Host>(node: &Node, state: &mut State, host: &mut H, fuel: &mut u64) -> (r: Result<Object, EvalError>)
    requires
        rt_wf(*old(state)),
    ensures
        rt_wf(*final(state)),
        keeps(*old(state), *final(state)),
        *final(fuel) <= *old(fuel),
        r is Ok ==> *final(fuel) < *old(fuel),
        *old(fuel) > 2 && node.nodetype is While && node.children@.len() >= 2
            && literal_value(node.children@[0]) == Some(Object::Bool(false)) ==> r == Ok::<Object, EvalError>(Object::Null),
        *old(fuel) > 0 && !(node.nodetype is While) && !(node.nodetype is DoWhile) && node.children@.len() != 3
            && node.children@.len() != 4 ==> r == Ok::<Object, EvalError>(Object::Null),
        r is Ok && !(node.nodetype is While) && !(node.nodetype is DoWhile) && node.children@.len() == 4
            && !old(state).in_const && old(state).eval_var@.len() == 0
            ==> (stmt_effect(node.children@[0], old(state).stack.model()) matches Some(m1)
            ==> (for_simple(node.children@[1], node.children@[2], node.children@[3], m1)
            ==> exists|k: nat| #[trigger] for_rounds(node.children@[1], node.children@[2], node.children@[3], m1, k)
                == Some(final(state).stack.model())
                && pure_with(node.children@[1], final(state).stack.model(), true) == Some(Object::Bool(false)))),
        r is Ok && node.nodetype is While && node.children@.len() >= 2 && !old(state).in_const && old(state).eval_var@.len() == 0
            && while_simple(node.children@[0], node.children@[1], old(state).stack.model())
            ==> exists|k: nat| #[trigger] while_rounds(node.children@[0], node.children@[1], old(state).stack.model(), k)
                == Some(final(state).stack.model())
                && pure_with(node.children@[0], final(state).stack.model(), true) == Some(Object::Bool(false)),
        r is Ok && node.nodetype is DoWhile && node.children@.len() >= 2 && !old(state).in_const && old(state).eval_var@.len() == 0
            ==> (body_effect(node.children@[0], old(state).stack.model()) matches Some(m1)
            ==> (while_simple(node.children@[1], node.children@[0], m1)
            ==> exists|k: nat| #[trigger] while_rounds(node.children@[1], node.children@[0], m1, k) == Some(final(state).stack.model())
                && pure_with(node.children@[1], final(state).stack.model(), true) == Some(Object::Bool(false)))),
    decreases *old(fuel), 2nat,
{
    burn(fuel)?;
    match &node.nodetype {
        NodeType::While(_, _) => {
            let boolnode = child(node, 0)?;
            let block = child(node, 1)?;
            let ghost m0 = state.stack.model();
            let ghost simple = !state.in_const && state.eval_var@.len() == 0 && while_simple(*boolnode, *block, m0);
            let ghost mut k: nat = 0;
            proof {
                if simple {
                    assert(while_rounds(*boolnode, *block, m0, 0) is Some);
                }
            }
            let mut v = condition(boolnode, state, host, fuel)?;
            while v
                invariant
                    rt_wf(*state),
                    keeps(*old(state), *state),
                    *fuel < *old(fuel),
                    node.nodetype is While,
                    *old(fuel) > 2 && node.children@.len() >= 2
                        && literal_value(node.children@[0]) == Some(Object::Bool(false)) ==> !v,
                    node.children@.len() >= 2,
                    *boolnode == node.children@[0],
                    *block == node.children@[1],
                    m0 == old(state).stack.model(),
                    simple == (!old(state).in_const && old(state).eval_var@.len() == 0 && while_simple(*boolnode, *block, m0)),
                    simple ==> !state.in_const && state.eval_var@.len() == 0
                        && while_rounds(*boolnode, *block, m0, k) == Some(state.stack.model())
                        && pure_with(*boolnode, state.stack.model(), true) == Some(Object::Bool(v)),
                decreases *fuel,
            {
                proof {
                    if simple {
                        assert(while_rounds(*boolnode, *block, m0, k) is Some);
                        assert(while_rounds(*boolnode, *block, m0, k + 1) is Some);
                    }
                }
                let _ = eval(block, state, host, fuel)?;
                proof {
                    if simple {
                        k = k + 1;
                        assert(while_rounds(*boolnode, *block, m0, k) is Some);
                    }
                }
                v = condition(boolnode, state, host, fuel)?;
            }
            proof {
                if simple {
                    assert(while_rounds(*boolnode, *block, m0, k) == Some(state.stack.model()));
                }
            }
            Ok(Object::Null)
        },
        NodeType::DoWhile(_, _) => {
            let block = child(node, 0)?;
            let boolnode = child(node, 1)?;
            let ghost flags = !state.in_const && state.eval_var@.len() == 0;
            let ghost b0 = body_effect(*block, state.stack.model());
            let _ = eval(block, state, host, fuel)?;
            let ghost m1 = state.stack.model();
            let ghost simple = flags && b0 is Some && while_simple(*boolnode, *block, m1);
            let ghost mut k: nat = 0;
            proof {
                if simple {
                    assert(b0 == Some(m1));
                    assert(while_rounds(*boolnode, *block, m1, 0) is Some);
                }
            }
            let mut b = condition(boolnode, state, host, fuel)?;
            while b
                invariant
                    rt_wf(*state),
                    keeps(*old(state), *state),
                    *fuel < *old(fuel),
                    node.nodetype is DoWhile,
                    node.children@.len() >= 2,
                    *block == node.children@[0],
                    *boolnode == node.children@[1],
                    flags == (!old(state).in_const && old(state).eval_var@.len() == 0),
                    b0 == body_effect(*block, old(state).stack.model()),
                    simple == (flags && b0 is Some && while_simple(*boolnode, *block, m1)),
                    simple ==> b0 == Some(m1),
                    simple ==> !state.in_const && state.eval_var@.len() == 0
                        && while_rounds(*boolnode, *block, m1, k) == Some(state.stack.model())
                        && pure_with(*boolnode, state.stack.model(), true) == Some(Object::Bool(b)),
                decreases *fuel,
            {
                proof {
                    if simple {
                        assert(while_rounds(*boolnode, *block, m1, k) is Some);
                        assert(while_rounds(*boolnode, *block, m1, k + 1) is Some);
                    }
                }
                let _ = eval(block, state, host, fuel)?;
                proof {
                    if simple {
                        k = k + 1;
                        assert(while_rounds(*boolnode, *block, m1, k) is Some);
                    }
                }
                b = condition(boolnode, state, host, fuel)?;
            }
            proof {
                if simple {
                    assert(while_rounds(*boolnode, *block, m1, k) == Some(state.stack.model()));
                }
            }
            Ok(Object::Null)
        },
        _ => {
            if node.children.len() == 3 {
                let typedvar = &node.children[0];
                let iter_ref = eval(&node.children[1], state, host, fuel)?;
                let body = &node.children[2];
                let ilist_ref = get_field(iter_ref, "__list", state, host, fuel, node)?;
                let rk = match &ilist_ref {
                    Object::Reference(rk) => rk.duplicate(),
                    _ => { return Err(fatal(text("Expected reference in for loop."))); },
                };
                if !state.objsys.has_list(&rk) {
                    return Err(fatal(text("Expected a list in for loop.")));
                }
                let src = &state.objsys.get_list(&rk).els;
                let mut cloned: Vec<Object> = Vec::new();
                let mut j: usize = 0;
                while j < src.len()
                    decreases src@.len() - j,
                {
                    cloned.push(src[j].duplicate());
                    j = j + 1;
                }
                let name = match &typedvar.nodetype {
                    NodeType::TypedVar(_, name, _, _) => name.clone(),
                    _ => { return Err(fatal(text("For loop expects a typed variable."))); },
                };
                if !state.stack.ready() || state.stack.lex_level() == usize::MAX {
                    return Err(fatal(text("No call frame.")));
                }
                state.stack.push_lex();
                let mut i: usize = 0;
                while i < cloned.len()
                    invariant
                        rt_wf(*state),
                        keeps(*old(state), *state),
                        *fuel < *old(fuel),
                        i <= cloned@.len(),
                        node.children@.len() == 3,
                        !(node.nodetype is While),
                    decreases cloned@.len() - i,
                {
                    if !state.stack.ready() {
                        return Err(fatal(text("No call frame.")));
                    }
                    state.stack.add_new(name.as_str(), cloned[i].duplicate());
                    let _ = eval(body, state, host, fuel)?;
                    i = i + 1;
                }
                if !state.stack.ready() || state.stack.lex_level() <= 1 {
                    return Err(fatal(text("Scope lost.")));
                }
                state.stack.pop_lex();
                Ok(Object::Null)
            } else if node.children.len() == 4 {
                let ghost c0 = node.children@[1];
                let ghost u0 = node.children@[2];
                let ghost b0 = node.children@[3];
                let ghost flags = !state.in_const && state.eval_var@.len() == 0;
                let ghost m0 = state.stack.model();
                let _ = eval(&node.children[0], state, host, fuel)?;
                let ghost simple = flags && stmt_effect(node.children@[0], m0) is Some
                    && for_simple(c0, u0, b0, state.stack.model());
                let ghost m1 = state.stack.model();
                let ghost mut k: nat = 0;
                let mut going = true;
                while going
                    invariant
                        rt_wf(*state),
                        keeps(*old(state), *state),
                        *fuel < *old(fuel),
                        node.children@.len() == 4,
                        !(node.nodetype is While),
                        c0 == node.children@[1],
                        u0 == node.children@[2],
                        b0 == node.children@[3],
                        flags == (!old(state).in_const && old(state).eval_var@.len() == 0),
                        flags && stmt_effect(node.children@[0], m0) is Some
                            ==> stmt_effect(node.children@[0], m0) == Some(m1),
                        m0 == old(state).stack.model(),
                        simple == (flags && stmt_effect(node.children@[0], m0) is Some && for_simple(c0, u0, b0, m1)),
                        simple ==> !state.in_const && state.eval_var@.len() == 0
                            && for_rounds(c0, u0, b0, m1, k) == Some(state.stack.model()),
                        simple && !going ==> pure_with(c0, state.stack.model(), true) == Some(Object::Bool(false)),
                    decreases *fuel,
                {
                    let ghost mk = state.stack.model();
                    proof {
                        if simple {
                            assert(for_rounds(c0, u0, b0, m1, k) is Some);
                        }
                    }
                    let c = eval(&node.children[1], state, host, fuel)?;
                    match c {
                        Object::Bool(b) => {
                            if b {
                                proof {
                                    if simple {
                                        assert(pure_with(c0, mk, true) == Some(Object::Bool(true)));
                                        assert(for_rounds(c0, u0, b0, m1, k + 1) is Some);
                                    }
                                }
                                let _ = eval(&node.children[3], state, host, fuel)?;
                                let _ = eval(&node.children[2], state, host, fuel)?;
                                proof {
                                    if simple {
                                        k = k + 1;
                                    }
                                }
                            } else {
                                going = false;
                            }
                        },
                        _ => { return Err(err_node(text("Expected boolean expression."), &node.children[1])); },
                    }
                }
                proof {
                    if simple {
                        assert(for_rounds(c0, u0, b0, m1, k) == Some(state.stack.model()));
                    }
                }
                Ok(Object::Null)
            } else {
                Ok(Object::Null)
            }
        },
    }
}

/// A call of a named function: a function value on the stack, a top-level
/// function or constructor of the current file, or a built-in.
fn fun_call<H: Host>(node: &Node, s: &String, state: &mut State, host: &mut H, fuel: &mut u64) -> (r: Result<Object, EvalError>)
    requires
        rt_wf(*old(state)),
    ensures
        rt_wf(*final(state)),
        keeps(*old(state), *final(state)),
        *final(fuel) <= *old(fuel),
        r is Ok ==> *final(fuel) < *old(fuel),
        s@ == "assert"@ && is_builtin(s@) && !old(state).in_const && node.children@.len() > 0
            && !(old(state).stack.model().frames.len() > 0 && old(state).stack.model().lex_level > 0
                && visible(old(state).stack.model(), s@) is Some)
            && !(old(state).has_table() && old(state).global_ok(s@))
            && *old(fuel) > 2 + node.children@[0].children@.len() && all_literals(node.children@[0].children@) && node.children@[0].children@.len() > 0
            ==> (literal_value(node.children@[0].children@[0]) == Some(Object::Bool(true)) ==> r == Ok::<Object, EvalError>(Object::Null))
            && (literal_value(node.children@[0].children@[0]) == Some(Object::Bool(false)) ==> r is Err && r->Err_0.kind == FailKind::Reported),
    decreases *old(fuel), 2nat,
{
    burn(fuel)?;
    if state.in_const {
        return Err(err_node(text("Not a constant expression."), node));
    }
    let args = child(node, 0)?;
    if state.stack.ready() && state.stack.has(s.as_str()) {
        let funcobj = state.stack.get(s.as_str()).duplicate();
        return match &funcobj {
            Object::Function(..) => call_function(MaybeRef::Absent, &funcobj, args, state, host, fuel),
            Object::Constructor(..) => call_constructor(&funcobj, args, state, host, fuel),
            _ => Err(fatal(text("Called non-callable."))),
        };
    }
    match state.find_global(s.as_str()) {
        Some(i) => {
            let funcnode = state.globals[i].clone();
            match &funcnode.nodetype {
                NodeType::FunDef(..) => match evalhelp::create_function(&funcnode) {
                    Ok(f) => call_function(MaybeRef::Absent, &f, args, state, host, fuel),
                    Err(_) => Err(fatal(text("Invalid parameter"))),
                },
                NodeType::Constructor(..) => match evalhelp::create_constructor(&funcnode) {
                    Ok(c) => call_constructor(&c, args, state, host, fuel),
                    Err(_) => Err(fatal(text("Invalid parameter"))),
                },
                _ => Err(fatal(text("Expected function definition or constructor."))),
            }
        },
        None => {
            if has_function(s.as_str()) {
                call(node, s.as_str(), state, host, fuel)
            } else {
                Err(err_node(concat("Function not found: ", s.as_str()), node))
            }
        },
    }
}

/// Reports why a list built-in refused its arguments.
fn list_failure<H: Host>(e: ApiError, fname: &str, args: &Vec<Object>, argnodes: &Vec<Node>, fnode: &Node, host: &mut H) -> (r: EvalError)
    ensures
        e is Internal ==> r.kind == FailKind::Panicked && r.msg@ == "Unexpected internal argument for "@ + fname@,
        !(e is Internal) ==> r.kind == FailKind::Reported,
        e matches ApiError::ArgCount(msg) ==> r.msg == msg,
        e is BadArgument ==> exists|shown: Seq<char>| r.msg@ == "Unexpected argument for "@ + fname@ + ": "@ + shown,
        e is NegativeIndex ==> exists|shown: Seq<char>| r.msg@ == "Negative index: "@ + shown,
        e is OutOfBounds ==> exists|a: Seq<char>, b: Seq<char>| r.msg@ == "Out of bounds index: "@ + a + " (list length is "@ + b + ")"@,
        e is RangeOrder ==> r.msg@ == "Second arg must be greater than first arg"@,
        e matches ApiError::NotAList(c) ==> r.msg@ == "Unexpected argument type for List.addAll(): "@ + c@,
        e is NoElement ==> r.msg@ == "No element"@,
{
    let at = |i: usize| -> (n: &Node) { if i < argnodes.len() { &argnodes[i] } else { fnode } };
    match e {
        ApiError::ArgCount(msg) => err_node(msg, fnode),
        ApiError::BadArgument(i) => {
            let shown = if i < args.len() { show_value(&args[i], host) } else { String::new() };
            let mut m = concat3("Unexpected argument for ", fname, ": ");
            m.append(shown.as_str());
            assert(m@ == "Unexpected argument for "@ + fname@ + ": "@ + shown@);
            err_node(m, at(i))
        },
        ApiError::NegativeIndex(i, n) => {
            let shown = show_value(&Object::Int(n), host);
            let m = concat("Negative index: ", shown.as_str());
            assert(m@ == "Negative index: "@ + shown@);
            err_node(m, at(i))
        },
        ApiError::OutOfBounds(i, n, len) => {
            let a = show_value(&Object::Int(n), host);
            let b = show_value(&Object::Int(len as i64), host);
            let mut m = concat3("Out of bounds index: ", a.as_str(), " (list length is ");
            m.append(b.as_str());
            m.append(")");
            assert(m@ == "Out of bounds index: "@ + a@ + " (list length is "@ + b@ + ")"@);
            err_node(m, at(i))
        },
        ApiError::RangeOrder => err_node(text("Second arg must be greater than first arg"), at(2)),
        ApiError::NotAList(c) => err_node(concat("Unexpected argument type for List.addAll(): ", c.as_str()), at(1)),
        ApiError::NoElement => err_node(text("No element"), fnode),
        ApiError::Internal => fatal(concat("Unexpected internal argument for ", fname)),
    }
}

/// Copies of the values `v`.
fn copy_all(v: &Vec<Object>) -> (r: Vec<Object>)
    ensures
        r@.len() == v@.len(),
        forall|i: int| 0 <= i < v@.len() ==> copies(#[trigger] r@[i], v@[i]),
        v@.len() > 0 && v@[0] is Reference ==> r@[0] == v@[0],
        v@.len() > 0 && !(v@[0] is Reference) ==> !(r@[0] is Reference),
{
    let mut r: Vec<Object> = Vec::new();
    let mut i: usize = 0;
    while i < v.len()
        invariant
            i <= v@.len(),
            r@.len() == i,
            forall|j: int| 0 <= j < i ==> copies(#[trigger] r@[j], v@[j]),
        decreases v@.len() - i,
    {
        r.push(v[i].duplicate());
        i = i + 1;
    }
    r
}

/// The message for a built-in called with the wrong number of arguments.
pub fn err_arg_count<H: Host>(fname: &str, expected: usize, got: usize, fnode: &Node, host: &mut H) -> (r: EvalError)
    ensures
        r.kind == FailKind::Reported,
        r.msg@ == "Expected "@ + int_text((got as i64) as int) + " argument(s) for "@ + fname@ + "(). Got: "@ + int_text((expected as i64) as int),
{
    let g = show_value(&Object::Int(got as i64), host);
    let e = show_value(&Object::Int(expected as i64), host);
    let mut m = concat3("Expected ", g.as_str(), " argument(s) for ");
    m.append(fname);
    m.append("(). Got: ");
    m.append(e.as_str());
    assert(m@ == "Expected "@ + g@ + " argument(s) for "@ + fname@ + "(). Got: "@ + e@);
    err_node(m, fnode)
}

/// The message for a built-in argument of the wrong type.
pub fn err_arg_type<H: Host>(fname: &str, expected: &str, got: &Object, argnode: &Node, host: &mut H) -> (r: EvalError)
    ensures
        r.kind == FailKind::Reported,
        exists|g: Seq<char>| r.msg@ == "Illegal argument '"@ + g + "' for "@ + fname@ + "(). Expected type: "@ + expected@,
        shown_text(*got) matches Some(g) ==> r.msg@ == "Illegal argument '"@ + g + "' for "@ + fname@ + "(). Expected type: "@ + expected@,
{
    let g = show_value(got, host);
    let mut m = concat3("Illegal argument '", g.as_str(), "' for ");
    m.append(fname);
    m.append("(). Expected type: ");
    m.append(expected);
    assert(m@ == "Illegal argument '"@ + g@ + "' for "@ + fname@ + "(). Expected type: "@ + expected@);
    err_node(m, argnode)
}

/// The expression that the `toString` method of the instance `k` returns,
/// where that method takes no parameters and its body is `return e;`.
pub open spec fn tostring_expr(o: ObjSys, k: Seq<char>) -> Option<Node> {
    if o.inst_index(k) >= 0 && o.classes().contains_key(o.instances()[o.inst_index(k)].classname@) {
        let ms = assoc_map(o.classes()[o.instances()[o.inst_index(k)].classname@].methods@);
        if ms.contains_key("toString"@) {
            match ms["toString"@] {
                Object::Function(_, _, body, params) => if params@.len() == 0 && body.nodetype is Return && body.children@.len() >= 1 {
                    Some(body.children@[0])
                } else {
                    None
                },
                _ => None,
            }
        } else {
            None
        }
    } else {
        None
    }
}

/// The text of the value that calling `toString` on the instance `k` gives,
/// where the expression it returns is one of `pure_with`, computed in the
/// new call.
pub open spec fn tostring_text(st: State, k: Seq<char>) -> Option<Seq<char>> {
    match tostring_expr(st.objsys, k) {
        Some(e) => match pure_with(e, push_call_model(st.stack.model()), true) {
            Some(v) => shown_text(v),
            None => None,
        },
        None => None,
    }
}

/// Writes the line `text` and records it among the printed lines.
fn emit<H: Host>(text: &String, state: &mut State, host: &mut H)
    ensures
        final(state).printed@ == old(state).printed@.push(text@),
        *final(state) == (State { printed: final(state).printed, ..*old(state) }),
{
    host.print_line(text.as_str());
    state.printed = Ghost(state.printed@.push(text@));
}

/// Calls the `toString` method `m` of the instance `k` and gives the text of
/// its value.
fn call_tostring<H: Host>(k: &RefKey, m: &Object, argsnode: &Node, state: &mut State, host: &mut H, fuel: &mut u64) -> (r: Result<String, EvalError>)
    requires
        rt_wf(*old(state)),
    ensures
        rt_wf(*final(state)),
        keeps(*old(state), *final(state)),
        *final(fuel) <= *old(fuel),
        tostring_text(*old(state), k.0@) matches Some(t) ==> ({
            let stored = assoc_map(old(state).objsys.classes()[old(state).objsys.instances()[old(state).objsys.inst_index(k.0@)].classname@].methods@)["toString"@];
            copies(*m, stored) && argsnode.children@.len() == 0 && !old(state).in_const && old(state).eval_var@.len() == 0
                && old(state).stack.model().call_level < usize::MAX
                && *old(fuel) >= 3 + pure_cost(tostring_expr(old(state).objsys, k.0@)->0)
                ==> (r matches Ok(x) && x@ == t) && final(state).printed == old(state).printed
        }),
    decreases *old(fuel), 4nat,
{
    let ghost o = *state;
    proof {
        if tostring_text(o, k.0@) is Some {
            let stored = assoc_map(o.objsys.classes()[o.objsys.instances()[o.objsys.inst_index(k.0@)].classname@].methods@)["toString"@];
            if copies(*m, stored) {
                let e = tostring_expr(o.objsys, k.0@)->0;
                let bm = m->Function_2;
                let bs = stored->Function_2;
                crate::node::lemma_node_parts(bm);
                crate::node::lemma_node_parts(bs);
                assert(bm.view() == bs.view());
                assert(bm.nodetype.view() == bs.nodetype.view());
                assert(bm.nodetype is Return);
                assert(bm.view().children[0] == bm.children@[0].view());
                assert(bs.view().children[0] == bs.children@[0].view());
                lemma_pure_view(bm.children@[0], e, push_call_model(o.stack.model()), true);
                lemma_pure_plain(e, push_call_model(o.stack.model()), true);
                if argsnode.children@.len() == 0 {
                    assert(argsnode.children@ =~= Seq::<Node>::empty());
                    assert(pure_values(argsnode.children@, o) == Some(Seq::<Object>::empty()));
                }
                assert(bind_params(push_call_model(o.stack.model()), m->Function_3@, Seq::<Object>::empty()) == push_call_model(o.stack.model()));
            }
        }
    }
    let v = call_function(MaybeRef::Ref(k.duplicate()), m, argsnode, state, host, fuel)?;
    let shown = show_value(&v, host);
    proof {
        if tostring_text(o, k.0@) is Some {
            let stored = assoc_map(o.objsys.classes()[o.objsys.instances()[o.objsys.inst_index(k.0@)].classname@].methods@)["toString"@];
            if copies(*m, stored) && argsnode.children@.len() == 0 && !o.in_const && o.eval_var@.len() == 0
                && o.stack.model().call_level < usize::MAX && *old(fuel) >= 3 + pure_cost(tostring_expr(o.objsys, k.0@)->0) {
                let e = tostring_expr(o.objsys, k.0@)->0;
                let bm = m->Function_2;
                let vs = pure_with(e, push_call_model(o.stack.model()), true)->0;
                let vm = pure_with(bm.children@[0], push_call_model(o.stack.model()), true)->0;
                lemma_same_shown(vm, vs);
            }
        }
    }
    Ok(shown)
}

/// `print(x)`: writes `x`, through its class's `toString` method when it is
/// an instance.
pub fn print<H: Host>(args: &Vec<Object>, argnodes: &Vec<Node>, argsnode: &Node, fnode: &Node, state: &mut State, host: &mut H, fuel: &mut u64) -> (r: Result<Object, EvalError>)
    requires
        rt_wf(*old(state)),
    ensures
        rt_wf(*final(state)),
        keeps(*old(state), *final(state)),
        *final(fuel) <= *old(fuel),
        r is Ok ==> *final(fuel) < *old(fuel),
        *old(fuel) > 0 && args@.len() != 1 ==> r is Err && r->Err_0.kind == FailKind::Reported,
        *old(fuel) > 0 && args@.len() == 1 && !(args@[0] is Reference)
            ==> r == Ok::<Object, EvalError>(Object::Null) && final(state).printed@.len() == old(state).printed@.len() + 1
                && *final(state) == (State { printed: final(state).printed, ..*old(state) })
                && (shown_text(args@[0]) matches Some(t) ==> final(state).printed@ == old(state).printed@.push(t)),
        args@.len() == 1 && !old(state).in_const && old(state).eval_var@.len() == 0 && old(state).stack.model().call_level < usize::MAX
            ==> (args@[0] matches Object::Reference(k) ==> (tostring_text(*old(state), k.0@) matches Some(t)
            ==> (*old(fuel) >= 4 + pure_cost(tostring_expr(old(state).objsys, k.0@)->0)
            ==> r == Ok::<Object, EvalError>(Object::Null) && final(state).printed@ == old(state).printed@.push(t)))),
        r matches Ok(v) ==> v == Object::Null,
    decreases *old(fuel), 2nat,
{
    burn(fuel)?;
    if args.len() != 1 {
        return Err(err_arg_count("print", 1, args.len(), fnode, host));
    }
    match &args[0] {
        Object::Reference(k) => {
            let at = if argnodes.len() > 0 { &argnodes[0] } else { fnode };
            let m = method_of(k, "toString", state, at)?;
            let (l, c) = argsnode.find_node_position();
            let tostring_args = Node::new(NodeType::ArgList(l, c));
            let shown = call_tostring(k, &m, &tostring_args, state, host, fuel)?;
            emit(&shown, state, host);
        },
        other => {
            let shown = show_value(other, host);
            emit(&shown, state, host);
        },
    }
    Ok(Object::Null)
}

/// `File(path)`: registers a file object for `path`, which must exist, and
/// stores it in the `_internalFile` field of the `File` instance that the
/// library code passes first.
pub fn file_construct<H: Host>(args: &Vec<Object>, argnodes: &Vec<Node>, fnode: &Node, state: &mut State, host: &mut H) -> (r: Result<Object, EvalError>)
    requires
        rt_wf(*old(state)),
    ensures
        rt_wf(*final(state)),
        keeps(*old(state), *final(state)),
        args@.len() != 2 ==> r is Err && r->Err_0.kind == FailKind::Reported,
        args@.len() == 2 && args@[0] is Reference && !(args@[1] is String) ==> r is Err && r->Err_0.kind == FailKind::Reported,
        args@.len() == 2 && !(args@[0] is Reference) ==> r is Err && r->Err_0.kind == FailKind::Panicked
            && r->Err_0.msg@ == "Unexpected internal arg"@,
        r matches Ok(v) ==> args@.len() == 2 && v == args@[0] && ({
            let k = args@[0]->Reference_0.0@;
            &&& old(state).objsys.inst_index(k) >= 0
            &&& final(state).objsys.instances()[old(state).objsys.inst_index(k)].field_map().contains_key("_internalFile"@)
        }),
{
    if args.len() != 2 {
        let got = if args.len() > 0 { args.len() - 1 } else { 0 };
        return Err(err_arg_count("File", 1, got, fnode, host));
    }
    match (&args[0], &args[1]) {
        (Object::Reference(rk), Object::String(s)) => {
            let found = host.file_exists(s.as_str());
            file_attach(rk, s, found, state)
        },
        (Object::Reference(_), other) => {
            let at = if argnodes.len() > 1 { &argnodes[1] } else { fnode };
            Err(err_arg_type("File", "String", other, at, host))
        },
        _ => Err(fatal(text("Unexpected internal arg"))),
    }
}

/// What `File(path)` does once it is known whether the file `path` exists
/// (`found`): registers a file object for `path` and stores a reference to
/// it in the `_internalFile` field of the instance `rk`, which it gives back.
pub fn file_attach(rk: &RefKey, path: &String, found: bool, state: &mut State) -> (r: Result<Object, EvalError>)
    requires
        rt_wf(*old(state)),
    ensures
        rt_wf(*final(state)),
        keeps(*old(state), *final(state)),
        !found ==> r is Err && r->Err_0.kind == FailKind::Panicked && r->Err_0.msg@ == "File not found: "@ + path@
            && *final(state) == *old(state),
        found && old(state).objsys.inst_index(rk.0@) < 0 ==> r is Err && r->Err_0.kind == FailKind::Panicked
            && r->Err_0.msg@ == "Unexpected internal arg"@ && *final(state) == *old(state),
        found && old(state).objsys.inst_index(rk.0@) >= 0 ==> r == Ok::<Object, EvalError>(Object::Reference(*rk)) && ({
            let i = old(state).objsys.inst_index(rk.0@);
            let fm = final(state).objsys.instances()[i].field_map();
            &&& fm.contains_key("_internalFile"@)
            &&& fm == old(state).objsys.instances()[i].field_map().insert("_internalFile"@, fm["_internalFile"@])
            &&& fm["_internalFile"@] matches Object::Reference(fk) && final(state).objsys.file_index(fk.0@) >= 0
                && final(state).objsys.files()[final(state).objsys.file_index(fk.0@)].filename == *path
                && !final(state).objsys.files()[final(state).objsys.file_index(fk.0@)].marked
        }),
{
    if !found {
        return Err(fatal(concat("File not found: ", path.as_str())));
    }
    if !state.objsys.has_instance(rk) {
        return Err(fatal(text("Unexpected internal arg")));
    }
    let fx = InternalFile::new(path.clone());
    let ghost f = fx;
    let ghost o0 = state.objsys;
    let internal = state.objsys.register_file(fx);
    proof {
        let o1 = state.objsys;
        let k = f.id.0@;
        lemma_first_index(file_ids(o0.files()), k);
        lemma_first_index(file_ids(o1.files()), k);
        if o0.file_index(k) >= 0 {
            let i = o0.file_index(k);
            assert(file_ids(o0.files())[i] == k);
            assert(file_ids(o1.files()) =~= file_ids(o0.files()));
            assert(o1.file_index(k) == i);
            assert(o1.files()[i] == f);
        } else {
            let n = o0.files().len() as int;
            assert(file_ids(o1.files()) =~= file_ids(o0.files()).push(k));
            assert(o1.files()[n] == f);
            assert(file_ids(o1.files())[n] == k);
            assert(file_ids(o1.files()).contains(k));
            let fi = o1.file_index(k);
            assert(0 <= fi <= n);
            if fi < n {
                assert(file_ids(o1.files())[fi] == file_ids(o0.files())[fi]);
                assert(file_ids(o0.files()).contains(k));
            }
            assert(fi == n);
        }
        assert(o1.files()[o1.file_index(k)] == f);
    }
    let name = text("_internalFile");
    state.objsys.set_instance_field(rk, name, internal);
    proof { reveal_strlit("_internalFile"); }
    Ok(Object::Reference(rk.duplicate()))
}

/// `File.readAsString()`: the contents of the file whose file object the
/// library code passes first.
pub fn file_read_as_string<H: Host>(args: &Vec<Object>, fnode: &Node, state: &State, host: &mut H) -> (r: Result<Object, EvalError>)
    ensures
        args@.len() != 1 ==> r is Err && r->Err_0.kind == FailKind::Reported,
        r matches Ok(v) ==> v is String && args@.len() == 1 && args@[0] is Reference
            && state.objsys.file_index(args@[0]->Reference_0.0@) >= 0,
{
    if args.len() != 1 {
        let got = if args.len() > 0 { args.len() - 1 } else { 0 };
        return Err(err_arg_count("File.readAsString", 0, got, fnode, host));
    }
    match &args[0] {
        Object::Reference(rk) => {
            if !state.objsys.has_file(rk) {
                return Err(fatal(text("Unexpected internal arg")));
            }
            let fname = state.objsys.get_file(rk).filename.clone();
            match host.read_file(fname.as_str()) {
                Some(content) => Ok(Object::String(content)),
                None => Err(fatal(concat("Could not read file: ", fname.as_str()))),
            }
        },
        _ => Err(fatal(text("Unexpected internal arg"))),
    }
}

/// The built-in functions.
pub fn call<H: Host>(fnode: &Node, name: &str, state: &mut State, host: &mut H, fuel: &mut u64) -> (r: Result<Object, EvalError>)
    requires
        rt_wf(*old(state)),
    ensures
        rt_wf(*final(state)),
        keeps(*old(state), *final(state)),
        *final(fuel) <= *old(fuel),
        r is Ok ==> *final(fuel) < *old(fuel),
        name@ == "assert"@ && fnode.children@.len() > 0 && *old(fuel) > 1 + fnode.children@[0].children@.len() && all_literals(fnode.children@[0].children@)
            && fnode.children@[0].children@.len() > 0 ==> (literal_value(fnode.children@[0].children@[0]) == Some(Object::Bool(true)) ==> r == Ok::<Object, EvalError>(Object::Null))
            && (literal_value(fnode.children@[0].children@[0]) == Some(Object::Bool(false)) ==> r is Err && r->Err_0.kind == FailKind::Reported),
        *old(fuel) > 0 && !is_builtin(name@) ==> r is Err,
        !is_builtin(name@) && fnode.children@.len() > 0 && *old(fuel) > 1 + fnode.children@[0].children@.len()
            && all_literals(fnode.children@[0].children@) ==> r is Err && r->Err_0.kind == FailKind::Panicked
            && r->Err_0.msg@ == "Unknown command: "@ + name@,
        (name@ == "__MATH_MAX"@ || name@ == "__MATH_MIN"@) && is_builtin(name@) && fnode.children@.len() > 0
            && *old(fuel) > 1 + fnode.children@[0].children@.len() && all_literals(fnode.children@[0].children@) && fnode.children@[0].children@.len() == 2 ==>
            (literal_value(fnode.children@[0].children@[0]) matches Some(Object::Int(a)) ==> (literal_value(fnode.children@[0].children@[1]) matches Some(Object::Int(b)) ==>
                r == Ok::<Object, EvalError>(Object::Int(if name@ == "__MATH_MAX"@ { if a >= b { a } else { b } } else { if a <= b { a } else { b } })))),
        is_builtin(name@) && fnode.children@.len() > 0 && *old(fuel) >= 2 + pure_costs(fnode.children@[0].children@)
            ==> (pure_values(fnode.children@[0].children@, *old(state)) matches Some(vs) ==> {
            &&& name@ == "__LIST_ADD"@ && vs.len() == 2 && list::hidden_ok(old(state).objsys, vs) ==> r == Ok::<Object, EvalError>(Object::Null)
                && exists|a: Object| copies(a, vs[1]) && #[trigger] list::list_set(old(state).objsys, final(state).objsys, list::hidden_key(vs),
                    list::els_of(old(state).objsys, list::hidden_key(vs)).push(a))
            &&& name@ == "__LIST_CLEAR"@ && vs.len() == 1 && list::hidden_ok(old(state).objsys, vs) ==> r == Ok::<Object, EvalError>(Object::Null)
                && list::list_set(old(state).objsys, final(state).objsys, list::hidden_key(vs), Seq::<Object>::empty())
            &&& name@ == "__LIST_GET_LENGTH"@ && vs.len() == 1 && list::hidden_ok(old(state).objsys, vs)
                && list::els_of(old(state).objsys, list::hidden_key(vs)).len() <= i64::MAX
                ==> r == Ok::<Object, EvalError>(Object::Int(list::els_of(old(state).objsys, list::hidden_key(vs)).len() as i64))
        }),
    decreases *old(fuel), 1nat,
{
    burn(fuel)?;
    let argsnode = child(fnode, 0)?;
    let argnodes = &argsnode.children;
    let args = argnodes_to_argobjs(argnodes, state, host, fuel)?;
    if !has_function(name) {
        return Err(fatal(concat("Unknown command: ", name)));
    }
    apply_builtin(fnode, name, args, argnodes, argsnode, state, host, fuel)
}

/// Runs the built-in `name` on the argument values `args`, computed from
/// the argument nodes `argnodes` of `argsnode` in the call `fnode`.
#[verifier::rlimit(80)]
pub fn apply_builtin<H: Host>(fnode: &Node, name: &str, args: Vec<Object>, argnodes: &Vec<Node>, argsnode: &Node, state: &mut State, host: &mut H, fuel: &mut u64) -> (r: Result<Object, EvalError>)
    requires
        rt_wf(*old(state)),
    ensures
        rt_wf(*final(state)),
        keeps(*old(state), *final(state)),
        *final(fuel) <= *old(fuel),
        name@ == "assert"@ && args@.len() > 0 ==> (args@[0] == Object::Bool(true) ==> r == Ok::<Object, EvalError>(Object::Null))
            && (args@[0] == Object::Bool(false) ==> r is Err && r->Err_0.kind == FailKind::Reported),
        name@ == "assert"@ && args@.len() == 0 ==> r is Err && r->Err_0.kind == FailKind::Reported,
        (name@ == "__MATH_MAX"@ || name@ == "__MATH_MIN"@) && args@.len() == 2 ==> (args@[0] matches Object::Int(a)
            ==> (args@[1] matches Object::Int(b) ==> r == Ok::<Object, EvalError>(Object::Int(if name@ == "__MATH_MAX"@ { if a >= b { a } else { b } } else { if a <= b { a } else { b } })))),
        name@ == "__LIST_ADD"@ && args@.len() == 2 && list::hidden_ok(old(state).objsys, args@) ==> r == Ok::<Object, EvalError>(Object::Null)
            && exists|a: Object| copies(a, args@[1]) && #[trigger] list::list_set(old(state).objsys, final(state).objsys, list::hidden_key(args@),
                list::els_of(old(state).objsys, list::hidden_key(args@)).push(a)),
        name@ == "__LIST_CLEAR"@ && args@.len() == 1 && list::hidden_ok(old(state).objsys, args@) ==> r == Ok::<Object, EvalError>(Object::Null)
            && list::list_set(old(state).objsys, final(state).objsys, list::hidden_key(args@), Seq::<Object>::empty()),
        name@ == "__LIST_GET_LENGTH"@ && args@.len() == 1 && list::hidden_ok(old(state).objsys, args@)
            && list::els_of(old(state).objsys, list::hidden_key(args@)).len() <= i64::MAX
            ==> r == Ok::<Object, EvalError>(Object::Int(list::els_of(old(state).objsys, list::hidden_key(args@)).len() as i64)),
        name@ == "__LIST_GET_FIRST"@ && args@.len() == 1 && list::hidden_ok(old(state).objsys, args@)
            && list::els_of(old(state).objsys, list::hidden_key(args@)).len() > 0
            ==> (r matches Ok(v) && copies(v, list::els_of(old(state).objsys, list::hidden_key(args@))[0])),
        name@ == "__LIST_GET_FIRST"@ && args@.len() == 1 && list::hidden_ok(old(state).objsys, args@)
            && list::els_of(old(state).objsys, list::hidden_key(args@)).len() > 0 ==> *final(state) == *old(state),
        name@ == "__LIST_GET_LAST"@ && args@.len() == 1 && list::hidden_ok(old(state).objsys, args@)
            && list::els_of(old(state).objsys, list::hidden_key(args@)).len() > 0
            ==> (r matches Ok(v) && copies(v, list::els_of(old(state).objsys, list::hidden_key(args@)).last())) && *final(state) == *old(state),
        name@ == "__LIST_REMOVELAST"@ && args@.len() == 1 && list::hidden_ok(old(state).objsys, args@)
            && list::els_of(old(state).objsys, list::hidden_key(args@)).len() > 0
            ==> r == Ok::<Object, EvalError>(list::els_of(old(state).objsys, list::hidden_key(args@)).last())
                && list::list_set(old(state).objsys, final(state).objsys, list::hidden_key(args@), list::els_of(old(state).objsys, list::hidden_key(args@)).drop_last()),
        name@ == "__LIST_REMOVEAT"@ && args@.len() == 2 && list::hidden_ok(old(state).objsys, args@) ==> (args@[1] matches Object::Int(n)
            ==> (0 <= n < list::els_of(old(state).objsys, list::hidden_key(args@)).len()
            ==> r == Ok::<Object, EvalError>(list::els_of(old(state).objsys, list::hidden_key(args@))[n as int])
                && list::list_set(old(state).objsys, final(state).objsys, list::hidden_key(args@), list::els_of(old(state).objsys, list::hidden_key(args@)).remove(n as int)))),
        name@ == "__LIST_INSERT"@ && args@.len() == 3 && list::hidden_ok(old(state).objsys, args@) ==> (args@[1] matches Object::Int(n)
            ==> (0 <= n <= list::els_of(old(state).objsys, list::hidden_key(args@)).len()
            ==> r == Ok::<Object, EvalError>(Object::Null) && exists|a: Object| copies(a, args@[2]) && #[trigger] list::list_set(old(state).objsys, final(state).objsys,
                list::hidden_key(args@), list::els_of(old(state).objsys, list::hidden_key(args@)).insert(n as int, a)))),
        name@ == "__LIST_REMOVERANGE"@ && args@.len() == 3 && list::hidden_ok(old(state).objsys, args@) ==> (args@[1] matches Object::Int(a)
            ==> (args@[2] matches Object::Int(b) ==> (0 <= a <= b <= list::els_of(old(state).objsys, list::hidden_key(args@)).len()
            ==> r == Ok::<Object, EvalError>(Object::Null) && list::list_set(old(state).objsys, final(state).objsys, list::hidden_key(args@),
                list::without_range(list::els_of(old(state).objsys, list::hidden_key(args@)), a as int, b as int))))),
    decreases *old(fuel), 3nat,
{
    proof {
        reveal_strlit("assert");
        reveal_strlit("__LIST_ADD");
        reveal_strlit("__LIST_CLEAR");
        reveal_strlit("__LIST_GET_LENGTH");
        reveal_strlit("__MATH_MAX");
        reveal_strlit("__MATH_MIN");
        assert("__LIST_GET_LENGTH"@.len() == 17 && "assert"@.len() == 6 && "__LIST_ADD"@.len() == 10 && "__LIST_CLEAR"@.len() == 12 && "__MATH_MAX"@.len() == 10);
        assert("__LIST_ADD"@[2] != "__MATH_MAX"@[2]);
        assert("__LIST_CLEAR"@[2] != "__MATH_MIN"@[2]);
        reveal_strlit("print");
        reveal_strlit("__IO_FILE_CONSTRUCT");
        reveal_strlit("__IO_FILE_READ_AS_STRING");
        reveal_strlit("__LIST_TOSTRING");
        reveal_strlit("__MATH_NEXT_INT");
        reveal_strlit("__MATH_NEXT_BOOL");
        reveal_strlit("__LIST_ADDALL");
        reveal_strlit("__LIST_INSERT");
        reveal_strlit("__LIST_REMOVEAT");
        reveal_strlit("__LIST_REMOVELAST");
        reveal_strlit("__LIST_REMOVERANGE");
        reveal_strlit("__LIST_SHUFFLE");
        reveal_strlit("__LIST_GET_FIRST");
        reveal_strlit("__LIST_GET_LAST");
        assert("__IO_FILE_CONSTRUCT"@.len() == 19);
        assert("__IO_FILE_READ_AS_STRING"@.len() == 24);
        assert("__LIST_ADD"@.len() == 10);
        assert("__LIST_ADDALL"@.len() == 13);
        assert("__LIST_CLEAR"@.len() == 12);
        assert("__LIST_GET_FIRST"@.len() == 16);
        assert("__LIST_GET_LAST"@.len() == 15);
        assert("__LIST_GET_LENGTH"@.len() == 17);
        assert("__LIST_INSERT"@.len() == 13);
        assert("__LIST_REMOVEAT"@.len() == 15);
        assert("__LIST_REMOVELAST"@.len() == 17);
        assert("__LIST_REMOVERANGE"@.len() == 18);
        assert("__LIST_SHUFFLE"@.len() == 14);
        assert("__LIST_TOSTRING"@.len() == 15);
        assert("__MATH_MAX"@.len() == 10);
        assert("__MATH_MIN"@.len() == 10);
        assert("__MATH_NEXT_BOOL"@.len() == 16);
        assert("__MATH_NEXT_INT"@.len() == 15);
        assert("assert"@.len() == 6);
        assert("print"@.len() == 5);
        assert("__LIST_GET_FIRST"@[2] != "__MATH_NEXT_BOOL"@[2]);
        assert("__LIST_GET_LAST"@[2] != "__MATH_NEXT_INT"@[2]);
        assert("__LIST_GET_LAST"@[7] != "__LIST_REMOVEAT"@[7]);
        assert("__LIST_GET_LAST"@[7] != "__LIST_TOSTRING"@[7]);
        assert("__LIST_INSERT"@[7] != "__LIST_ADDALL"@[7]);
        assert("__LIST_REMOVEAT"@[2] != "__MATH_NEXT_INT"@[2]);
        assert("__LIST_REMOVEAT"@[7] != "__LIST_GET_LAST"@[7]);
        assert("__LIST_REMOVEAT"@[7] != "__LIST_TOSTRING"@[7]);
        assert("__LIST_REMOVELAST"@[7] != "__LIST_GET_LENGTH"@[7]);
    }
    let n = String::from_str(name);
    proof {
        reveal_strlit("__MATH_MAX");
        reveal_strlit("__MATH_MIN");
    }
    if (n.eq(&text("__MATH_MAX")) || n.eq(&text("__MATH_MIN"))) && args.len() == 2 {
        match (&args[0], &args[1]) {
            (Object::Int(a), Object::Int(b)) => {
                let want_max = n.eq(&text("__MATH_MAX"));
                let first = if want_max { *a >= *b } else { *a <= *b };
                return Ok(Object::Int(if first { *a } else { *b }));
            },
            _ => {},
        }
    }
    if n.eq(&text("__LIST_GET_LENGTH")) {
        return match list::get_length(copy_all(&args), &state.objsys) {
            Ok(v) => Ok(v),
            Err(e) => Err(list_failure(e, "List.length", &args, argnodes, fnode, host)),
        };
    }
    if n.eq(&text("__LIST_ADD")) || n.eq(&text("__LIST_CLEAR")) {
        let a = copy_all(&args);
        let ghost av = a@;
        let ghost o0 = state.objsys;
        let is_add = n.eq(&text("__LIST_ADD"));
        let r = if is_add { list::add(a, &mut state.objsys) } else { list::clear(a, &mut state.objsys) };
        proof {
            if is_add && args@.len() == 2 && list::hidden_ok(o0, args@) {
                assert(copies(av[1], args@[1]));
                assert(list::list_set(o0, state.objsys, list::hidden_key(args@), list::els_of(o0, list::hidden_key(args@)).push(av[1])));
            }
        }
        return match r {
            Ok(v) => Ok(v),
            Err(e) => Err(list_failure(e, if is_add { "List.add()" } else { "List.clear()" }, &args, argnodes, fnode, host)),
        };
    }
    if n.eq(&text("assert")) {
        if args.len() < 1 {
            let shown = show_value(&Object::Int(args.len() as i64), host);
            return Err(err_node(concat("Exoected 1 or 2 arguments for assert(). Got: ", shown.as_str()), fnode));
        }
        match &args[0] {
            Object::Bool(true) => Ok(Object::Null),
            Object::Bool(false) => {
                let mut m = text("Failed assertion");
                if args.len() > 1 {
                    let shown = show_value(&args[1], host);
                    m.append(": ");
                    m.append(shown.as_str());
                }
                Err(err_node(m, fnode))
            },
            other => {
                let shown = show_value(other, host);
                let at = if argnodes.len() > 0 { &argnodes[0] } else { fnode };
                Err(err_node(concat("Expected bool. Got: ", shown.as_str()), at))
            },
        }
    } else if n.eq(&text("print")) {
        print(&args, argnodes, argsnode, fnode, state, host, fuel)
    } else if n.eq(&text("__IO_FILE_CONSTRUCT")) {
        file_construct(&args, argnodes, fnode, state, host)
    } else if n.eq(&text("__IO_FILE_READ_AS_STRING")) {
        file_read_as_string(&args, fnode, state, host)
    } else if n.eq(&text("__LIST_TOSTRING")) {
        match list::to_string(copy_all(&args), &state.objsys, host) {
            Ok(v) => Ok(v),
            Err(ApiError::ArgCount(_)) => Err(err_arg_count("List.toString", 1, args.len(), fnode, host)),
            Err(_) => Err(fatal(text("Unexpected internal argument for List.toString()"))),
        }
    } else if n.eq(&text("__MATH_NEXT_INT")) || n.eq(&text("__MATH_NEXT_BOOL")) {
        let is_int = n.eq(&text("__MATH_NEXT_INT"));
        let r = if is_int { math::next_int(copy_all(&args)) } else { math::next_bool(copy_all(&args)) };
        match r {
            Ok(v) => Ok(v),
            Err(RandomError::ArgCount(_)) => {
                let fname = if is_int { "math.nextInt" } else { "math.nextBool" };
                Err(err_arg_count(fname, if is_int { 1 } else { 0 }, args.len(), fnode, host))
            },
            Err(RandomError::BadArgument) => {
                let at = if argnodes.len() > 0 { &argnodes[0] } else { fnode };
                Err(err_arg_type("math.nextInt", "num", &args[0], at, host))
            },
            Err(RandomError::EmptyRange(_)) => Err(fatal(text("cannot sample empty range"))),
        }
    } else if n.eq(&text("__LIST_ADD")) || n.eq(&text("__LIST_ADDALL")) || n.eq(&text("__LIST_CLEAR"))
        || n.eq(&text("__LIST_INSERT")) || n.eq(&text("__LIST_REMOVEAT")) || n.eq(&text("__LIST_REMOVELAST"))
        || n.eq(&text("__LIST_REMOVERANGE")) || n.eq(&text("__LIST_SHUFFLE")) || n.eq(&text("__LIST_GET_FIRST"))
        || n.eq(&text("__LIST_GET_LAST")) || n.eq(&text("__LIST_GET_LENGTH")) {
        let a = copy_all(&args);
        proof {
            if args@.len() > 0 && args@[0] is Reference {
                assert(list::hidden_ok(state.objsys, a@) == list::hidden_ok(state.objsys, args@));
                assert(list::hidden_key(a@) == list::hidden_key(args@));
            }
            if args@.len() > 1 && args@[1] is Int {
                assert(copies(a@[1], args@[1]));
            }
            if args@.len() > 2 && args@[2] is Int {
                assert(copies(a@[2], args@[2]));
            }
            if args@.len() > 2 {
                assert(copies(a@[2], args@[2]));
            }
        }
        let (r, fname) = if n.eq(&text("__LIST_ADD")) {
            (list::add(a, &mut state.objsys), "List.add()")
        } else if n.eq(&text("__LIST_ADDALL")) {
            (list::add_all(a, &mut state.objsys), "List.addAll()")
        } else if n.eq(&text("__LIST_CLEAR")) {
            (list::clear(a, &mut state.objsys), "List.clear()")
        } else if n.eq(&text("__LIST_INSERT")) {
            let ghost o0 = state.objsys;
            let ghost av = a@;
            let g = list::insert(a, &mut state.objsys);
            proof {
                if av.len() == 3 && list::hidden_ok(o0, av) && av[1] is Int {
                    let k = av[1]->Int_0;
                    if 0 <= k <= list::els_of(o0, list::hidden_key(av)).len() {
                        assert(copies(av[2], args@[2]));
                        assert(list::list_set(o0, state.objsys, list::hidden_key(args@),
                            list::els_of(o0, list::hidden_key(args@)).insert(k as int, av[2])));
                    }
                }
            }
            (g, "List.insert()")
        } else if n.eq(&text("__LIST_REMOVEAT")) {
            (list::remove_at(a, &mut state.objsys), "List.removeAt()")
        } else if n.eq(&text("__LIST_REMOVELAST")) {
            (list::remove_last(a, &mut state.objsys), "List.removeLast()")
        } else if n.eq(&text("__LIST_REMOVERANGE")) {
            (list::remove_range(a, &mut state.objsys), "List.removeRange()")
        } else if n.eq(&text("__LIST_SHUFFLE")) {
            (list::shuffle(a, &mut state.objsys), "List.shuffle()")
        } else if n.eq(&text("__LIST_GET_FIRST")) {
            let ghost o0 = state.objsys;
            let ghost av = a@;
            let g = list::get_first(a, &state.objsys);
            proof {
                if av.len() == 1 && list::hidden_ok(o0, av) && list::els_of(o0, list::hidden_key(av)).len() > 0 {
                    assert(g matches Ok(v) && copies(v, list::els_of(o0, list::hidden_key(av))[0]));
                }
            }
            (g, "List.first")
        } else if n.eq(&text("__LIST_GET_LAST")) {
            (list::get_last(a, &state.objsys), "List.last")
        } else {
            (list::get_length(a, &state.objsys), "List.length")
        };
        match r {
            Ok(v) => Ok(v),
            Err(e) => Err(list_failure(e, fname, &args, argnodes, fnode, host)),
        }
    } else {
        let checked = match math_args(name, &args) {
            Ok(()) => host.math(name, &args),
            Err(f) => Err(f),
        };
        match checked {
            Ok(v) => Ok(v),
            Err(MathFailure::ArgCount(expected)) => Err(err_arg_count(name, expected, args.len(), fnode, host)),
            Err(MathFailure::ArgType(i)) => {
                let at = if i < argnodes.len() { &argnodes[i] } else { fnode };
                let v = if i < args.len() { args[i].duplicate() } else { Object::Null };
                Err(err_arg_type(name, "num", &v, at, host))
            },
        }
    }
}

/// A number: an integer or a double.
pub open spec fn is_number(o: Object) -> bool {
    o is Int || o is Double
}

/// The mathematical built-ins of one numeric argument.
pub open spec fn unary_math(name: Seq<char>) -> bool {
    name == "__MATH_ACOS"@ || name == "__MATH_ASIN"@ || name == "__MATH_ATAN"@ || name == "__MATH_COS"@
        || name == "__MATH_EXP"@ || name == "__MATH_LOG"@ || name == "__MATH_SIN"@ || name == "__MATH_SQRT"@
        || name == "__MATH_TAN"@
}

/// What the mathematical built-in `name` says of its arguments `args`
/// before it computes: how many it takes, and which one is no number.
pub open spec fn math_args_spec(name: Seq<char>, args: Seq<Object>) -> Result<(), MathFailure> {
    if unary_math(name) {
        if args.len() != 1 {
            Err(MathFailure::ArgCount(1))
        } else if !is_number(args[0]) {
            Err(MathFailure::ArgType(0))
        } else {
            Ok(())
        }
    } else if name == "__MATH_ATAN2"@ {
        if args.len() != 2 {
            Err(MathFailure::ArgCount(2))
        } else if !is_number(args[0]) {
            Err(MathFailure::ArgType(0))
        } else {
            Ok(())
        }
    } else if name == "__MATH_MAX"@ || name == "__MATH_MIN"@ || name == "__MATH_POW"@ {
        if args.len() != 2 {
            Err(MathFailure::ArgCount(2))
        } else if !is_number(args[0]) {
            Err(MathFailure::ArgType(0))
        } else if !is_number(args[1]) {
            Err(MathFailure::ArgType(1))
        } else {
            Ok(())
        }
    } else if name == "__MATH_NEXT_DOUBLE"@ {
        if args.len() != 0 {
            Err(MathFailure::ArgCount(0))
        } else {
            Ok(())
        }
    } else {
        Ok(())
    }
}

fn number_arg(o: &Object) -> (r: bool)
    ensures
        r == is_number(*o),
{
    match o {
        Object::Int(_) | Object::Double(_) => true,
        _ => false,
    }
}

/// Checks the arguments of the mathematical built-in `name`, as
/// `math_args_spec` says.
pub fn math_args(name: &str, args: &Vec<Object>) -> (r: Result<(), MathFailure>)
    ensures
        r == math_args_spec(name@, args@),
{
    let n = String::from_str(name);
    if n.eq(&text("__MATH_ACOS")) || n.eq(&text("__MATH_ASIN")) || n.eq(&text("__MATH_ATAN")) || n.eq(&text("__MATH_COS"))
        || n.eq(&text("__MATH_EXP")) || n.eq(&text("__MATH_LOG")) || n.eq(&text("__MATH_SIN")) || n.eq(&text("__MATH_SQRT"))
        || n.eq(&text("__MATH_TAN")) {
        if args.len() != 1 {
            Err(MathFailure::ArgCount(1))
        } else if !number_arg(&args[0]) {
            Err(MathFailure::ArgType(0))
        } else {
            Ok(())
        }
    } else if n.eq(&text("__MATH_ATAN2")) {
        if args.len() != 2 {
            Err(MathFailure::ArgCount(2))
        } else if !number_arg(&args[0]) {
            Err(MathFailure::ArgType(0))
        } else {
            Ok(())
        }
    } else if n.eq(&text("__MATH_MAX")) || n.eq(&text("__MATH_MIN")) || n.eq(&text("__MATH_POW")) {
        if args.len() != 2 {
            Err(MathFailure::ArgCount(2))
        } else if !number_arg(&args[0]) {
            Err(MathFailure::ArgType(0))
        } else if !number_arg(&args[1]) {
            Err(MathFailure::ArgType(1))
        } else {
            Ok(())
        }
    } else if n.eq(&text("__MATH_NEXT_DOUBLE")) {
        if args.len() != 0 {
            Err(MathFailure::ArgCount(0))
        } else {
            Ok(())
        }
    } else {
        Ok(())
    }
}

/// Collects garbage if due, then runs the statements of a block until one
/// returns.
fn block_value<H: Host>(node: &Node, state: &mut State, host: &mut H, fuel: &mut u64) -> (r: Result<Object, EvalError>)
    requires
        rt_wf(*old(state)),
    ensures
        rt_wf(*final(state)),
        keeps(*old(state), *final(state)),
        *final(fuel) <= *old(fuel),
        r is Ok ==> *final(fuel) < *old(fuel),
        *old(fuel) > 0 && node.children@.len() == 0 ==> r == Ok::<Object, EvalError>(Object::Null),
        r matches Ok(v) ==> v == Object::Null || v is Return,
        r is Ok && !old(state).in_const && old(state).eval_var@.len() == 0
            ==> (block_effect(node.children@, old(state).stack.model()) matches Some(m2) ==> final(state).stack.model() == m2
                && final(state).in_const == old(state).in_const && final(state).eval_var == old(state).eval_var),
        *old(fuel) > 3 && node.children@.len() >= 1 && node.children@[0].nodetype is Return && node.children@[0].children@.len() >= 1
            && literal_value(node.children@[0].children@[0]) is Some ==> {
            &&& r is Ok ==> r == Ok::<Object, EvalError>(Object::Return(Box::new(literal_value(node.children@[0].children@[0])->0)))
            &&& r is Err ==> exists|k: Seq<char>| r->Err_0.msg@ == "GC could not find heap object: "@ + k
        },
    decreases *old(fuel), 2nat,
{
    burn(fuel)?;
    let mut i: usize = 0;
    while i < node.children.len()
        invariant
            rt_wf(*state),
            keeps(*old(state), *state),
            *fuel < *old(fuel),
            i <= node.children@.len(),
            *old(fuel) > 3 ==> i == 0 || node.children@.len() == 0 || !(node.children@[0].nodetype is Return && node.children@[0].children@.len() >= 1
                && literal_value(node.children@[0].children@[0]) is Some),
            i == 0 ==> *fuel == *old(fuel) - 1,
            !old(state).in_const && old(state).eval_var@.len() == 0 && block_effect(node.children@, old(state).stack.model()) is Some
                ==> block_effect(node.children@.take(i as int), old(state).stack.model()) == Some(state.stack.model())
                    && state.in_const == old(state).in_const && state.eval_var == old(state).eval_var,
        decreases node.children@.len() - i,
    {
        proof {
            if !old(state).in_const && old(state).eval_var@.len() == 0 && block_effect(node.children@, old(state).stack.model()) is Some {
                lemma_block_prefix(node.children@, old(state).stack.model(), i as int);
            }
        }
        maybe_collect(state, host)?;
        let retval = eval(&node.children[i], state, host, fuel)?;
        match retval {
            Object::Return(_) => { return Ok(retval); },
            _ => {},
        }
        i = i + 1;
    }
    proof {
        assert(node.children@.take(node.children@.len() as int) =~= node.children@);
    }
    Ok(Object::Null)
}

/// A list literal: an instance of class `List` holding a new list of the
/// elements' values.
fn list_value<H: Host>(node: &Node, state: &mut State, host: &mut H, fuel: &mut u64) -> (r: Result<Object, EvalError>)
    requires
        rt_wf(*old(state)),
    ensures
        rt_wf(*final(state)),
        keeps(*old(state), *final(state)),
        *final(fuel) <= *old(fuel),
        r is Ok ==> *final(fuel) < *old(fuel),
        *old(fuel) > 1 && node.children@.len() == 0 && old(state).objsys.classes().contains_key("List"@)
            ==> (r matches Ok(v) && v is Reference),
    decreases *old(fuel), 2nat,
{
    burn(fuel)?;
    if !state.objsys.has_class("List") {
        return Err(fatal(text("Class not found: List")));
    }
    let mut inst = state.objsys.get_class("List").instantiate();
    let vals = argnodes_to_argobjs(&node.children, state, host, fuel)?;
    let mut ilist = InternalList::new();
    ilist.set_elements(vals);
    inst.set_field(text("__list"), Object::Reference(ilist.id.duplicate()));
    state.objsys.register_list(ilist);
    Ok(state.objsys.register_instance(*inst))
}

/// The binary operation that a node of type `t` carries out, when it is one
/// (a `-` with two operands is one).
pub open spec fn binary_kind(t: NodeType) -> Option<NodeKind> {
    match t {
        NodeType::Add(..) => Some(NodeKind::Add),
        NodeType::Sub(..) => Some(NodeKind::Sub),
        NodeType::Mul(..) => Some(NodeKind::Mul),
        NodeType::Div(..) => Some(NodeKind::Div),
        NodeType::BitAnd(..) => Some(NodeKind::BitAnd),
        NodeType::BitOr(..) => Some(NodeKind::BitOr),
        NodeType::BitXor(..) => Some(NodeKind::BitXor),
        NodeType::LessThan(..) => Some(NodeKind::LessThan),
        NodeType::GreaterThan(..) => Some(NodeKind::GreaterThan),
        NodeType::LessOrEq(..) => Some(NodeKind::LessOrEq),
        NodeType::GreaterOrEq(..) => Some(NodeKind::GreaterOrEq),
        NodeType::LogOr(..) => Some(NodeKind::LogOr),
        NodeType::LogAnd(..) => Some(NodeKind::LogAnd),
        _ => None,
    }
}

/// Whether the literal values `a` and `b` are equal, as `==` decides; `None`
/// when `==` refuses its left operand (`null`).
pub open spec fn literal_eq(a: Object, b: Object) -> Option<bool> {
    match (a, b) {
        (Object::Int(x), Object::Int(y)) => Some(x == y),
        (Object::Bool(x), Object::Bool(y)) => Some(x == y),
        (Object::Int(_), _) => Some(false),
        (Object::Bool(_), _) => Some(false),
        _ => None,
    }
}

/// The direction (`up`) and the timing (`pre`) of an increment or decrement
/// node of type `t`.
pub open spec fn step_kind(t: NodeType) -> Option<(bool, bool)> {
    match t {
        NodeType::PreIncrement(..) => Some((true, true)),
        NodeType::PostIncrement(..) => Some((true, false)),
        NodeType::PreDecrement(..) => Some((false, true)),
        NodeType::PostDecrement(..) => Some((false, false)),
        _ => None,
    }
}

/// The first part of a conditional, `if ( true ) literal`, whose body is a
/// literal, run where the stack has room for a new lexical level.
pub open spec fn cond_true(node: Node, st: State) -> bool {
    &&& node.children@.len() >= 1
    &&& node.children@[0].nodetype is If
    &&& node.children@[0].children@.len() >= 2
    &&& literal_value(node.children@[0].children@[0]) == Some(Object::Bool(true))
    &&& literal_value(node.children@[0].children@[1]) is Some
    &&& st.stack.model().frames.len() > 0
    &&& 0 < st.stack.model().lex_level < usize::MAX
}

/// A conditional: runs, in a new lexical scope, the body of its first part
/// whose condition holds, or of its `else` part.
fn conditional_value<H: Host>(node: &Node, state: &mut State, host: &mut H, fuel: &mut u64) -> (r: Result<Object, EvalError>)
    requires
        rt_wf(*old(state)),
        node.nodetype is Conditional,
    ensures
        rt_wf(*final(state)),
        keeps(*old(state), *final(state)),
        *final(fuel) <= *old(fuel),
        r is Ok ==> *final(fuel) < *old(fuel),
        *old(fuel) > 4 && cond_true(*node, *old(state)) ==> r == Ok::<Object, EvalError>(literal_value(node.children@[0].children@[1])->0)
            && final(state).stack.model() == old(state).stack.model(),
        *old(fuel) > 3 && node.children@.len() == 1 && node.children@[0].nodetype is If && node.children@[0].children@.len() >= 2
            && literal_value(node.children@[0].children@[0]) == Some(Object::Bool(false)) ==> r == Ok::<Object, EvalError>(Object::Null),
    decreases *old(fuel), 2nat,
{
    burn(fuel)?;
    let mut i: usize = 0;
    while i < node.children.len()
        invariant
            rt_wf(*state),
            keeps(*old(state), *state),
            *fuel < *old(fuel),
            i <= node.children@.len(),
            node.nodetype is Conditional,
            i == 0 ==> *fuel == *old(fuel) - 1 && *state == *old(state),
            cond_true(*node, *old(state)) && *old(fuel) > 4 ==> i == 0,
        decreases node.children@.len() - i,
    {
        let condnode = &node.children[i];
        match &condnode.nodetype {
            NodeType::If(_, _) | NodeType::ElseIf(_, _) => {
                let c = condition(child(condnode, 0)?, state, host, fuel)?;
                if c {
                    return in_scope(child(condnode, 1)?, state, host, fuel);
                }
            },
            NodeType::Else(_, _) => {
                return in_scope(child(condnode, 0)?, state, host, fuel);
            },
            _ => { return Err(fatal(text("Invalid node in conditional!"))); },
        }
        i = i + 1;
    }
    Ok(Object::Null)
}

/// What binary operation `k` gives for the values `a` and `b` where the
/// library computes it itself: integer arithmetic, bitwise operations and
/// comparisons, and `||` and `&&` on booleans.
pub open spec fn op_result(k: NodeKind, a: Object, b: Object) -> Option<Object> {
    match (a, b) {
        (Object::Int(x), Object::Int(y)) => int_binary(k, x, y),
        (Object::Bool(x), Object::Bool(y)) => if k == NodeKind::LogOr {
            Some(Object::Bool(x || y))
        } else if k == NodeKind::LogAnd {
            Some(Object::Bool(x && y))
        } else {
            None
        },
        _ => None,
    }
}

/// The stack after the simple statement `n` runs on the stack `m`: `T x = e;`
/// declares `x` with the value of `e` in the innermost scope, where it is not
/// yet; `x = e;` gives the visible variable `x` the value of `e`; `x++`,
/// `++x`, `x--` and `--x` step the visible integer `x`. `None` for any other
/// statement, or where `e` is no expression of `pure_with`.
pub open spec fn stmt_effect(n: Node, m: StackModel) -> Option<StackModel> {
    let ch = n.children@;
    if n.nodetype is Assign {
        if ch.len() >= 2 && m.frames.len() > 0 && m.lex_level > 0 {
            match pure_with(ch[1], m, true) {
                Some(v) => if ch[0].nodetype is TypedVar && !top(m).last().contains_key(ch[0].nodetype->TypedVar_1@) {
                    Some(add_new_model(m, ch[0].nodetype->TypedVar_1@, v))
                } else if ch[0].nodetype is Name && ch[0].children@.len() == 0 && visible(m, ch[0].nodetype->Name_0@) is Some {
                    Some(update_model(m, ch[0].nodetype->Name_0@, v))
                } else {
                    None
                },
                None => None,
            }
        } else {
            None
        }
    } else {
        match step_kind(n.nodetype) {
            Some((up, pre)) => if ch.len() > 0 && ch[0].nodetype is Name && m.frames.len() > 0 && m.lex_level > 0 {
                match visible(m, ch[0].nodetype->Name_0@) {
                    Some(Object::Int(k)) => Some(update_model(m, ch[0].nodetype->Name_0@, Object::Int(stepped(k, up)))),
                    _ => None,
                }
            } else {
                None
            },
            None => None,
        }
    }
}

/// The stack after the simple statements `ss` of `stmt_effect` run in order
/// on the stack `m`.
pub open spec fn block_effect(ss: Seq<Node>, m: StackModel) -> Option<StackModel>
    decreases ss.len(),
{
    if ss.len() == 0 {
        Some(m)
    } else {
        match block_effect(ss.drop_last(), m) {
            Some(m1) => stmt_effect(ss.last(), m1),
            None => None,
        }
    }
}

proof fn lemma_block_prefix(ss: Seq<Node>, m: StackModel, i: int)
    requires
        0 <= i < ss.len(),
        block_effect(ss, m) is Some,
    ensures
        block_effect(ss.take(i), m) is Some,
        block_effect(ss.take(i + 1), m) is Some,
        block_effect(ss.take(i + 1), m) == stmt_effect(ss[i], block_effect(ss.take(i), m)->0),
    decreases ss.len() - i,
{
    assert(ss.take(i + 1).drop_last() =~= ss.take(i));
    if i + 1 < ss.len() {
        lemma_block_prefix(ss, m, i + 1);
        assert(ss.take(i + 2).drop_last() =~= ss.take(i + 1));
    } else {
        assert(ss.take(i + 1) =~= ss);
    }
}

/// The stack after the body `b` of a loop runs on the stack `m`: the
/// statements of a block in order, or a single simple statement.
pub open spec fn body_effect(b: Node, m: StackModel) -> Option<StackModel> {
    if b.nodetype is Block {
        block_effect(b.children@, m)
    } else {
        stmt_effect(b, m)
    }
}

/// The stack after `k` rounds of `for (..; c; u) b` from the stack `m`: each
/// round finds the condition `c` true, runs the body `b` and then the update
/// `u`. `None` where a round cannot run so.
pub open spec fn for_rounds(c: Node, u: Node, b: Node, m: StackModel, k: nat) -> Option<StackModel>
    decreases k,
{
    if k == 0 {
        Some(m)
    } else {
        match for_rounds(c, u, b, m, (k - 1) as nat) {
            Some(m1) => if pure_with(c, m1, true) == Some(Object::Bool(true)) {
                match body_effect(b, m1) {
                    Some(m2) => stmt_effect(u, m2),
                    None => None,
                }
            } else {
                None
            },
            None => None,
        }
    }
}

/// The stack after `k` rounds of `while (c) b` from the stack `m`: each
/// round finds the condition `c` true and runs the body `b`. `None` where a
/// round cannot run so.
pub open spec fn while_rounds(c: Node, b: Node, m: StackModel, k: nat) -> Option<StackModel>
    decreases k,
{
    if k == 0 {
        Some(m)
    } else {
        match while_rounds(c, b, m, (k - 1) as nat) {
            Some(m1) => if pure_with(c, m1, true) == Some(Object::Bool(true)) {
                body_effect(b, m1)
            } else {
                None
            },
            None => None,
        }
    }
}

/// A `while` loop whose condition is false on entry runs its body no time:
/// no round can follow the start.
pub proof fn law_while_false_runs_nothing(c: Node, b: Node, m: StackModel, k: nat)
    requires
        pure_with(c, m, true) == Some(Object::Bool(false)),
        k > 0,
    ensures
        while_rounds(c, b, m, k) is None,
    decreases k,
{
    if k > 1 {
        law_while_false_runs_nothing(c, b, m, (k - 1) as nat);
    } else {
        assert(while_rounds(c, b, m, 0) == Some(m));
    }
}

/// Every round of `while (c) b` from the stack `m` that can be reached finds
/// a boolean condition, and where it is true, a body of simple statements.
pub open spec fn while_simple(c: Node, b: Node, m: StackModel) -> bool {
    forall|k: nat| #[trigger] while_rounds(c, b, m, k) is Some ==> ({
        let mk = while_rounds(c, b, m, k)->0;
        &&& pure_with(c, mk, true) matches Some(Object::Bool(t))
        &&& pure_with(c, mk, true) == Some(Object::Bool(true)) ==> while_rounds(c, b, m, k + 1) is Some
    })
}

/// Every round of `for (..; c; u) b` from the stack `m` that can be reached
/// finds a boolean condition, and where it is true, its body and update are
/// simple statements.
pub open spec fn for_simple(c: Node, u: Node, b: Node, m: StackModel) -> bool {
    forall|k: nat| #[trigger] for_rounds(c, u, b, m, k) is Some ==> ({
        let mk = for_rounds(c, u, b, m, k)->0;
        &&& pure_with(c, mk, true) matches Some(Object::Bool(t))
        &&& pure_with(c, mk, true) == Some(Object::Bool(true)) ==> for_rounds(c, u, b, m, k + 1) is Some
    })
}

/// In `for (..; c; i++) x = i;`, a round that finds `c` true runs the body
/// before the update: the body sees `i` as it stood when the round began,
/// and only then is `i` stepped.
pub proof fn law_for_body_before_update(c: Node, u: Node, b: Node, m: StackModel, x: Seq<char>, i: Seq<char>, a: i64)
    requires
        in_call(m),
        m.lex_level > 0,
        x != i,
        visible(m, i) == Some(Object::Int(a)),
        visible(m, x) is Some,
        pure_with(c, m, true) == Some(Object::Bool(true)),
        b.nodetype is Assign,
        b.children@.len() == 2,
        b.children@[0].nodetype is Name,
        b.children@[0].nodetype->Name_0@ == x,
        b.children@[0].children@.len() == 0,
        b.children@[1].nodetype is Name,
        b.children@[1].nodetype->Name_0@ == i,
        b.children@[1].children@.len() == 0,
        u.nodetype is PostIncrement,
        u.children@.len() == 1,
        u.children@[0].nodetype is Name,
        u.children@[0].nodetype->Name_0@ == i,
    ensures
        for_rounds(c, u, b, m, 1) matches Some(m1) && visible(m1, x) == Some(Object::Int(a))
            && visible(m1, i) == Some(Object::Int(stepped(a, true))),
{
    assert(for_rounds(c, u, b, m, 0) == Some(m));
    assert(pure_with(b.children@[1], m, true) == Some(Object::Int(a)));
    let m2 = update_model(m, x, Object::Int(a));
    assert(body_effect(b, m) == Some(m2));
    law_update_then_get(m, x, Object::Int(a));
    law_update_keeps_others(m, x, Object::Int(a), i);
    let m3 = update_model(m2, i, Object::Int(stepped(a, true)));
    assert(step_kind(u.nodetype) == Some((true, false)));
    assert(stmt_effect(u, m2) == Some(m3));
    law_update_then_get(m2, i, Object::Int(stepped(a, true)));
    law_update_keeps_others(m2, i, Object::Int(stepped(a, true)), x);
}

/// The stack `m` once parameter `params[i]` is bound to `vals[i]` for each
/// `i`, in order, in its innermost scope.
pub open spec fn bind_params(m: StackModel, params: Seq<ParamObj>, vals: Seq<Object>) -> StackModel
    decreases params.len(),
{
    if params.len() == 0 || vals.len() == 0 {
        m
    } else {
        add_new_model(bind_params(m, params.drop_last(), vals.drop_last()), params.last().name@, vals.last())
    }
}

/// The names of `params` are distinct.
pub open spec fn distinct_params(params: Seq<ParamObj>) -> bool {
    forall|a: int, b: int| 0 <= a < params.len() && 0 <= b < params.len() && a != b
        ==> #[trigger] params[a].name@ != #[trigger] params[b].name@
}

proof fn lemma_bind_shape(m: StackModel, params: Seq<ParamObj>, vals: Seq<Object>)
    requires
        params.len() == vals.len(),
    ensures
        bind_params(push_call_model(m), params, vals).frames.len() == m.frames.len() + 1,
        bind_params(push_call_model(m), params, vals).lex_level == 1,
        top(bind_params(push_call_model(m), params, vals)).len() == 1,
        forall|k: Seq<char>| #[trigger] top(bind_params(push_call_model(m), params, vals))[0].contains_key(k)
            <==> exists|j: int| 0 <= j < params.len() && params[j].name@ == k,
        forall|j: int| 0 <= j < params.len() && (forall|l: int| j < l < params.len() ==> params[l].name@ != params[j].name@)
            ==> top(bind_params(push_call_model(m), params, vals))[0][#[trigger] params[j].name@] == vals[j],
    decreases params.len(),
{
    if params.len() > 0 {
        let ps = params.drop_last();
        let vs = vals.drop_last();
        lemma_bind_shape(m, ps, vs);
        let inner = bind_params(push_call_model(m), ps, vs);
        assert(top(bind_params(push_call_model(m), params, vals))[0]
            == top(inner)[0].insert(params.last().name@, vals.last()));
        assert forall|k: Seq<char>| #[trigger] top(bind_params(push_call_model(m), params, vals))[0].contains_key(k)
            <==> exists|j: int| 0 <= j < params.len() && params[j].name@ == k by {
            if top(inner)[0].contains_key(k) {
                let j = choose|j: int| 0 <= j < ps.len() && ps[j].name@ == k;
                assert(params[j].name@ == k);
            }
            if exists|j: int| 0 <= j < params.len() && params[j].name@ == k {
                let j = choose|j: int| 0 <= j < params.len() && params[j].name@ == k;
                if j < ps.len() {
                    assert(ps[j].name@ == k);
                }
            }
        }
        assert forall|j: int| 0 <= j < params.len() && (forall|l: int| j < l < params.len() ==> params[l].name@ != params[j].name@)
            implies top(bind_params(push_call_model(m), params, vals))[0][#[trigger] params[j].name@] == vals[j] by {
            if j < ps.len() {
                assert(ps[j] == params[j]);
                assert(forall|l: int| j < l < ps.len() ==> ps[l] == params[l]);
                assert(params.last() == params[params.len() - 1]);
            }
        }
    } else {
        assert(top(push_call_model(m)) =~= seq![Map::<Seq<char>, Object>::empty()]);
    }
}

/// Calling a function binds, in the new call, each parameter `params[i]` to
/// the argument value `vals[i]` of the same place, when the parameters' names
/// are distinct.
pub proof fn law_call_binds_params(m: StackModel, params: Seq<ParamObj>, vals: Seq<Object>, i: int)
    requires
        params.len() == vals.len(),
        0 <= i < params.len(),
        distinct_params(params),
    ensures
        visible(bind_params(push_call_model(m), params, vals), params[i].name@) == Some(vals[i]),
{
    lemma_bind_shape(m, params, vals);
    let b = bind_params(push_call_model(m), params, vals);
    assert(top(b)[0].contains_key(params[i].name@));
    assert(forall|l: int| i < l < params.len() ==> params[l].name@ != params[i].name@);
    assert(top(b)[0][params[i].name@] == vals[i]);
}

proof fn lemma_ctor_stack_plain(m: StackModel, params: Seq<ParamObj>, vals: Seq<Object>)
    requires
        forall|j: int| 0 <= j < params.len() ==> !(#[trigger] params[j]).fieldinit,
    ensures
        bind_ctor_stack(m, params, vals) == bind_params(m, params, vals),
    decreases params.len(),
{
    if params.len() > 0 && vals.len() > 0 {
        let ps = params.drop_last();
        assert(forall|j: int| 0 <= j < ps.len() ==> ps[j] == params[j]);
        lemma_ctor_stack_plain(m, ps, vals.drop_last());
        assert(!params[params.len() - 1].fieldinit);
    }
}

/// A constructor's plain parameters `p0..pn-1`, called with the values
/// `v0..vn-1`, are bound in the new call frame each to the value at its own
/// index.
pub proof fn law_ctor_binds_params(m: StackModel, params: Seq<ParamObj>, vals: Seq<Object>, i: int)
    requires
        params.len() == vals.len(),
        0 <= i < params.len(),
        distinct_params(params),
        forall|j: int| 0 <= j < params.len() ==> !(#[trigger] params[j]).fieldinit,
    ensures
        visible(bind_ctor_stack(push_call_model(m), params, vals), params[i].name@) == Some(vals[i]),
{
    lemma_ctor_stack_plain(push_call_model(m), params, vals);
    law_call_binds_params(m, params, vals, i);
}

/// A constructor's `this.name` parameters `p0..pn-1`, called with the values
/// `v0..vn-1`, set each field to the value at its own index.
pub proof fn law_ctor_sets_fields(f: Map<Seq<char>, Object>, params: Seq<ParamObj>, vals: Seq<Object>, i: int)
    requires
        params.len() == vals.len(),
        0 <= i < params.len(),
        distinct_params(params),
        forall|j: int| 0 <= j < params.len() ==> (#[trigger] params[j]).fieldinit,
    ensures
        bind_ctor_fields(f, params, vals).contains_key(params[i].name@),
        bind_ctor_fields(f, params, vals)[params[i].name@] == vals[i],
    decreases params.len(),
{
    let n = params.len() - 1;
    assert(params[n].fieldinit);
    if i < n {
        let ps = params.drop_last();
        assert(forall|j: int| 0 <= j < ps.len() ==> ps[j] == params[j]);
        assert(distinct_params(ps));
        law_ctor_sets_fields(f, ps, vals.drop_last(), i);
        assert(params[n].name@ != params[i].name@);
    }
}

/// Two values that are equal but for which string objects hold their text.
pub open spec fn same_value(a: Object, b: Object) -> bool {
    a == b || (a matches Object::String(x) && b matches Object::String(y) && x@ == y@)
}

/// Expressions of equal value compute values that are the same, at the same cost.
proof fn lemma_pure_view(n1: Node, n2: Node, m: StackModel, locals: bool)
    requires
        n1.view() == n2.view(),
    ensures
        pure_cost(n1) == pure_cost(n2),
        match (pure_with(n1, m, locals), pure_with(n2, m, locals)) {
            (Some(a), Some(b)) => same_value(a, b),
            (None, None) => true,
            _ => false,
        },
    decreases n1,
{
    crate::node::lemma_node_parts(n1);
    crate::node::lemma_node_parts(n2);
    let c1 = n1.children@;
    let c2 = n2.children@;
    assert(decreases_to!(n1 => n1.children));
    assert(decreases_to!(n1.children => n1.children@));
    let t1 = n1.nodetype;
    let t2 = n2.nodetype;
    assert(t1.view() == t2.view());
    assert(binary_kind(t1) == binary_kind(t2));
    assert(t1 is Int <==> t2 is Int);
    assert(t1 is Bool <==> t2 is Bool);
    assert(t1 is Null <==> t2 is Null);
    assert(t1 is Str <==> t2 is Str);
    assert(t1 is Name <==> t2 is Name);
    assert(t1 is Not <==> t2 is Not);
    assert(t1 is Equal <==> t2 is Equal);
    assert(t1 is Sub <==> t2 is Sub);
    assert(t1 is Int ==> t1->Int_0 == t2->Int_0);
    assert(t1 is Bool ==> t1->Bool_0 == t2->Bool_0);
    if t1 is Str {
        assert(t1.view().strs[0] == t1->Str_0@);
        assert(t2.view().strs[0] == t2->Str_0@);
    }
    if t1 is Name {
        assert(t1.view().strs[0] == t1->Name_0@);
        assert(t2.view().strs[0] == t2->Name_0@);
    }
    assert(c1.len() == c2.len());
    if c1.len() >= 1 {
        assert(decreases_to!(n1.children@ => n1.children@[0]));
        assert(n1.view().children[0] == c1[0].view());
        assert(n2.view().children[0] == c2[0].view());
        lemma_pure_view(c1[0], c2[0], m, locals);
    }
    if c1.len() >= 2 {
        assert(decreases_to!(n1.children@ => n1.children@[1]));
        assert(n1.view().children[1] == c1[1].view());
        assert(n2.view().children[1] == c2[1].view());
        lemma_pure_view(c1[1], c2[1], m, locals);
    }
}

/// Values that are the same are written the same way.
proof fn lemma_same_shown(a: Object, b: Object)
    requires
        same_value(a, b),
    ensures
        shown_text(a) == shown_text(b),
{
}

/// A value of `pure_with` is never a function, a constructor or a return.
proof fn lemma_pure_plain(n: Node, m: StackModel, locals: bool)
    ensures
        pure_with(n, m, locals) matches Some(v) ==> !(v is Function || v is Constructor || v is Return),
    decreases n,
{
    let ch = n.children@;
    assert(decreases_to!(n => n.children));
    assert(decreases_to!(n.children => n.children@));
    if ch.len() >= 1 {
        assert(decreases_to!(n.children@ => n.children@[0]));
        lemma_pure_plain(ch[0], m, locals);
    }
    if ch.len() >= 2 {
        assert(decreases_to!(n.children@ => n.children@[1]));
        lemma_pure_plain(ch[1], m, locals);
    }
}

/// The values of `pure_values` are plain too.
proof fn lemma_pure_values_plain(ns: Seq<Node>, st: State)
    ensures
        pure_values(ns, st) matches Some(vs) ==> vs.len() == ns.len()
            && forall|i: int| 0 <= i < vs.len() ==> !(#[trigger] vs[i] is Function || vs[i] is Constructor || vs[i] is Return),
    decreases ns.len(),
{
    if ns.len() > 0 {
        lemma_pure_values_plain(ns.drop_last(), st);
        lemma_pure_plain(ns.last(), st.stack.model(), !st.in_const && st.eval_var@.len() == 0);
    }
}

/// The value of an expression that the library computes itself without
/// changing the state, when the variables are those of the stack `m` and
/// may be read (`locals`): integer, boolean and plain string literals, `null`, local
/// variables that hold no function and no double, and `!`, unary `-`, `==`
/// and the binary operations of `op_result` on such expressions. `None` for
/// anything else.
pub open spec fn pure_with(n: Node, m: StackModel, locals: bool) -> Option<Object>
    decreases n,
{
    let ch = n.children@;
    proof {
        assert(decreases_to!(n => n.children));
        assert(decreases_to!(n.children => n.children@));
    }
    match n.nodetype {
        NodeType::Int(v, _, _) => Some(Object::Int(v)),
        NodeType::Bool(b, _, _) => Some(Object::Bool(b)),
        NodeType::Null(_, _) => Some(Object::Null),
        NodeType::Str(t, _, _) => if ch.len() == 0 { Some(Object::String(t)) } else { None },
        NodeType::Name(s, _, _) => if locals && ch.len() == 0 && m.frames.len() > 0 && m.lex_level > 0
            && visible(m, s@) is Some && !(visible(m, s@)->0 is Function || visible(m, s@)->0 is Constructor
            || visible(m, s@)->0 is Return || visible(m, s@)->0 is Double) {
            Some(visible(m, s@)->0)
        } else {
            None
        },
        NodeType::Not(_, _) => if ch.len() >= 1 {
            proof { assert(decreases_to!(n.children@ => n.children@[0])); }
            match pure_with(ch[0], m, locals) {
                Some(Object::Bool(b)) => Some(Object::Bool(!b)),
                _ => None,
            }
        } else {
            None
        },
        NodeType::Equal(_, _) => if ch.len() >= 2 {
            proof {
                assert(decreases_to!(n.children@ => n.children@[0]));
                assert(decreases_to!(n.children@ => n.children@[1]));
            }
            match (pure_with(ch[0], m, locals), pure_with(ch[1], m, locals)) {
                (Some(a), Some(b)) => match literal_eq(a, b) {
                    Some(e) => Some(Object::Bool(e)),
                    None => None,
                },
                _ => None,
            }
        } else {
            None
        },
        _ => if n.nodetype is Sub && ch.len() == 1 {
            proof { assert(decreases_to!(n.children@ => n.children@[0])); }
            match pure_with(ch[0], m, locals) {
                Some(Object::Int(x)) => Some(Object::Int(0i64.wrapping_sub(x))),
                _ => None,
            }
        } else if binary_kind(n.nodetype) is Some && ch.len() >= 2 {
            proof {
                assert(decreases_to!(n.children@ => n.children@[0]));
                assert(decreases_to!(n.children@ => n.children@[1]));
            }
            match (pure_with(ch[0], m, locals), pure_with(ch[1], m, locals)) {
                (Some(a), Some(b)) => op_result(binary_kind(n.nodetype)->0, a, b),
                _ => None,
            }
        } else {
            None
        },
    }
}


/// The value of an expression of `pure_with` in the state `st`: its
/// variables may be read unless a top-level value or a constant is being
/// computed.
pub open spec fn pure_value(n: Node, st: State) -> Option<Object> {
    pure_with(n, st.stack.model(), !st.in_const && st.eval_var@.len() == 0)
}

/// The values of the expressions `ns` of `pure_value`, in order, where each
/// has one.
pub open spec fn pure_values(ns: Seq<Node>, st: State) -> Option<Seq<Object>>
    decreases ns.len(),
{
    if ns.len() == 0 {
        Some(seq![])
    } else {
        match (pure_values(ns.drop_last(), st), pure_value(ns.last(), st)) {
            (Some(vs), Some(v)) => Some(vs.push(v)),
            _ => None,
        }
    }
}

/// The steps of the budget that evaluating the expressions `ns` takes.
pub open spec fn pure_costs(ns: Seq<Node>) -> nat
    decreases ns.len(),
{
    if ns.len() == 0 {
        0
    } else {
        pure_costs(ns.drop_last()) + pure_cost(ns.last())
    }
}

/// A copy of a value that holds no function is the value itself.
proof fn lemma_copies_plain(a: Object, b: Object)
    ensures
        copies(a, b) && !(b is Function || b is Constructor || b is Return) ==> a == b,
{
}

/// Each prefix of expressions that have values has values, and costs no
/// more than the whole.
proof fn lemma_pure_prefix(ns: Seq<Node>, st: State, i: int)
    requires
        0 <= i <= ns.len(),
        pure_values(ns, st) is Some,
    ensures
        pure_values(ns.take(i), st) is Some,
        pure_costs(ns.take(i)) <= pure_costs(ns),
        i < ns.len() ==> pure_value(ns[i], st) is Some
            && pure_values(ns.take(i + 1), st) == Some((pure_values(ns.take(i), st)->0).push(pure_value(ns[i], st)->0))
            && pure_costs(ns.take(i + 1)) == pure_costs(ns.take(i)) + pure_cost(ns[i]),
    decreases ns.len() - i,
{
    if i < ns.len() {
        lemma_pure_prefix(ns, st, i + 1);
        assert(ns.take(i + 1).drop_last() =~= ns.take(i));
        assert(ns.take(i + 1).last() == ns[i]);
    } else {
        assert(ns.take(i) =~= ns);
    }
}

/// The steps of the budget that evaluating the expression `n` of
/// `pure_value` takes.
pub open spec fn pure_cost(n: Node) -> nat
    decreases n,
{
    let ch = n.children@;
    proof {
        assert(decreases_to!(n => n.children));
        assert(decreases_to!(n.children => n.children@));
    }
    match n.nodetype {
        NodeType::Int(..) => 1,
        NodeType::Bool(..) => 1,
        NodeType::Null(..) => 1,
        NodeType::Str(..) => if ch.len() == 0 { 2 } else { 0 },
        NodeType::Name(..) => 2,
        NodeType::Not(..) => if ch.len() >= 1 {
            proof { assert(decreases_to!(n.children@ => n.children@[0])); }
            1 + pure_cost(ch[0])
        } else {
            0
        },
        NodeType::Equal(..) => if ch.len() >= 2 {
            proof {
                assert(decreases_to!(n.children@ => n.children@[0]));
                assert(decreases_to!(n.children@ => n.children@[1]));
            }
            1 + pure_cost(ch[0]) + pure_cost(ch[1])
        } else {
            0
        },
        _ => if n.nodetype is Sub && ch.len() == 1 {
            proof { assert(decreases_to!(n.children@ => n.children@[0])); }
            1 + pure_cost(ch[0])
        } else if binary_kind(n.nodetype) is Some && ch.len() >= 2 {
            proof {
                assert(decreases_to!(n.children@ => n.children@[0]));
                assert(decreases_to!(n.children@ => n.children@[1]));
            }
            2 + pure_cost(ch[0]) + pure_cost(ch[1])
        } else {
            0
        },
    }
}

/// Runs a program node and gives its value. A statement's value is null;
/// a `return` gives its value wrapped so that enclosing blocks pass it on.
/// Every step takes one unit of `fuel`; a run that exhausts it fails.
#[verifier::rlimit(60)]
pub fn eval<H: Host>(node: &Node, state: &mut State, host: &mut H, fuel: &mut u64) -> (r: Result<Object, EvalError>)
    requires
        rt_wf(*old(state)),
    ensures
        rt_wf(*final(state)),
        keeps(*old(state), *final(state)),
        *final(fuel) <= *old(fuel),
        r is Ok ==> *final(fuel) < *old(fuel),
        *old(fuel) == 0 ==> r is Err && r->Err_0.kind == FailKind::Panicked,
        *old(fuel) > 0 && node.nodetype is Int ==> r == Ok::<Object, EvalError>(Object::Int(node.nodetype->Int_0)),
        *old(fuel) > 0 && node.nodetype is Bool ==> r == Ok::<Object, EvalError>(Object::Bool(node.nodetype->Bool_0)),
        *old(fuel) > 0 && node.nodetype is Null ==> r == Ok::<Object, EvalError>(Object::Null),
        *old(fuel) > 0 && node.nodetype is This ==> (r is Ok <==> old(state).objsys.inst_index(old(state).objsys.this_key()) >= 0)
            && (r matches Ok(v) ==> v matches Object::Reference(k) && k.0@ == old(state).objsys.this_key()),
        *old(fuel) > 1 && local_lookup(node, *old(state)) ==>
            (r matches Ok(v) && copies(v, visible(old(state).stack.model(), node.nodetype->Name_0@)->0)),
        *old(fuel) > 0 && literal_value(*node) is Some ==> r == Ok::<Object, EvalError>(literal_value(*node)->0)
            && *final(fuel) == *old(fuel) - 1 && *final(state) == *old(state),
        *old(fuel) > 3 && node.children@.len() >= 2 ==> (binary_kind(node.nodetype) matches Some(k)
            ==> (literal_value(node.children@[0]) matches Some(Object::Int(x)) ==> (literal_value(node.children@[1]) matches Some(Object::Int(y))
            ==> (int_binary(k, x, y) matches Some(v) ==> r == Ok::<Object, EvalError>(v))))),
        *old(fuel) > 2 && node.nodetype is Sub && node.children@.len() == 1
            ==> (literal_value(node.children@[0]) matches Some(Object::Int(n)) ==> r == Ok::<Object, EvalError>(Object::Int(0i64.wrapping_sub(n)))),
        *old(fuel) > 2 && node.nodetype is Not && node.children@.len() >= 1
            ==> (literal_value(node.children@[0]) matches Some(Object::Bool(b)) ==> r == Ok::<Object, EvalError>(Object::Bool(!b))),
        *old(fuel) > 2 && node.nodetype is Equal && node.children@.len() >= 2 ==> (literal_value(node.children@[0]) matches Some(a)
            ==> (literal_value(node.children@[1]) matches Some(b) ==> (literal_eq(a, b) matches Some(e)
            ==> r == Ok::<Object, EvalError>(Object::Bool(e))))),
        *old(fuel) > 2 && node.nodetype is Return && node.children@.len() >= 1 && literal_value(node.children@[0]) is Some
            ==> r == Ok::<Object, EvalError>(Object::Return(Box::new(literal_value(node.children@[0])->0))) && *final(state) == *old(state),
        node.nodetype is Return && node.children@.len() >= 1 && *old(fuel) >= 1 + pure_cost(node.children@[0])
            ==> (pure_value(node.children@[0], *old(state)) matches Some(v) ==> r == Ok::<Object, EvalError>(Object::Return(Box::new(v)))
                && *final(state) == *old(state) && *final(fuel) == *old(fuel) - 1 - pure_cost(node.children@[0])),
        *old(fuel) > 1 && node.nodetype is Block && node.children@.len() == 0 ==> r == Ok::<Object, EvalError>(Object::Null),
        node.nodetype is Block ==> (r matches Ok(v) ==> v == Object::Null || v is Return),
        node.nodetype is CollAccess && node.children@.len() >= 2
            && *old(fuel) >= 2 + pure_cost(node.children@[0]) + pure_cost(node.children@[1])
            ==> (pure_value(node.children@[0], *old(state)) matches Some(owner) ==> (pure_value(node.children@[1], *old(state)) matches Some(Object::Int(n))
            ==> (evalhelp::field_source(old(state).objsys, owner, "__list"@, old(state).objsys.instances().len()) matches Ok((k, false))
            ==> (old(state).objsys.instances()[old(state).objsys.inst_index(k)].field_map()["__list"@] matches Object::Reference(lk)
            ==> ({
                &&& n < 0 ==> r is Err && r->Err_0.kind == FailKind::Reported
                &&& 0 <= n && old(state).objsys.list_index(lk.0@) >= 0 && n < list::els_of(old(state).objsys, lk.0@).len()
                    ==> (r matches Ok(v) && copies(v, list::els_of(old(state).objsys, lk.0@)[n as int])) && *final(state) == *old(state)
                &&& 0 <= n && !(old(state).objsys.list_index(lk.0@) >= 0 && n < list::els_of(old(state).objsys, lk.0@).len())
                    ==> r is Err && r->Err_0.msg@ == "List index out of range."@
            }))))),
        *old(fuel) > 4 && node.nodetype is Block && node.children@.len() >= 1 && node.children@[0].nodetype is Return
            && node.children@[0].children@.len() >= 1 && literal_value(node.children@[0].children@[0]) is Some ==> {
            &&& r is Ok ==> r == Ok::<Object, EvalError>(Object::Return(Box::new(literal_value(node.children@[0].children@[0])->0)))
            &&& r is Err ==> exists|k: Seq<char>| r->Err_0.msg@ == "GC could not find heap object: "@ + k
        },
        *old(fuel) > 3 && node.nodetype is While && node.children@.len() >= 2
            && literal_value(node.children@[0]) == Some(Object::Bool(false)) ==> r == Ok::<Object, EvalError>(Object::Null),
        *old(fuel) > 2 + node.children@.len() && node.nodetype is Str && node.children@.len() > 0 && all_literals(node.children@)
            ==> (r matches Ok(Object::String(t)) && t@ == interpolated(node.nodetype->Str_0@, shown_all(literal_values(node.children@)))),
        *old(fuel) > 1 ==> (step_kind(node.nodetype) matches Some((up, pre)) ==> (node.children@.len() > 0 && node.children@[0].nodetype is Name
            && old(state).stack.model().frames.len() > 0 && old(state).stack.model().lex_level > 0
            ==> (visible(old(state).stack.model(), node.children@[0].nodetype->Name_0@) matches Some(Object::Int(n))
            ==> r == Ok::<Object, EvalError>(Object::Int(if pre { stepped(n, up) } else { n }))
                && final(state).stack.model() == update_model(old(state).stack.model(), node.children@[0].nodetype->Name_0@, Object::Int(stepped(n, up)))))),
        *old(fuel) > 3 && node.nodetype is Assign && node.children@.len() >= 2 && node.children@[0].nodetype is TypedVar
            && literal_value(node.children@[1]) is Some && old(state).stack.model().frames.len() > 0 && old(state).stack.model().lex_level > 0
            && !top(old(state).stack.model()).last().contains_key(node.children@[0].nodetype->TypedVar_1@)
            ==> r == Ok::<Object, EvalError>(Object::Null) && final(state).stack.model()
                == add_new_model(old(state).stack.model(), node.children@[0].nodetype->TypedVar_1@, literal_value(node.children@[1])->0),
        *old(fuel) > 5 && node.nodetype is Conditional && cond_true(*node, *old(state))
            ==> r == Ok::<Object, EvalError>(literal_value(node.children@[0].children@[1])->0)
                && final(state).stack.model() == old(state).stack.model(),
        *old(fuel) > 4 && node.nodetype is Conditional && node.children@.len() == 1 && node.children@[0].nodetype is If
            && node.children@[0].children@.len() >= 2 && literal_value(node.children@[0].children@[0]) == Some(Object::Bool(false))
            ==> r == Ok::<Object, EvalError>(Object::Null),
        *old(fuel) >= pure_cost(*node) ==> (pure_value(*node, *old(state)) matches Some(v)
            ==> r == Ok::<Object, EvalError>(v) && *final(state) == *old(state) && *final(fuel) == *old(fuel) - pure_cost(*node)),
        r is Ok ==> (pure_value(*node, *old(state)) matches Some(v)
            ==> r == Ok::<Object, EvalError>(v) && *final(state) == *old(state) && *final(fuel) == *old(fuel) - pure_cost(*node)),
        r is Ok && !old(state).in_const && old(state).eval_var@.len() == 0
            ==> (stmt_effect(*node, old(state).stack.model()) matches Some(m2) ==> final(state).stack.model() == m2
                && final(state).in_const == old(state).in_const && final(state).eval_var == old(state).eval_var
                && !(r->Ok_0 is Return)),
        r is Ok && node.nodetype is Block && !old(state).in_const && old(state).eval_var@.len() == 0
            ==> (block_effect(node.children@, old(state).stack.model()) matches Some(m2) ==> final(state).stack.model() == m2
                && final(state).in_const == old(state).in_const && final(state).eval_var == old(state).eval_var),
        node.nodetype is Assign && node.children@.len() >= 2 && node.children@[0].nodetype is TypedVar && *old(fuel) >= 2 + pure_cost(node.children@[1])
            && old(state).stack.model().frames.len() > 0 && old(state).stack.model().lex_level > 0
            ==> (pure_value(node.children@[1], *old(state)) matches Some(v) ==> ({
                let x = node.children@[0].nodetype->TypedVar_1@;
                &&& top(old(state).stack.model()).last().contains_key(x) ==> r is Err && r->Err_0.kind == FailKind::Reported
                    && r->Err_0.msg@ == "'"@ + x + "' is already declared in this scope."@
                    && final(state).stack.model() == old(state).stack.model()
                &&& !top(old(state).stack.model()).last().contains_key(x) ==> r == Ok::<Object, EvalError>(Object::Null)
                    && final(state).stack.model() == add_new_model(old(state).stack.model(), x, v)
            })),
        *old(fuel) > 0 && node.nodetype is FunDef && node.children@.len() >= 2
            && old(state).stack.model().frames.len() > 0 && old(state).stack.model().lex_level > 0 ==> {
            &&& function_params_ok(node.children@[0].view().children) ==> r == Ok::<Object, EvalError>(Object::Null)
                && final(state).objsys == old(state).objsys && final(state).globals == old(state).globals
                && exists|f: Object| final(state).stack.model() == #[trigger] add_new_model(old(state).stack.model(), node.nodetype->FunDef_1@, f)
                    && (f matches Object::Function(n, _, body, params) && n@ == node.nodetype->FunDef_1@
                        && body.view() == node.children@[1].view() && params@.len() == node.children@[0].view().children.len())
            &&& !function_params_ok(node.children@[0].view().children) ==> r is Err && r->Err_0.msg@ == "Invalid parameter"@
        },
    decreases *old(fuel), 3nat,
{
    match burn(fuel) {
        Ok(()) => {},
        Err(e) => { return Err(e); },
    }
    match &node.nodetype {
        NodeType::Assign(_, _) => assign(node, state, host, fuel),
        NodeType::Not(_, _) => {
            let operand = child(node, 0)?;
            let obj = eval(operand, state, host, fuel)?;
            match values::not_value(&obj) {
                Outcome::Value(v) => Ok(v),
                _ => {
                    let shown = show_value(&obj, host);
                    Err(err_node(concat("Illegal operand for !: ", shown.as_str()), operand))
                },
            }
        },
        NodeType::LogOr(_, _) => binary(node, NodeKind::LogOr, state, host, fuel),
        NodeType::LogAnd(_, _) => binary(node, NodeKind::LogAnd, state, host, fuel),
        NodeType::LessThan(_, _) => binary(node, NodeKind::LessThan, state, host, fuel),
        NodeType::GreaterThan(_, _) => binary(node, NodeKind::GreaterThan, state, host, fuel),
        NodeType::LessOrEq(_, _) => binary(node, NodeKind::LessOrEq, state, host, fuel),
        NodeType::GreaterOrEq(_, _) => binary(node, NodeKind::GreaterOrEq, state, host, fuel),
        NodeType::Equal(_, _) => {
            let lnode = child(node, 0)?;
            let rnode = child(node, 1)?;
            let a = eval(lnode, state, host, fuel)?;
            let b = eval(rnode, state, host, fuel)?;
            match values::equal_values(&a, &b) {
                Outcome::Value(v) => Ok(v),
                Outcome::Floating => Ok(host.floating(NodeKind::Equal, &a, &b)),
                Outcome::Illegal(_) => {
                    let shown = show_value(&a, host);
                    Err(err_node(concat("Equality not implemented for object: ", shown.as_str()), lnode))
                },
            }
        },
        NodeType::BitAnd(_, _) => binary(node, NodeKind::BitAnd, state, host, fuel),
        NodeType::BitOr(_, _) => binary(node, NodeKind::BitOr, state, host, fuel),
        NodeType::BitXor(_, _) => binary(node, NodeKind::BitXor, state, host, fuel),
        NodeType::Add(_, _) => binary(node, NodeKind::Add, state, host, fuel),
        NodeType::Sub(_, _) => {
            if node.children.len() == 1 {
                let a = eval(&node.children[0], state, host, fuel)?;
                match values::negate_value(&a) {
                    Outcome::Value(v) => Ok(v),
                    _ => {
                        let shown = show_value(&a, host);
                        Err(err_node(concat("Illegal operand for unary minus: ", shown.as_str()), &node.children[0]))
                    },
                }
            } else {
                binary(node, NodeKind::Sub, state, host, fuel)
            }
        },
        NodeType::Mul(_, _) => binary(node, NodeKind::Mul, state, host, fuel),
        NodeType::Div(_, _) => binary(node, NodeKind::Div, state, host, fuel),
        NodeType::PreIncrement(_, _) => step(node, true, true, state, host, fuel),
        NodeType::PreDecrement(_, _) => step(node, false, true, state, host, fuel),
        NodeType::PostIncrement(_, _) => step(node, true, false, state, host, fuel),
        NodeType::PostDecrement(_, _) => step(node, false, false, state, host, fuel),
        NodeType::Int(v, _, _) => Ok(Object::Int(*v)),
        NodeType::Double(t, _, _) => Ok(host.double_literal(t.as_str())),
        NodeType::Bool(v, _, _) => Ok(Object::Bool(*v)),
        NodeType::Str(s, _, _) => string_value(node, s, state, host, fuel),
        NodeType::Name(_, _, _) => {
            let r = get_name(node, state, host, fuel);
            proof {
                if r is Ok && local_lookup(node, *old(state)) {
                    lemma_copies_plain(r->Ok_0, visible(old(state).stack.model(), node.nodetype->Name_0@)->0);
                }
            }
            r
        },
        NodeType::Return(_, _) => {
            let v = eval(child(node, 0)?, state, host, fuel)?;
            Ok(Object::Return(Box::new(v)))
        },
        NodeType::CollAccess(_, _) => {
            let onode = child(node, 0)?;
            let inode = child(node, 1)?;
            let owner = eval(onode, state, host, fuel)?;
            let index = eval(inode, state, host, fuel)?;
            let ilist_ref = get_field(owner, "__list", state, host, fuel, onode)?;
            match (&ilist_ref, &index) {
                (Object::Reference(rk), Object::Int(n)) => {
                    if *n < 0 {
                        let shown = show_value(&index, host);
                        return Err(err_node(concat("Index must be positive: ", shown.as_str()), node));
                    }
                    if !state.objsys.has_list(rk) || *n as u64 >= state.objsys.get_list(rk).els.len() as u64 {
                        return Err(fatal(text("List index out of range.")));
                    }
                    Ok(state.objsys.get_list(rk).els[*n as usize].duplicate())
                },
                (Object::Reference(_), _) => {
                    let shown = show_value(&index, host);
                    Err(err_node(concat("Illegal index: ", shown.as_str()), node))
                },
                _ => {
                    let shown = show_value(&ilist_ref, host);
                    Err(err_node(concat("Expected reference, got: ", shown.as_str()), onode))
                },
            }
        },
        NodeType::MethodCall(name, owner, _, _, _) => {
            if state.in_const {
                return Err(err_node(text("Not a constant expression."), node));
            }
            let o: &Node = &**owner;
            let reference = eval(o, state, host, fuel)?;
            match reference {
                Object::Reference(refid) => {
                    let m = method_of(&refid, name.as_str(), state, node)?;
                    let args = child(node, 0)?;
                    call_function(MaybeRef::Ref(refid), &m, args, state, host, fuel)
                },
                _ => Err(fatal(concat("Can't access ", name.as_str()))),
            }
        },
        NodeType::FunCall(s, _, _) => fun_call(node, s, state, host, fuel),
        NodeType::FunDef(_, s, _, _, _) => {
            match evalhelp::create_function(node) {
                Ok(f) => {
                    if !state.stack.ready() {
                        return Err(fatal(text("No call frame.")));
                    }
                    state.stack.add_new(s.as_str(), f);
                    Ok(Object::Null)
                },
                Err(_) => Err(fatal(text("Invalid parameter"))),
            }
        },
        NodeType::Conditional(_, _) => conditional_value(node, state, host, fuel),
        NodeType::While(_, _) | NodeType::DoWhile(_, _) | NodeType::For(_, _) => run_loop(node, state, host, fuel),
        NodeType::Block(_, _) => block_value(node, state, host, fuel),
        NodeType::List(_, _) => list_value(node, state, host, fuel),
        NodeType::This(_, _) => this_object(state, node),
        NodeType::Null(_, _) => Ok(Object::Null),
        _ => Err(fatal(text("Unknown node type"))),
    }
}

} // verus!
