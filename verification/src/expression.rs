use vstd::prelude::*;
use crate::token::{Token, TokenV, TokKind, token_text, toks_view, duplicate_tokens, subs_view, lemma_str_subs, seq_size, subs_size, lemma_size_at, lemma_subs_size};
use queues::IsQueue;
use crate::node::{Node, NodeType, NodeV, NodeTypeV, NodeKind, push_child, lemma_node_view, lemma_nodes_push, nodes_view};
use crate::reader::{Reader, ParseError, PErr, FailKind, fail, fail_at, fail_pos, fail_with_token, more_at, step, skip_spec, end_fail};
use crate::testlist::{digits_value, all_digits};

verus! {

broadcast use vstd::std_specs::vec::group_vec_axioms;

// ---------------------------------------------------------------------------
// Values that the parser's contracts speak of.
// ---------------------------------------------------------------------------

/// A node type of kind `k` with strings `strs`, at the position of token `t`.
pub open spec fn tyv(k: NodeKind, strs: Seq<Seq<char>>, t: TokenV) -> NodeTypeV {
    NodeTypeV { kind: k, strs, int_val: 0, flag: false, boxes: seq![], line: t.line, col: t.col }
}

/// A node of payload-free kind `k` at token `t`, with children `ch`.
pub open spec fn nodev(k: NodeKind, t: TokenV, ch: Seq<NodeV>) -> NodeV {
    NodeV { ty: tyv(k, seq![], t), children: ch }
}

/// The `Name` node for the name token `t`, with children `ch`.
pub open spec fn named(t: TokenV, ch: Seq<NodeV>) -> NodeV {
    NodeV { ty: tyv(NodeKind::Name, seq![t.text], t), children: ch }
}

/// The value of an integer literal: decimal digits whose value fits in an
/// `i64`.
pub open spec fn int_literal(s: Seq<char>) -> Option<i64> {
    if s.len() > 0 && all_digits(s) && digits_value(s) <= i64::MAX {
        Some(digits_value(s) as i64)
    } else {
        None
    }
}
















/// A `++` or `--` at `q` after the operand `n`.
pub open spec fn postfix_spec(ts: Seq<TokenV>, q: int, n: NodeV) -> Result<(NodeV, int), PErr> {
    let inc = ts[q].kind == TokKind::Increment;
    match step(ts, q) {
        Err(e) => Err(e),
        Ok(q1) => {
            if n.ty.kind == NodeKind::Name {
                Ok((nodev(if inc { NodeKind::PostIncrement } else { NodeKind::PostDecrement }, ts[q],
                    seq![NodeV { ty: n.ty, children: seq![] }]), q1))
            } else {
                Err(PErr {
                    kind: FailKind::Reported,
                    msg: if inc { "Invalid node for increment: "@ } else { "Invalid node for decrement: "@ },
                    culprit: Some(NodeV { ty: n.ty, children: seq![] }),
                    line: ts[q1].line,
                    col: ts[q1].col,
                })
            }
        },
    }
}











/// An integer, double or boolean literal, or `this`, at `p`.
#[verifier::opaque]
pub open spec fn literal_spec(ts: Seq<TokenV>, p: int) -> Result<(NodeV, int), PErr> {
    let t = ts[p];
    match step(ts, p) {
        Err(e) => Err(e),
        Ok(p1) => {
            if t.kind == TokKind::Int {
                match int_literal(t.text) {
                    Some(v) => Ok((NodeV { ty: NodeTypeV { int_val: v as int, ..tyv(NodeKind::Int, seq![], t) }, children: seq![] }, p1)),
                    None => Err(fail_at(FailKind::Panicked, "Integer literal out of range: "@ + t.text, t)),
                }
            } else if t.kind == TokKind::Double {
                Ok((NodeV { ty: tyv(NodeKind::Double, seq![t.text], t), children: seq![] }, p1))
            } else if t.kind == TokKind::Bool {
                Ok((NodeV { ty: NodeTypeV { flag: t.flag, ..tyv(NodeKind::Bool, seq![], t) }, children: seq![] }, p1))
            } else {
                Ok((nodev(NodeKind::This, t, seq![]), p1))
            }
        },
    }
}




/// A token of kind `k` ends an expression: no operator, access, call or
/// indexing can follow the operand before it.
pub open spec fn ends_expression(k: TokKind) -> bool {
    k == TokKind::EndSt || k == TokKind::Comma || k == TokKind::Paren2 || k == TokKind::Brack2
}

/// A token of kind `k` is read as a literal or `this`.
pub open spec fn literal_kind(k: TokKind) -> bool {
    k == TokKind::Int || k == TokKind::Double || k == TokKind::Bool || k == TokKind::This
}

/// At `p` stands a literal or `this` that reads well and is followed by a
/// token that ends the expression.
#[verifier::opaque]
pub open spec fn lone_literal(ts: Seq<TokenV>, p: int) -> bool {
    &&& 0 <= p
    &&& p + 1 < ts.len()
    &&& ({
        let k = ts[p].kind;
        k == TokKind::Int || k == TokKind::Double || k == TokKind::Bool || k == TokKind::This
    })
    &&& literal_spec(ts, p) is Ok
    &&& ends_expression(ts[p + 1].kind)
}

/// A lone literal reads to a node and ends at the token after it.
pub proof fn lemma_lone_literal(ts: Seq<TokenV>, p: int)
    ensures
        lone_literal(ts, p) ==> literal_spec(ts, p) is Ok && (literal_spec(ts, p)->Ok_0).1 == p + 1
            && p + 1 < ts.len() && ends_expression(ts[p + 1].kind) && literal_kind(ts[p].kind),
{
    reveal(literal_spec);
    reveal(lone_literal);
}

/// A token of kind `k` cannot go on with a product after an operand: it is
/// no access, indexing, `++`, `--`, `*` or `/`.
pub open spec fn ends_product(k: TokKind) -> bool {
    !(k == TokKind::Access || k == TokKind::Brack1 || k == TokKind::Increment || k == TokKind::Decrement
        || k == TokKind::Mul || k == TokKind::Div)
}

/// At `p` stands a literal or `this` that reads well and is a whole factor:
/// the token after it cannot go on with a product.
#[verifier::opaque]
pub open spec fn factor_literal(ts: Seq<TokenV>, p: int) -> bool {
    &&& 0 <= p
    &&& p + 1 < ts.len()
    &&& literal_kind(ts[p].kind)
    &&& literal_spec(ts, p) is Ok
    &&& ends_product(ts[p + 1].kind)
}

/// A factor literal reads to a node and ends at the token after it; a lone
/// literal is a factor literal.
pub proof fn lemma_factor_literal(ts: Seq<TokenV>, p: int)
    ensures
        factor_literal(ts, p) ==> literal_spec(ts, p) is Ok && (literal_spec(ts, p)->Ok_0).1 == p + 1
            && p + 1 < ts.len() && ends_product(ts[p + 1].kind) && literal_kind(ts[p].kind),
        lone_literal(ts, p) ==> factor_literal(ts, p),
{
    reveal(literal_spec);
    reveal(lone_literal);
    reveal(factor_literal);
}

/// Where the simple operand at `p` ends: after the call `name ( literal )`
/// that stands there, or after its one token.
pub open spec fn operand_end(ts: Seq<TokenV>, p: int) -> int {
    if lone_call(ts, p) is Some { p + 4 } else { p + 1 }
}

/// At `p` stands a simple operand: a literal, `this`, a plain name or a call
/// of one literal argument, after which no call, access, indexing, `++` or
/// `--` follows.
pub open spec fn simple_operand(ts: Seq<TokenV>, p: int) -> bool {
    let e = operand_end(ts, p);
    &&& 0 <= p
    &&& e < ts.len()
    &&& ((literal_kind(ts[p].kind) && literal_spec(ts, p) is Ok && (literal_spec(ts, p)->Ok_0).1 == p + 1)
        || ts[p].kind == TokKind::Name)
    &&& !(ts[e].kind == TokKind::Access || ts[e].kind == TokKind::Brack1 || ts[e].kind == TokKind::Paren1
        || ts[e].kind == TokKind::Increment || ts[e].kind == TokKind::Decrement)
}

/// The node of the simple operand at `p`.
pub open spec fn operand_node(ts: Seq<TokenV>, p: int) -> NodeV {
    if lone_call(ts, p) is Some {
        lone_call(ts, p)->0
    } else if ts[p].kind == TokKind::Name {
        named(ts[p], seq![])
    } else {
        (literal_spec(ts, p)->Ok_0).0
    }
}

/// The node type of the operator token `t`.
pub open spec fn op_ty(t: TokenV) -> NodeTypeV {
    tyv(if t.kind == TokKind::Add {
        NodeKind::Add
    } else if t.kind == TokKind::Sub {
        NodeKind::Sub
    } else if t.kind == TokKind::Mul {
        NodeKind::Mul
    } else {
        NodeKind::Div
    }, seq![], t)
}

/// A chain `f0 op1 f1 ... opn fn` of simple operands joined by `*` and `/`
/// from `p`: the operands' nodes, the operators' node types, and where the
/// chain ends. `None` where the tokens at `p` are no such chain.
pub open spec fn product_chain(ts: Seq<TokenV>, p: int) -> Option<(Seq<NodeV>, Seq<NodeTypeV>, int)>
    decreases ts.len() - p,
{
    if simple_operand(ts, p) {
        let q = operand_end(ts, p);
        if more_at(ts, q) && (ts[q].kind == TokKind::Mul || ts[q].kind == TokKind::Div) {
            match product_chain(ts, q + 1) {
                Some((fs, os, e)) => Some((seq![operand_node(ts, p)] + fs, seq![op_ty(ts[q])] + os, e)),
                None => None,
            }
        } else {
            Some((seq![operand_node(ts, p)], seq![], q))
        }
    } else {
        None
    }
}

/// A chain of products (as `product_chain` reads them) joined by `+` and
/// `-` from `p`: the products' nodes, the operators' node types, and where
/// the chain ends.
pub open spec fn sum_chain(ts: Seq<TokenV>, p: int) -> Option<(Seq<NodeV>, Seq<NodeTypeV>, int)>
    decreases ts.len() - p,
{
    match product_chain(ts, p) {
        Some((pf, po, q)) => {
            proof { lemma_product_chain(ts, p); }
            if more_at(ts, q) && (ts[q].kind == TokKind::Add || ts[q].kind == TokKind::Sub) {
                match sum_chain(ts, q + 1) {
                    Some((fs, os, e)) => Some((seq![left_fold(pf, po)] + fs, seq![op_ty(ts[q])] + os, e)),
                    None => None,
                }
            } else {
                Some((seq![left_fold(pf, po)], seq![], q))
            }
        },
        None => None,
    }
}

/// The operands `fs` joined by the operators `os`, grouped to the left:
/// `((f0 op1 f1) op2 f2) ...`.
pub open spec fn left_fold(fs: Seq<NodeV>, os: Seq<NodeTypeV>) -> NodeV
    decreases os.len(),
{
    if os.len() == 0 || fs.len() == 0 {
        fs[0]
    } else {
        NodeV { ty: os.last(), children: seq![left_fold(fs.drop_last(), os.drop_last()), fs.last()] }
    }
}

/// The node types of the nodes of `s`.
pub open spec fn node_types(s: Seq<Node>) -> Seq<NodeTypeV> {
    Seq::new(s.len(), |i: int| s[i].view().ty)
}

/// A product chain has one operand more than it has operators, and ends
/// after its last operand, where no `*` or `/` follows.
pub proof fn lemma_product_chain(ts: Seq<TokenV>, p: int)
    ensures
        product_chain(ts, p) matches Some((fs, os, e)) ==> fs.len() == os.len() + 1 && p < e < ts.len()
            && !(more_at(ts, e) && (ts[e].kind == TokKind::Mul || ts[e].kind == TokKind::Div)),
    decreases ts.len() - p,
{
    if simple_operand(ts, p) {
        let q = operand_end(ts, p);
        if more_at(ts, q) && (ts[q].kind == TokKind::Mul || ts[q].kind == TokKind::Div) {
            lemma_product_chain(ts, q + 1);
        }
    }
}

/// A sum chain has one operand more than it has operators, and ends after
/// its last operand, where no `+`, `-`, `*` or `/` follows.
pub proof fn lemma_sum_chain(ts: Seq<TokenV>, p: int)
    ensures
        sum_chain(ts, p) matches Some((fs, os, e)) ==> fs.len() == os.len() + 1 && p < e < ts.len()
            && !(more_at(ts, e) && (ts[e].kind == TokKind::Add || ts[e].kind == TokKind::Sub
                || ts[e].kind == TokKind::Mul || ts[e].kind == TokKind::Div)),
    decreases ts.len() - p,
{
    lemma_product_chain(ts, p);
    if product_chain(ts, p) is Some {
        let q = (product_chain(ts, p)->0).2;
        if more_at(ts, q) && (ts[q].kind == TokKind::Add || ts[q].kind == TokKind::Sub) {
            lemma_sum_chain(ts, q + 1);
        }
    }
}

/// A `++` or `--` at `p` before a name.
pub open spec fn prefix_spec(ts: Seq<TokenV>, p: int) -> Result<(NodeV, int), PErr> {
    let t = ts[p];
    match step(ts, p) {
        Err(e) => Err(e),
        Ok(p1) => {
            if ts[p1].kind == TokKind::Name {
                match step(ts, p1) {
                    Err(e) => Err(e),
                    Ok(p2) => Ok((nodev(if t.kind == TokKind::Increment { NodeKind::PreIncrement } else { NodeKind::PreDecrement },
                        t, seq![named(ts[p1], seq![])]), p2)),
                }
            } else {
                Err(fail_at(FailKind::Panicked,
                    (if t.kind == TokKind::Increment { "Invalid operand for increment: "@ } else { "Invalid operand for decrement: "@ })
                        + token_text(ts[p1]), ts[p1]))
            }
        },
    }
}




// ---------------------------------------------------------------------------
// The queues that group sums and products to the left.
// ---------------------------------------------------------------------------

#[verifier::external_type_specification]
#[verifier::external_body]
#[verifier::reject_recursive_types(T)]
pub struct ExQueue<T: Clone>(queues::Queue<T>);

/// The items of a queue of nodes, oldest first.
pub uninterp spec fn queue_items(q: queues::Queue<Node>) -> Seq<Node>;

/// Calls `queues::Queue::new`: the new queue holds nothing.
#[verifier::external_body]
fn new_queue() -> (q: queues::Queue<Node>)
    ensures
        queue_items(q) == Seq::<Node>::empty(),
{
    queues::Queue::new()
}

/// Calls `queues::IsQueue::add` on a `queues::Queue`, which pushes the item
/// at the back and always answers `Ok(None)`; the answer is dropped.
#[verifier::external_body]
fn queue_add(q: &mut queues::Queue<Node>, n: Node)
    ensures
        queue_items(*final(q)) == queue_items(*old(q)).push(n),
{
    let _ = q.add(n);
}

/// Calls `queues::IsQueue::remove` on a `queues::Queue`: the oldest item,
/// taken out, or nothing (the crate's `Err`) when the queue is empty.
#[verifier::external_body]
fn queue_remove(q: &mut queues::Queue<Node>) -> (r: Option<Node>)
    ensures
        queue_items(*old(q)).len() > 0 ==> r == Some(queue_items(*old(q))[0])
            && queue_items(*final(q)) == queue_items(*old(q)).drop_first(),
        queue_items(*old(q)).len() == 0 ==> r is None && queue_items(*final(q)) == queue_items(*old(q)),
{
    q.remove().ok()
}

// ---------------------------------------------------------------------------
// The parser of expressions.
// ---------------------------------------------------------------------------

/// The reader went from state `a` to `b` over the same tokens, stays on
/// them, and did not go back when the parse succeeded (`ok`).
pub open spec fn moved(a: Reader, b: Reader, ok: bool) -> bool {
    &&& b.toks() == a.toks()
    &&& b.pos_spec() < b.toks().len()
    &&& ok ==> a.pos_spec() <= b.pos_spec()
}

/// The reader went forward from state `a` to `b`, or stands at its last
/// token: a parse that succeeds leaves no token for a loop to read again.
pub open spec fn advanced(a: Reader, b: Reader) -> bool {
    a.pos_spec() < b.pos_spec() || b.pos_spec() + 1 >= b.toks().len()
}

/// `r` and the end position `pos` are what the parse `s` gives.
pub open spec fn gives(r: Result<Node, ParseError>, pos: nat, s: Result<(NodeV, int), PErr>) -> bool {
    match s {
        Ok((n, q)) => r matches Ok(x) && x.view() == n && pos == q,
        Err(e) => r matches Err(x) && x@ == e,
    }
}

/// A node of type `t` with the children `a` and `b`.
fn binop(t: NodeType, a: Node, b: Node) -> (r: Node)
    ensures
        r.view() == (NodeV { ty: t.view(), children: seq![a.view(), b.view()] }),
{
    let ghost av = a.view();
    let ghost bv = b.view();
    let mut n = Node::new(t);
    push_child(&mut n, a);
    push_child(&mut n, b);
    assert(n.view().children =~= seq![av, bv]);
    n
}

/// A node of type `t` with the one child `a`.
fn unop(t: NodeType, a: Node) -> (r: Node)
    ensures
        r.view() == (NodeV { ty: t.view(), children: seq![a.view()] }),
{
    let mut n = Node::new(t);
    push_child(&mut n, a);
    n
}

/// The value of an integer literal, when it is one that fits in an `i64`.
pub fn parse_int_literal(s: &str) -> (r: Option<i64>)
    ensures
        r == int_literal(s@),
{
    let cs = crate::text::chars_of(s);
    if cs.len() == 0 {
        return None;
    }
    let mut v: i64 = 0;
    let mut i: usize = 0;
    while i < cs.len()
        invariant
            cs@ == s@,
            i <= cs@.len(),
            all_digits(cs@.subrange(0, i as int)),
            v as int == digits_value(cs@.subrange(0, i as int)),
        decreases cs@.len() - i,
    {
        let c = cs[i];
        if !('0' <= c && c <= '9') {
            proof {
                assert(!all_digits(s@)) by {
                    assert(!('0' <= s@[i as int] <= '9'));
                }
            }
            return None;
        }
        let d: i64 = (c as u32 - '0' as u32) as i64;
        assert(cs@.subrange(0, i + 1).drop_last() =~= cs@.subrange(0, i as int));
        assert(digits_value(cs@.subrange(0, i + 1)) == v * 10 + d);
        if v > (i64::MAX - d) / 10 {
            proof {
                assert(v * 10 + d > i64::MAX) by (nonlinear_arith)
                    requires
                        v > (i64::MAX - d) / 10,
                        0 <= d <= 9,
                ;
                if all_digits(s@) {
                    crate::testlist::lemma_digits_value_monotone(s@, i + 1);
                    assert(s@.take(i + 1) =~= cs@.subrange(0, i + 1));
                }
            }
            return None;
        }
        assert(v * 10 + d <= i64::MAX) by (nonlinear_arith)
            requires
                v <= (i64::MAX - d) / 10,
                0 <= d <= 9,
                v >= 0,
        ;
        v = v * 10 + d;
        i = i + 1;
        assert(all_digits(cs@.subrange(0, i as int)));
    }
    assert(cs@.subrange(0, cs@.len() as int) =~= s@);
    Some(v)
}



/// Takes the oldest node out of a queue that holds one.
fn take_first(q: &mut queues::Queue<Node>) -> (n: Node)
    requires
        queue_items(*old(q)).len() > 0,
    ensures
        n == queue_items(*old(q))[0],
        queue_items(*final(q)) == queue_items(*old(q)).drop_first(),
{
    match queue_remove(q) {
        Some(n) => n,
        None => unreached(),
    }
}

/// Reads an expression.
pub fn expression(reader: &mut Reader, file: &str) -> (r: Result<Node, ParseError>)
    requires
        old(reader).pos_spec() < old(reader).toks().len(),
    ensures
        moved(*old(reader), *final(reader), r is Ok),
        r is Ok ==> advanced(*old(reader), *final(reader)),
        lone_literal(old(reader).toks(), old(reader).pos_spec() as int)
            ==> gives(r, final(reader).pos_spec(), literal_spec(old(reader).toks(), old(reader).pos_spec() as int)),
        chain_expression(old(reader).toks(), old(reader).pos_spec() as int)
            ==> gives(r, final(reader).pos_spec(), sum_result(old(reader).toks(), old(reader).pos_spec() as int)),
    decreases seq_size(old(reader).toks(), 0), old(reader).toks().len() - old(reader).pos_spec(), 20int,
{
    proof {
        lemma_lone_literal(reader.toks(), reader.pos_spec() as int);
        lemma_sum_chain(reader.toks(), reader.pos_spec() as int);
    }
    disjunction(reader, file)
}

fn disjunction(reader: &mut Reader, file: &str) -> (r: Result<Node, ParseError>)
    requires
        old(reader).pos_spec() < old(reader).toks().len(),
    ensures
        moved(*old(reader), *final(reader), r is Ok),
        r is Ok ==> advanced(*old(reader), *final(reader)),
        lone_literal(old(reader).toks(), old(reader).pos_spec() as int)
            ==> gives(r, final(reader).pos_spec(), literal_spec(old(reader).toks(), old(reader).pos_spec() as int)),
        chain_expression(old(reader).toks(), old(reader).pos_spec() as int)
            ==> gives(r, final(reader).pos_spec(), sum_result(old(reader).toks(), old(reader).pos_spec() as int)),
    decreases seq_size(old(reader).toks(), 0), old(reader).toks().len() - old(reader).pos_spec(), 19int,
{
    proof {
        lemma_lone_literal(reader.toks(), reader.pos_spec() as int);
        lemma_sum_chain(reader.toks(), reader.pos_spec() as int);
    }
    let left = match conjunction(reader, file) {
        Ok(n) => n,
        Err(e) => { return Err(e); },
    };
    if !reader.more() {
        return Ok(left);
    }
    if reader.kind() != TokKind::LogOr {
        return Ok(left);
    }
    let l = reader.linenum();
    let c = reader.symnum();
    reader.next();
    match disjunction(reader, file) {
        Ok(right) => Ok(binop(NodeType::LogOr(l, c), left, right)),
        Err(e) => Err(e),
    }
}

fn conjunction(reader: &mut Reader, file: &str) -> (r: Result<Node, ParseError>)
    requires
        old(reader).pos_spec() < old(reader).toks().len(),
    ensures
        moved(*old(reader), *final(reader), r is Ok),
        r is Ok ==> advanced(*old(reader), *final(reader)),
        lone_literal(old(reader).toks(), old(reader).pos_spec() as int)
            ==> gives(r, final(reader).pos_spec(), literal_spec(old(reader).toks(), old(reader).pos_spec() as int)),
        chain_expression(old(reader).toks(), old(reader).pos_spec() as int)
            ==> gives(r, final(reader).pos_spec(), sum_result(old(reader).toks(), old(reader).pos_spec() as int)),
    decreases seq_size(old(reader).toks(), 0), old(reader).toks().len() - old(reader).pos_spec(), 18int,
{
    proof {
        lemma_lone_literal(reader.toks(), reader.pos_spec() as int);
        lemma_sum_chain(reader.toks(), reader.pos_spec() as int);
    }
    let left = match equality(reader, file) {
        Ok(n) => n,
        Err(e) => { return Err(e); },
    };
    if !reader.more() {
        return Ok(left);
    }
    if reader.kind() != TokKind::LogAnd {
        return Ok(left);
    }
    let l = reader.linenum();
    let c = reader.symnum();
    reader.next();
    match conjunction(reader, file) {
        Ok(right) => Ok(binop(NodeType::LogAnd(l, c), left, right)),
        Err(e) => Err(e),
    }
}

fn equality(reader: &mut Reader, file: &str) -> (r: Result<Node, ParseError>)
    requires
        old(reader).pos_spec() < old(reader).toks().len(),
    ensures
        moved(*old(reader), *final(reader), r is Ok),
        r is Ok ==> advanced(*old(reader), *final(reader)),
        lone_literal(old(reader).toks(), old(reader).pos_spec() as int)
            ==> gives(r, final(reader).pos_spec(), literal_spec(old(reader).toks(), old(reader).pos_spec() as int)),
        chain_expression(old(reader).toks(), old(reader).pos_spec() as int)
            ==> gives(r, final(reader).pos_spec(), sum_result(old(reader).toks(), old(reader).pos_spec() as int)),
    decreases seq_size(old(reader).toks(), 0), old(reader).toks().len() - old(reader).pos_spec(), 17int,
{
    proof {
        lemma_lone_literal(reader.toks(), reader.pos_spec() as int);
        lemma_sum_chain(reader.toks(), reader.pos_spec() as int);
    }
    let left = match comparison(reader, file) {
        Ok(n) => n,
        Err(e) => { return Err(e); },
    };
    if !reader.more() {
        return Ok(left);
    }
    if reader.kind() != TokKind::Equal {
        return Ok(left);
    }
    let l = reader.linenum();
    let c = reader.symnum();
    reader.next();
    match comparison(reader, file) {
        Ok(right) => Ok(binop(NodeType::Equal(l, c), left, right)),
        Err(e) => Err(e),
    }
}

fn comparison(reader: &mut Reader, file: &str) -> (r: Result<Node, ParseError>)
    requires
        old(reader).pos_spec() < old(reader).toks().len(),
    ensures
        moved(*old(reader), *final(reader), r is Ok),
        r is Ok ==> advanced(*old(reader), *final(reader)),
        lone_literal(old(reader).toks(), old(reader).pos_spec() as int)
            ==> gives(r, final(reader).pos_spec(), literal_spec(old(reader).toks(), old(reader).pos_spec() as int)),
        chain_expression(old(reader).toks(), old(reader).pos_spec() as int)
            ==> gives(r, final(reader).pos_spec(), sum_result(old(reader).toks(), old(reader).pos_spec() as int)),
    decreases seq_size(old(reader).toks(), 0), old(reader).toks().len() - old(reader).pos_spec(), 16int,
{
    proof {
        lemma_lone_literal(reader.toks(), reader.pos_spec() as int);
        lemma_sum_chain(reader.toks(), reader.pos_spec() as int);
    }
    let left = match bit_or(reader, file) {
        Ok(n) => n,
        Err(e) => { return Err(e); },
    };
    if !reader.more() {
        return Ok(left);
    }
    let k = reader.kind();
    let l = reader.linenum();
    let c = reader.symnum();
    let op = if k == TokKind::LessThan {
        NodeType::LessThan(l, c)
    } else if k == TokKind::GreaterThan {
        NodeType::GreaterThan(l, c)
    } else if k == TokKind::LessOrEq {
        NodeType::LessOrEq(l, c)
    } else if k == TokKind::GreaterOrEq {
        NodeType::GreaterOrEq(l, c)
    } else {
        return Ok(left);
    };
    reader.next();
    match bit_or(reader, file) {
        Ok(right) => Ok(binop(op, left, right)),
        Err(e) => Err(e),
    }
}

fn bit_or(reader: &mut Reader, file: &str) -> (r: Result<Node, ParseError>)
    requires
        old(reader).pos_spec() < old(reader).toks().len(),
    ensures
        moved(*old(reader), *final(reader), r is Ok),
        r is Ok ==> advanced(*old(reader), *final(reader)),
        lone_literal(old(reader).toks(), old(reader).pos_spec() as int)
            ==> gives(r, final(reader).pos_spec(), literal_spec(old(reader).toks(), old(reader).pos_spec() as int)),
        chain_expression(old(reader).toks(), old(reader).pos_spec() as int)
            ==> gives(r, final(reader).pos_spec(), sum_result(old(reader).toks(), old(reader).pos_spec() as int)),
    decreases seq_size(old(reader).toks(), 0), old(reader).toks().len() - old(reader).pos_spec(), 15int,
{
    proof {
        lemma_lone_literal(reader.toks(), reader.pos_spec() as int);
        lemma_sum_chain(reader.toks(), reader.pos_spec() as int);
    }
    let left = match bit_xor(reader, file) {
        Ok(n) => n,
        Err(e) => { return Err(e); },
    };
    if !reader.more() {
        return Ok(left);
    }
    if reader.kind() != TokKind::BitOr {
        return Ok(left);
    }
    let l = reader.linenum();
    let c = reader.symnum();
    reader.next();
    match bit_or(reader, file) {
        Ok(right) => Ok(binop(NodeType::BitOr(l, c), left, right)),
        Err(e) => Err(e),
    }
}

fn bit_xor(reader: &mut Reader, file: &str) -> (r: Result<Node, ParseError>)
    requires
        old(reader).pos_spec() < old(reader).toks().len(),
    ensures
        moved(*old(reader), *final(reader), r is Ok),
        r is Ok ==> advanced(*old(reader), *final(reader)),
        lone_literal(old(reader).toks(), old(reader).pos_spec() as int)
            ==> gives(r, final(reader).pos_spec(), literal_spec(old(reader).toks(), old(reader).pos_spec() as int)),
        chain_expression(old(reader).toks(), old(reader).pos_spec() as int)
            ==> gives(r, final(reader).pos_spec(), sum_result(old(reader).toks(), old(reader).pos_spec() as int)),
    decreases seq_size(old(reader).toks(), 0), old(reader).toks().len() - old(reader).pos_spec(), 14int,
{
    proof {
        lemma_lone_literal(reader.toks(), reader.pos_spec() as int);
        lemma_sum_chain(reader.toks(), reader.pos_spec() as int);
    }
    let left = match bit_and(reader, file) {
        Ok(n) => n,
        Err(e) => { return Err(e); },
    };
    if !reader.more() {
        return Ok(left);
    }
    if reader.kind() != TokKind::BitXor {
        return Ok(left);
    }
    let l = reader.linenum();
    let c = reader.symnum();
    reader.next();
    match bit_xor(reader, file) {
        Ok(right) => Ok(binop(NodeType::BitXor(l, c), left, right)),
        Err(e) => Err(e),
    }
}

fn bit_and(reader: &mut Reader, file: &str) -> (r: Result<Node, ParseError>)
    requires
        old(reader).pos_spec() < old(reader).toks().len(),
    ensures
        moved(*old(reader), *final(reader), r is Ok),
        r is Ok ==> advanced(*old(reader), *final(reader)),
        lone_literal(old(reader).toks(), old(reader).pos_spec() as int)
            ==> gives(r, final(reader).pos_spec(), literal_spec(old(reader).toks(), old(reader).pos_spec() as int)),
        chain_expression(old(reader).toks(), old(reader).pos_spec() as int)
            ==> gives(r, final(reader).pos_spec(), sum_result(old(reader).toks(), old(reader).pos_spec() as int)),
    decreases seq_size(old(reader).toks(), 0), old(reader).toks().len() - old(reader).pos_spec(), 13int,
{
    proof {
        lemma_lone_literal(reader.toks(), reader.pos_spec() as int);
        lemma_sum_chain(reader.toks(), reader.pos_spec() as int);
    }
    let left = match sum(reader, file) {
        Ok(n) => n,
        Err(e) => { return Err(e); },
    };
    if !reader.more() {
        return Ok(left);
    }
    if reader.kind() != TokKind::BitAnd {
        return Ok(left);
    }
    let l = reader.linenum();
    let c = reader.symnum();
    reader.next();
    match bit_and(reader, file) {
        Ok(right) => Ok(binop(NodeType::BitAnd(l, c), left, right)),
        Err(e) => Err(e),
    }
}

fn sum(reader: &mut Reader, file: &str) -> (r: Result<Node, ParseError>)
    requires
        old(reader).pos_spec() < old(reader).toks().len(),
    ensures
        moved(*old(reader), *final(reader), r is Ok),
        r is Ok ==> advanced(*old(reader), *final(reader)),
        lone_literal(old(reader).toks(), old(reader).pos_spec() as int)
            ==> gives(r, final(reader).pos_spec(), literal_spec(old(reader).toks(), old(reader).pos_spec() as int)),
        sum_chain(old(reader).toks(), old(reader).pos_spec() as int) is Some
            ==> gives(r, final(reader).pos_spec(), sum_result(old(reader).toks(), old(reader).pos_spec() as int)),
    decreases seq_size(old(reader).toks(), 0), old(reader).toks().len() - old(reader).pos_spec(), 12int,
{
    proof {
        lemma_lone_literal(reader.toks(), reader.pos_spec() as int);
        lemma_sum_chain(reader.toks(), reader.pos_spec() as int);
    }
    let mut righties = new_queue();
    let mut ops = new_queue();
    let r = sum_help(reader, &mut righties, &mut ops, file);
    proof {
        if sum_chain(old(reader).toks(), old(reader).pos_spec() as int) is Some {
            let (fs, os, e) = sum_chain(old(reader).toks(), old(reader).pos_spec() as int)->0;
            assert(nodes_view(Seq::<Node>::empty()) + fs =~= fs);
            assert(node_types(Seq::<Node>::empty()) + os =~= os);
            assert(fs.take(os.len() + 1int) =~= fs);
            assert(os.take(os.len() as int) =~= os);
        }
    }
    r
}

/// Reads the rest of a sum. `righties` holds the operands and `ops` the
/// operators read so far, as many of each. The answer groups the operands
/// to the left: each level takes the oldest operator and operand left in
/// the queues, so that the queues keep as many items as they had.
#[verifier::rlimit(50)]
fn sum_help(reader: &mut Reader, righties: &mut queues::Queue<Node>, ops: &mut queues::Queue<Node>, file: &str) -> (r: Result<Node, ParseError>)
    requires
        old(reader).pos_spec() < old(reader).toks().len(),
        queue_items(*old(righties)).len() == queue_items(*old(ops)).len(),
    ensures
        moved(*old(reader), *final(reader), r is Ok),
        r is Ok ==> advanced(*old(reader), *final(reader)),
        r is Ok ==> queue_items(*final(righties)).len() == queue_items(*old(righties)).len(),
        r is Ok ==> queue_items(*final(ops)).len() == queue_items(*old(ops)).len(),
        queue_items(*old(righties)).len() == 0 && lone_literal(old(reader).toks(), old(reader).pos_spec() as int)
            ==> gives(r, final(reader).pos_spec(), literal_spec(old(reader).toks(), old(reader).pos_spec() as int)),
        sum_chain(old(reader).toks(), old(reader).pos_spec() as int) matches Some((fs, os, e)) ==> ({
            let rs = nodes_view(queue_items(*old(righties))) + fs;
            let ks = node_types(queue_items(*old(ops))) + os;
            &&& r matches Ok(x) && x.view() == left_fold(rs.take(os.len() + 1int), ks.take(os.len() as int))
            &&& final(reader).pos_spec() == e
            &&& nodes_view(queue_items(*final(righties))) == rs.skip(os.len() + 1int)
            &&& node_types(queue_items(*final(ops))) == ks.skip(os.len() as int)
        }),
    decreases seq_size(old(reader).toks(), 0), old(reader).toks().len() - old(reader).pos_spec(), 11int,
{
    proof {
        lemma_lone_literal(reader.toks(), reader.pos_spec() as int);
        lemma_factor_literal(reader.toks(), reader.pos_spec() as int);
        lemma_factor_literal(reader.toks(), reader.pos_spec() as int + 2);
    }
    let ghost ts = reader.toks();
    let ghost p = reader.pos_spec() as int;
    let ghost r0 = queue_items(*righties);
    let ghost k0 = queue_items(*ops);
    proof {
        lemma_sum_chain(ts, p);
        lemma_product_chain(ts, p);
        if product_chain(ts, p) is Some {
            lemma_sum_chain(ts, (product_chain(ts, p)->0).2 + 1);
        }
    }
    let n = match product(reader, file) {
        Ok(n) => n,
        Err(e) => { return Err(e); },
    };
    queue_add(righties, n);
    proof { lemma_nodes_push(r0, n); }
    if !reader.more() {
        let first = take_first(righties);
        proof {
            lemma_queue_views_drop(r0.push(n));
            if sum_chain(ts, p) is Some {
                let (fs, os, e) = sum_chain(ts, p)->0;
                assert(nodes_view(r0) + fs =~= nodes_view(r0.push(n)));
                assert(node_types(k0) + os =~= node_types(k0));
            }
        }
        return Ok(first);
    }
    let k = reader.kind();
    let l = reader.linenum();
    let c = reader.symnum();
    let op = if k == TokKind::Add {
        NodeType::Add(l, c)
    } else if k == TokKind::Sub {
        NodeType::Sub(l, c)
    } else {
        let first = take_first(righties);
        proof {
            lemma_queue_views_drop(r0.push(n));
            if sum_chain(ts, p) is Some {
                let (fs, os, e) = sum_chain(ts, p)->0;
                assert(nodes_view(r0) + fs =~= nodes_view(r0.push(n)));
                assert(node_types(k0) + os =~= node_types(k0));
            }
        }
        return Ok(first);
    };
    let opnode = Node::new(op);
    queue_add(ops, opnode);
    proof { lemma_node_types_push(k0, opnode); }
    reader.next();
    let ghost r1 = queue_items(*righties);
    let ghost k1 = queue_items(*ops);
    let deeper = match sum_help(reader, righties, ops, file) {
        Ok(d) => d,
        Err(e) => { return Err(e); },
    };
    let ghost r2 = queue_items(*righties);
    let ghost k2 = queue_items(*ops);
    let node = take_first(ops);
    let right = take_first(righties);
    proof {
        lemma_queue_views_drop(r2);
        lemma_queue_views_drop(k2);
        if sum_chain(ts, p) is Some {
            let (fs, os, e) = sum_chain(ts, p)->0;
            let (pf, po, q) = product_chain(ts, p)->0;
            let (fs2, os2, e2) = sum_chain(ts, q + 1)->0;
            let rs = nodes_view(r0) + fs;
            let ks = node_types(k0) + os;
            let m = os.len() as int;
            assert(reader.pos_spec() == e2) by {
                assert(fs == seq![left_fold(pf, po)] + fs2);
            }
            assert(os == seq![op_ty(ts[q])] + os2);
            assert(opnode.view().ty == op_ty(ts[q]));
            assert(n.view() == left_fold(pf, po));
            assert(nodes_view(r1) + fs2 =~= rs);
            assert(node_types(k1) + os2 =~= ks);
            assert(rs.take(m + 1).drop_last() =~= rs.take(m));
            assert(ks.take(m).drop_last() =~= ks.take(m - 1));
            assert(node_types(k2)[0] == ks[m - 1]);
            assert(nodes_view(r2)[0] == rs[m]);
            assert(rs.skip(m).drop_first() =~= rs.skip(m + 1));
            assert(ks.skip(m - 1).drop_first() =~= ks.skip(m));
            assert(deeper.view() == left_fold(rs.take(m), ks.take(m - 1)));
            assert(node.nodetype.view() == ks[m - 1]) by { crate::node::lemma_node_parts(node); }
            assert(right.view() == rs[m]);
            assert(left_fold(rs.take(m + 1), ks.take(m)) == (NodeV { ty: ks[m - 1], children: seq![left_fold(rs.take(m), ks.take(m - 1)), rs[m]] }));
        }
    }
    Ok(binop(node.nodetype, deeper, right))
}

/// What an expression that is a chain of sum operands from `p` reads to,
/// where the chain is followed by a token that ends the expression.
pub open spec fn chain_expression(ts: Seq<TokenV>, p: int) -> bool {
    sum_chain(ts, p) matches Some((fs, os, e)) && ends_expression(ts[e].kind)
}

/// The node of the sum chain from `p`, grouped to the left, and where it ends.
pub open spec fn sum_result(ts: Seq<TokenV>, p: int) -> Result<(NodeV, int), PErr> {
    Ok((left_fold((sum_chain(ts, p)->0).0, (sum_chain(ts, p)->0).1), (sum_chain(ts, p)->0).2))
}

/// The views and node types of a queue's items lose their first entry
/// with the first item.
proof fn lemma_queue_views_drop(s: Seq<Node>)
    requires
        s.len() > 0,
    ensures
        nodes_view(s.drop_first()) == nodes_view(s).drop_first(),
        node_types(s.drop_first()) == node_types(s).drop_first(),
        nodes_view(s)[0] == s[0].view(),
        node_types(s)[0] == s[0].view().ty,
{
    assert(nodes_view(s.drop_first()) =~= nodes_view(s).drop_first());
    assert(node_types(s.drop_first()) =~= node_types(s).drop_first());
}

proof fn lemma_node_types_push(s: Seq<Node>, n: Node)
    ensures
        node_types(s.push(n)) == node_types(s).push(n.view().ty),
{
    assert(node_types(s.push(n)) =~= node_types(s).push(n.view().ty));
}

fn product(reader: &mut Reader, file: &str) -> (r: Result<Node, ParseError>)
    requires
        old(reader).pos_spec() < old(reader).toks().len(),
    ensures
        moved(*old(reader), *final(reader), r is Ok),
        r is Ok ==> advanced(*old(reader), *final(reader)),
        lone_literal(old(reader).toks(), old(reader).pos_spec() as int)
            ==> gives(r, final(reader).pos_spec(), literal_spec(old(reader).toks(), old(reader).pos_spec() as int)),
        factor_literal(old(reader).toks(), old(reader).pos_spec() as int)
            ==> gives(r, final(reader).pos_spec(), literal_spec(old(reader).toks(), old(reader).pos_spec() as int)),
        product_chain(old(reader).toks(), old(reader).pos_spec() as int) matches Some((fs, os, e))
            ==> gives(r, final(reader).pos_spec(), Ok((left_fold(fs, os), e))),
    decreases seq_size(old(reader).toks(), 0), old(reader).toks().len() - old(reader).pos_spec(), 10int,
{
    proof {
        lemma_lone_literal(reader.toks(), reader.pos_spec() as int);
        lemma_factor_literal(reader.toks(), reader.pos_spec() as int);
        lemma_factor_literal(reader.toks(), reader.pos_spec() as int + 2);
    }
    proof { lemma_product_chain(reader.toks(), reader.pos_spec() as int); }
    let mut righties = new_queue();
    let mut ops = new_queue();
    let r = product_help(reader, &mut righties, &mut ops, file);
    proof {
        if product_chain(old(reader).toks(), old(reader).pos_spec() as int) is Some {
            let (fs, os, e) = product_chain(old(reader).toks(), old(reader).pos_spec() as int)->0;
            assert(nodes_view(Seq::<Node>::empty()) + fs =~= fs);
            assert(node_types(Seq::<Node>::empty()) + os =~= os);
            assert(fs.take(os.len() + 1int) =~= fs);
            assert(os.take(os.len() as int) =~= os);
        }
    }
    r
}

/// Reads the rest of a product, as `sum_help` reads the rest of a sum.
#[verifier::rlimit(50)]
fn product_help(reader: &mut Reader, righties: &mut queues::Queue<Node>, ops: &mut queues::Queue<Node>, file: &str) -> (r: Result<Node, ParseError>)
    requires
        old(reader).pos_spec() < old(reader).toks().len(),
        queue_items(*old(righties)).len() == queue_items(*old(ops)).len(),
    ensures
        moved(*old(reader), *final(reader), r is Ok),
        r is Ok ==> advanced(*old(reader), *final(reader)),
        r is Ok ==> queue_items(*final(righties)).len() == queue_items(*old(righties)).len(),
        r is Ok ==> queue_items(*final(ops)).len() == queue_items(*old(ops)).len(),
        queue_items(*old(righties)).len() == 0 && lone_literal(old(reader).toks(), old(reader).pos_spec() as int)
            ==> gives(r, final(reader).pos_spec(), literal_spec(old(reader).toks(), old(reader).pos_spec() as int)),
        queue_items(*old(righties)).len() == 0 && factor_literal(old(reader).toks(), old(reader).pos_spec() as int)
            ==> gives(r, final(reader).pos_spec(), literal_spec(old(reader).toks(), old(reader).pos_spec() as int)),
        product_chain(old(reader).toks(), old(reader).pos_spec() as int) matches Some((fs, os, e)) ==> ({
            let rs = nodes_view(queue_items(*old(righties))) + fs;
            let ks = node_types(queue_items(*old(ops))) + os;
            &&& r matches Ok(x) && x.view() == left_fold(rs.take(os.len() + 1int), ks.take(os.len() as int))
            &&& final(reader).pos_spec() == e
            &&& nodes_view(queue_items(*final(righties))) == rs.skip(os.len() + 1int)
            &&& node_types(queue_items(*final(ops))) == ks.skip(os.len() as int)
        }),
    decreases seq_size(old(reader).toks(), 0), old(reader).toks().len() - old(reader).pos_spec(), 9int,
{
    proof {
        lemma_lone_literal(reader.toks(), reader.pos_spec() as int);
        lemma_factor_literal(reader.toks(), reader.pos_spec() as int);
        lemma_factor_literal(reader.toks(), reader.pos_spec() as int + 2);
    }
    let ghost ts = reader.toks();
    let ghost p = reader.pos_spec() as int;
    let ghost r0 = queue_items(*righties);
    let ghost k0 = queue_items(*ops);
    proof {
        lemma_product_chain(ts, p);
        lemma_product_chain(ts, operand_end(ts, p) + 1);
    }
    let n = match postop(reader, file) {
        Ok(n) => n,
        Err(e) => { return Err(e); },
    };
    queue_add(righties, n);
    proof { lemma_nodes_push(r0, n); }
    if !reader.more() {
        let first = take_first(righties);
        proof {
            lemma_queue_views_drop(r0.push(n));
            if product_chain(ts, p) is Some {
                let (fs, os, e) = product_chain(ts, p)->0;
                assert(nodes_view(r0) + fs =~= nodes_view(r0.push(n)));
                assert(node_types(k0) + os =~= node_types(k0));
            }
        }
        return Ok(first);
    }
    let k = reader.kind();
    let l = reader.linenum();
    let c = reader.symnum();
    let op = if k == TokKind::Mul {
        NodeType::Mul(l, c)
    } else if k == TokKind::Div {
        NodeType::Div(l, c)
    } else {
        let first = take_first(righties);
        proof {
            lemma_queue_views_drop(r0.push(n));
            if product_chain(ts, p) is Some {
                let (fs, os, e) = product_chain(ts, p)->0;
                assert(nodes_view(r0) + fs =~= nodes_view(r0.push(n)));
                assert(node_types(k0) + os =~= node_types(k0));
            }
        }
        return Ok(first);
    };
    let opnode = Node::new(op);
    queue_add(ops, opnode);
    proof { lemma_node_types_push(k0, opnode); }
    reader.next();
    let ghost r1 = queue_items(*righties);
    let ghost k1 = queue_items(*ops);
    let deeper = match product_help(reader, righties, ops, file) {
        Ok(d) => d,
        Err(e) => { return Err(e); },
    };
    let ghost r2 = queue_items(*righties);
    let ghost k2 = queue_items(*ops);
    let node = take_first(ops);
    let right = take_first(righties);
    proof {
        lemma_queue_views_drop(r2);
        lemma_queue_views_drop(k2);
        if product_chain(ts, p) is Some {
            let (fs, os, e) = product_chain(ts, p)->0;
            let q = operand_end(ts, p);
            let (fs2, os2, e2) = product_chain(ts, q + 1)->0;
            let rs = nodes_view(r0) + fs;
            let ks = node_types(k0) + os;
            let m = os.len() as int;
            assert(reader.pos_spec() == e2) by {
                assert(fs == seq![operand_node(ts, p)] + fs2);
            }
            assert(os == seq![op_ty(ts[q])] + os2);
            assert(opnode.view().ty == op_ty(ts[q]));
            assert(n.view() == operand_node(ts, p));
            assert(nodes_view(r1) + fs2 =~= rs);
            assert(node_types(k1) + os2 =~= ks);
            assert(rs.take(m + 1).drop_last() =~= rs.take(m));
            assert(ks.take(m).drop_last() =~= ks.take(m - 1));
            assert(node_types(k2)[0] == ks[m - 1]);
            assert(nodes_view(r2)[0] == rs[m]);
            assert(rs.skip(m).drop_first() =~= rs.skip(m + 1));
            assert(ks.skip(m - 1).drop_first() =~= ks.skip(m));
            assert(deeper.view() == left_fold(rs.take(m), ks.take(m - 1)));
            assert(node.nodetype.view() == ks[m - 1]) by { crate::node::lemma_node_parts(node); }
            assert(right.view() == rs[m]);
            assert(left_fold(rs.take(m + 1), ks.take(m)) == (NodeV { ty: ks[m - 1], children: seq![left_fold(rs.take(m), ks.take(m - 1)), rs[m]] }));
        }
    }
    Ok(binop(node.nodetype, deeper, right))
}

/// Finishes a `++` or `--` after `node`, whose token is the current one:
/// moves past it and wraps `node` when it is a plain name.
fn postfix(reader: &mut Reader, node: Node) -> (r: Result<Node, ParseError>)
    requires
        old(reader).pos_spec() < old(reader).toks().len(),
    ensures
        moved(*old(reader), *final(reader), r is Ok),
        r is Ok ==> advanced(*old(reader), *final(reader)),
        gives(r, final(reader).pos_spec(), postfix_spec(old(reader).toks(), old(reader).pos_spec() as int, node.view())),
{
    proof {
        lemma_node_view(node.nodetype, node.children);
    }
    let inc = reader.kind() == TokKind::Increment;
    let l = reader.linenum();
    let c = reader.symnum();
    match reader.advance() {
        Ok(()) => {},
        Err(e) => { return Err(e); },
    }
    match node.nodetype {
        NodeType::Name(s, nl, nc) => {
            let ty = if inc { NodeType::PostIncrement(l, c) } else { NodeType::PostDecrement(l, c) };
            Ok(unop(ty, Node::new(NodeType::Name(s, nl, nc))))
        },
        x => {
            let msg = if inc { String::from_str("Invalid node for increment: ") } else { String::from_str("Invalid node for decrement: ") };
            let line = reader.linenum();
            let col = reader.symnum();
            Err(ParseError { kind: FailKind::Reported, msg, culprit: Some(Node::new(x)), line, col })
        },
    }
}

fn postop(reader: &mut Reader, file: &str) -> (r: Result<Node, ParseError>)
    requires
        old(reader).pos_spec() < old(reader).toks().len(),
    ensures
        moved(*old(reader), *final(reader), r is Ok),
        r is Ok ==> advanced(*old(reader), *final(reader)),
        lone_literal(old(reader).toks(), old(reader).pos_spec() as int)
            ==> gives(r, final(reader).pos_spec(), literal_spec(old(reader).toks(), old(reader).pos_spec() as int)),
        factor_literal(old(reader).toks(), old(reader).pos_spec() as int)
            ==> gives(r, final(reader).pos_spec(), literal_spec(old(reader).toks(), old(reader).pos_spec() as int)),
        simple_operand(old(reader).toks(), old(reader).pos_spec() as int)
            ==> gives(r, final(reader).pos_spec(), Ok((operand_node(old(reader).toks(), old(reader).pos_spec() as int),
                operand_end(old(reader).toks(), old(reader).pos_spec() as int)))),
    decreases seq_size(old(reader).toks(), 0), old(reader).toks().len() - old(reader).pos_spec(), 8int,
{
    proof {
        lemma_lone_literal(reader.toks(), reader.pos_spec() as int);
        lemma_factor_literal(reader.toks(), reader.pos_spec() as int);
        lemma_factor_literal(reader.toks(), reader.pos_spec() as int + 2);
    }
    let node = match access_chain(reader, file) {
        Ok(n) => n,
        Err(e) => { return Err(e); },
    };
    let k = reader.kind();
    if k == TokKind::Decrement || k == TokKind::Increment {
        postfix(reader, node)
    } else {
        Ok(node)
    }
}

fn access_chain(reader: &mut Reader, file: &str) -> (r: Result<Node, ParseError>)
    requires
        old(reader).pos_spec() < old(reader).toks().len(),
    ensures
        moved(*old(reader), *final(reader), r is Ok),
        r is Ok ==> advanced(*old(reader), *final(reader)),
        lone_literal(old(reader).toks(), old(reader).pos_spec() as int)
            ==> gives(r, final(reader).pos_spec(), literal_spec(old(reader).toks(), old(reader).pos_spec() as int)),
        factor_literal(old(reader).toks(), old(reader).pos_spec() as int)
            ==> gives(r, final(reader).pos_spec(), literal_spec(old(reader).toks(), old(reader).pos_spec() as int)),
        simple_operand(old(reader).toks(), old(reader).pos_spec() as int)
            ==> gives(r, final(reader).pos_spec(), Ok((operand_node(old(reader).toks(), old(reader).pos_spec() as int),
                operand_end(old(reader).toks(), old(reader).pos_spec() as int)))),
        old(reader).current().kind == TokKind::Name && more_at(old(reader).toks(), old(reader).pos_spec() as int)
            && old(reader).toks()[old(reader).pos_spec() + 1int].kind == TokKind::Access
            ==> (member_chain(old(reader).toks(), old(reader).pos_spec() + 1int, named(old(reader).current(), seq![])) matches Some(o)
            ==> gives(r, final(reader).pos_spec(), Ok(o))),
    decreases seq_size(old(reader).toks(), 0), old(reader).toks().len() - old(reader).pos_spec(), 7int,
{
    proof {
        lemma_lone_literal(reader.toks(), reader.pos_spec() as int);
        lemma_factor_literal(reader.toks(), reader.pos_spec() as int);
        lemma_factor_literal(reader.toks(), reader.pos_spec() as int + 2);
    }
    let n = match term(reader, file) {
        Ok(n) => n,
        Err(e) => { return Err(e); },
    };
    let k = reader.kind();
    if k == TokKind::Access || k == TokKind::Brack1 {
        access_help(reader, n, file)
    } else {
        Ok(n)
    }
}

/// What indexing `[ literal ]` at `p` after an owner of value `ov` gives,
/// when nothing more follows it: the collection access and where it ends,
/// or the error of the closing `]`.
pub open spec fn index_outcome(ts: Seq<TokenV>, p: int, ov: NodeV) -> Option<Result<(NodeV, int), PErr>> {
    match literal_spec(ts, p + 1) {
        Ok((n, q)) => match skip_spec(ts, q, "]"@) {
            Ok(q2) => if ts[q2].kind != TokKind::Brack1 && ts[q2].kind != TokKind::Access {
                Some(Ok((NodeV { ty: tyv(NodeKind::CollAccess, seq![], ts[p]), children: seq![ov, n] }, q2)))
            } else {
                None
            },
            Err(e) => Some(Err(e)),
        },
        Err(_) => None,
    }
}

/// A chain `.a.b ...` of plain member accesses from `p` on an owner whose
/// node is `ov`: the node that the whole chain reads to, and where it ends.
/// `None` where the tokens at `p` are no such chain.
pub open spec fn member_chain(ts: Seq<TokenV>, p: int, ov: NodeV) -> Option<(NodeV, int)>
    decreases ts.len() - p,
{
    if 0 <= p && ts[p].kind == TokKind::Access && more_at(ts, p) && ts[p + 1].kind == TokKind::Name && more_at(ts, p + 1)
        && ts[p + 2].kind != TokKind::Paren1 && ts[p + 2].kind != TokKind::Brack1 {
        let nv = named(ts[p + 1], seq![ov]);
        if ts[p + 2].kind == TokKind::Access {
            member_chain(ts, p + 2, nv)
        } else {
            Some((nv, p + 2))
        }
    } else {
        None
    }
}

/// At `p` stands a call `name ( literal )` of one lone literal argument,
/// with a token after it: the call node it reads to.
pub open spec fn lone_call(ts: Seq<TokenV>, p: int) -> Option<NodeV> {
    if 0 <= p && ts[p].kind == TokKind::Name && more_at(ts, p + 3) && ts[p + 1].kind == TokKind::Paren1
        && lone_literal(ts, p + 2) && ts[p + 3].kind == TokKind::Paren2 {
        Some(NodeV { ty: tyv(NodeKind::FunCall, seq![ts[p].text], ts[p]),
            children: seq![nodev(NodeKind::ArgList, ts[p + 1], seq![(literal_spec(ts, p + 2)->Ok_0).0])] })
    } else {
        None
    }
}

/// Reads the member accesses, method calls and indexing that follow
/// `owner`, from the current token.
pub fn access_help(reader: &mut Reader, owner: Node, file: &str) -> (r: Result<Node, ParseError>)
    requires
        old(reader).pos_spec() < old(reader).toks().len(),
    ensures
        moved(*old(reader), *final(reader), r is Ok),
        old(reader).current().kind != TokKind::Access && old(reader).current().kind != TokKind::Brack1
            ==> r == Ok::<Node, ParseError>(owner) && final(reader).pos_spec() == old(reader).pos_spec(),
        old(reader).current().kind == TokKind::Access ==> (more_at(old(reader).toks(), old(reader).pos_spec() as int) && old(reader).toks()[old(reader).pos_spec() as int + 1].kind != TokKind::Name ==> r is Err),
        old(reader).current().kind == TokKind::Access ==> (more_at(old(reader).toks(), old(reader).pos_spec() as int) && old(reader).toks()[old(reader).pos_spec() as int + 1].kind == TokKind::Name && !more_at(old(reader).toks(), old(reader).pos_spec() as int + 1)
            ==> gives(r, final(reader).pos_spec(), Ok((named(old(reader).toks()[old(reader).pos_spec() as int + 1], seq![owner.view()]), old(reader).pos_spec() as int + 1)))),
        old(reader).current().kind == TokKind::Access ==> (more_at(old(reader).toks(), old(reader).pos_spec() as int) && old(reader).toks()[old(reader).pos_spec() as int + 1].kind == TokKind::Name && more_at(old(reader).toks(), old(reader).pos_spec() as int + 1)
            && old(reader).toks()[old(reader).pos_spec() as int + 2].kind != TokKind::Paren1 && old(reader).toks()[old(reader).pos_spec() as int + 2].kind != TokKind::Brack1 && old(reader).toks()[old(reader).pos_spec() as int + 2].kind != TokKind::Access
            ==> gives(r, final(reader).pos_spec(), Ok((named(old(reader).toks()[old(reader).pos_spec() as int + 1], seq![owner.view()]), old(reader).pos_spec() as int + 2)))),
        old(reader).current().kind == TokKind::Brack1 && more_at(old(reader).toks(), old(reader).pos_spec() as int) && lone_literal(old(reader).toks(), old(reader).pos_spec() as int + 1)
            ==> (index_outcome(old(reader).toks(), old(reader).pos_spec() as int, owner.view()) matches Some(o) ==> gives(r, final(reader).pos_spec(), o)),
        member_chain(old(reader).toks(), old(reader).pos_spec() as int, owner.view()) matches Some(o)
            ==> gives(r, final(reader).pos_spec(), Ok(o)),
    decreases seq_size(old(reader).toks(), 0), old(reader).toks().len() - old(reader).pos_spec(), 5int,
{
    let k = reader.kind();
    if k == TokKind::Access {
        member(reader, owner, file)
    } else if k == TokKind::Brack1 {
        index(reader, owner, file)
    } else {
        Ok(owner)
    }
}

/// Reads a member access or method call on `owner`, from the current `.`.
fn member(reader: &mut Reader, owner: Node, file: &str) -> (r: Result<Node, ParseError>)
    requires
        old(reader).pos_spec() < old(reader).toks().len(),
    ensures
        moved(*old(reader), *final(reader), r is Ok),
        r is Ok ==> advanced(*old(reader), *final(reader)),
        more_at(old(reader).toks(), old(reader).pos_spec() as int) && old(reader).toks()[old(reader).pos_spec() as int + 1].kind != TokKind::Name ==> r is Err,
        more_at(old(reader).toks(), old(reader).pos_spec() as int) && old(reader).toks()[old(reader).pos_spec() as int + 1].kind == TokKind::Name && !more_at(old(reader).toks(), old(reader).pos_spec() as int + 1)
            ==> gives(r, final(reader).pos_spec(), Ok((named(old(reader).toks()[old(reader).pos_spec() as int + 1], seq![owner.view()]), old(reader).pos_spec() as int + 1))),
        more_at(old(reader).toks(), old(reader).pos_spec() as int) && old(reader).toks()[old(reader).pos_spec() as int + 1].kind == TokKind::Name && more_at(old(reader).toks(), old(reader).pos_spec() as int + 1)
            && old(reader).toks()[old(reader).pos_spec() as int + 2].kind != TokKind::Paren1 && old(reader).toks()[old(reader).pos_spec() as int + 2].kind != TokKind::Brack1 && old(reader).toks()[old(reader).pos_spec() as int + 2].kind != TokKind::Access
            ==> gives(r, final(reader).pos_spec(), Ok((named(old(reader).toks()[old(reader).pos_spec() as int + 1], seq![owner.view()]), old(reader).pos_spec() as int + 2))),
        member_chain(old(reader).toks(), old(reader).pos_spec() as int, owner.view()) matches Some(o)
            ==> gives(r, final(reader).pos_spec(), Ok(o)),
    decreases seq_size(old(reader).toks(), 0), old(reader).toks().len() - old(reader).pos_spec(), 4int,
{
    match reader.advance() {
        Ok(()) => {},
        Err(e) => { return Err(e); },
    }
    let t = reader.tok();
    if t.kind() != TokKind::Name {
        return Err(fail_with_token(FailKind::Panicked, "Expected name after accessor, got: ", &t, &t));
    }
    let name = t.text();
    let (l, c) = t.find_token_position();
    if !reader.more() {
        return Ok(unop(NodeType::Name(name, l, c), owner));
    }
    reader.next();
    let k2 = reader.kind();
    if k2 == TokKind::Paren1 {
        let args = match arglist(reader, file) {
            Ok(a) => a,
            Err(e) => { return Err(e); },
        };
        let call = unop(NodeType::MethodCall(name, Box::new(owner), String::from_str(file), l, c), args);
        access_help(reader, call, file)
    } else if k2 == TokKind::Brack1 || k2 == TokKind::Access {
        access_help(reader, unop(NodeType::Name(name, l, c), owner), file)
    } else {
        Ok(unop(NodeType::Name(name, l, c), owner))
    }
}

/// Reads the indexing of `owner`, from the current `[`.
fn index(reader: &mut Reader, owner: Node, file: &str) -> (r: Result<Node, ParseError>)
    requires
        old(reader).pos_spec() < old(reader).toks().len(),
    ensures
        moved(*old(reader), *final(reader), r is Ok),
        r is Ok ==> advanced(*old(reader), *final(reader)),
        more_at(old(reader).toks(), old(reader).pos_spec() as int) && lone_literal(old(reader).toks(), old(reader).pos_spec() as int + 1) ==> (match literal_spec(old(reader).toks(), old(reader).pos_spec() as int + 1) {
            Ok((n, q)) => match skip_spec(old(reader).toks(), q, "]"@) {
                Ok(q2) => old(reader).toks()[q2].kind != TokKind::Brack1 && old(reader).toks()[q2].kind != TokKind::Access ==> gives(r, final(reader).pos_spec(),
                    Ok((NodeV { ty: tyv(NodeKind::CollAccess, seq![], old(reader).current()), children: seq![owner.view(), n] }, q2))),
                Err(e) => gives(r, final(reader).pos_spec(), Err(e)),
            },
            Err(_) => true,
        }),
    decreases seq_size(old(reader).toks(), 0), old(reader).toks().len() - old(reader).pos_spec(), 4int,
{
    let l = reader.linenum();
    let c = reader.symnum();
    match reader.advance() {
        Ok(()) => {},
        Err(e) => { return Err(e); },
    }
    let index = match expression(reader, file) {
        Ok(n) => n,
        Err(e) => { return Err(e); },
    };
    match reader.skip("]") {
        Ok(()) => {},
        Err(e) => { return Err(e); },
    }
    let coll = binop(NodeType::CollAccess(l, c), owner, index);
    let k2 = reader.kind();
    if k2 == TokKind::Brack1 || k2 == TokKind::Access {
        access_help(reader, coll, file)
    } else {
        Ok(coll)
    }
}

/// Reads a parenthesised, comma-separated list of arguments.
pub fn arglist(reader: &mut Reader, file: &str) -> (r: Result<Node, ParseError>)
    requires
        old(reader).pos_spec() < old(reader).toks().len(),
    ensures
        moved(*old(reader), *final(reader), r is Ok),
        r is Ok ==> advanced(*old(reader), *final(reader)),
        old(reader).current().kind != TokKind::Paren1 ==> (r matches Err(x)
            && x@ == fail_at(FailKind::Panicked, "Error: Expected start of arglist: '('. Found: "@ + token_text(old(reader).current()), old(reader).current())),
        r matches Ok(n) ==> n.view().ty == tyv(NodeKind::ArgList, seq![], old(reader).current()),
        old(reader).current().kind == TokKind::Paren1 && old(reader).toks().len() > old(reader).pos_spec() + 2
            && old(reader).toks()[old(reader).pos_spec() + 1int].kind == TokKind::Paren2
            ==> (r matches Ok(n) && n.children@.len() == 0) && final(reader).pos_spec() == old(reader).pos_spec() + 2,
        old(reader).current().kind == TokKind::Paren1 && more_at(old(reader).toks(), old(reader).pos_spec() as int)
            && lone_literal(old(reader).toks(), old(reader).pos_spec() + 1int)
            && old(reader).toks()[old(reader).pos_spec() + 2int].kind == TokKind::Paren2 && more_at(old(reader).toks(), old(reader).pos_spec() + 2int)
            ==> gives(r, final(reader).pos_spec(), Ok((nodev(NodeKind::ArgList, old(reader).current(),
                seq![(literal_spec(old(reader).toks(), old(reader).pos_spec() + 1int)->Ok_0).0]), old(reader).pos_spec() + 3int))),
    decreases seq_size(old(reader).toks(), 0), old(reader).toks().len() - old(reader).pos_spec(), 40int,
{
    let t = reader.tok();
    if t.kind() != TokKind::Paren1 {
        return Err(fail_with_token(FailKind::Panicked, "Error: Expected start of arglist: '('. Found: ", &t, &t));
    }
    let (l, c) = t.find_token_position();
    match reader.advance() {
        Ok(()) => {},
        Err(e) => { return Err(e); },
    }
    proof {
        assert(nodes_view(Seq::<Node>::empty()) =~= Seq::<NodeV>::empty());
    }
    match args_rest(reader, file, Vec::new(), false) {
        Ok(args) => {
            let node = Node { nodetype: NodeType::ArgList(l, c), children: args };
            proof { lemma_node_view(node.nodetype, node.children); }
            Ok(node)
        },
        Err(e) => Err(e),
    }
}

/// Reads the rest of an argument list after the arguments `acc`.
fn args_rest(reader: &mut Reader, file: &str, acc: Vec<Node>, expect_comma: bool) -> (r: Result<Vec<Node>, ParseError>)
    requires
        old(reader).pos_spec() < old(reader).toks().len(),
    ensures
        moved(*old(reader), *final(reader), r is Ok),
        !more_at(old(reader).toks(), old(reader).pos_spec() as int) ==> r is Err,
        more_at(old(reader).toks(), old(reader).pos_spec() as int) && old(reader).current().kind == TokKind::Paren2
            ==> (r matches Ok(v) && v@ == acc@) && final(reader).pos_spec() == old(reader).pos_spec() + 1,
        !expect_comma && lone_literal(old(reader).toks(), old(reader).pos_spec() as int)
            && old(reader).toks()[old(reader).pos_spec() + 1int].kind == TokKind::Paren2 && more_at(old(reader).toks(), old(reader).pos_spec() + 1int)
            ==> (r matches Ok(v) && nodes_view(v@) == nodes_view(acc@).push((literal_spec(old(reader).toks(), old(reader).pos_spec() as int)->Ok_0).0))
                && final(reader).pos_spec() == old(reader).pos_spec() + 2,
    decreases seq_size(old(reader).toks(), 0), old(reader).toks().len() - old(reader).pos_spec(), if expect_comma { 30int } else { 31int },
{
    proof { lemma_lone_literal(reader.toks(), reader.pos_spec() as int); }
    let t = reader.tok();
    if !reader.more() {
        return Err(fail(FailKind::Panicked, String::from_str("Error when reading arg list."), &t));
    }
    let k = t.kind();
    if k == TokKind::Paren2 {
        reader.next();
        Ok(acc)
    } else if k == TokKind::Comma {
        if !expect_comma {
            return Err(fail(FailKind::Panicked, String::from_str("Error: Unexpected separator in arg list: ','."), &t));
        }
        reader.next();
        args_rest(reader, file, acc, false)
    } else {
        if expect_comma {
            return Err(fail_with_token(FailKind::Panicked, "Error: Expected separator in arg list. Got: ", &t, &t));
        }
        match expression(reader, file) {
            Ok(a) => {
                let mut acc = acc;
                proof { lemma_nodes_push(acc@, a); }
                acc.push(a);
                args_rest(reader, file, acc, true)
            },
            Err(e) => Err(e),
        }
    }
}

/// Reads the rest of a list literal after the entries `acc`.
fn list_rest(reader: &mut Reader, file: &str, acc: Vec<Node>, expect_sep: bool) -> (r: Result<Vec<Node>, ParseError>)
    requires
        old(reader).pos_spec() < old(reader).toks().len(),
    ensures
        moved(*old(reader), *final(reader), r is Ok),
        expect_sep && old(reader).current().kind == TokKind::Brack2 ==> (match step(old(reader).toks(), old(reader).pos_spec() as int) {
            Ok(q) => (r matches Ok(v) && v@ == acc@) && final(reader).pos_spec() == q,
            Err(e) => r matches Err(x) && x@ == e,
        }),
        expect_sep && old(reader).current().kind != TokKind::Comma && old(reader).current().kind != TokKind::Brack2 ==> r is Err,
    decreases seq_size(old(reader).toks(), 0), old(reader).toks().len() - old(reader).pos_spec(), if expect_sep { 30int } else { 31int },
{
    if expect_sep {
        let t = reader.tok();
        let k = t.kind();
        if k == TokKind::Comma {
            match reader.advance() {
                Ok(()) => {},
                Err(e) => { return Err(e); },
            }
            list_rest(reader, file, acc, false)
        } else if k == TokKind::Brack2 {
            match reader.advance() {
                Ok(()) => {},
                Err(e) => { return Err(e); },
            }
            Ok(acc)
        } else {
            Err(fail_with_token(FailKind::Panicked, "Unexpected token when parsing list: ", &t, &t))
        }
    } else {
        match expression(reader, file) {
            Ok(entry) => {
                let mut acc = acc;
                proof { lemma_nodes_push(acc@, entry); }
                acc.push(entry);
                list_rest(reader, file, acc, true)
            },
            Err(e) => Err(e),
        }
    }
}

/// Reads the expressions of a string's interpolations `subs`, from the
/// `j`-th on, after those in `acc`; each from the start of its own tokens.
fn interpolations(subs: &Vec<Vec<Token>>, j: usize, file: &str, acc: Vec<Node>) -> (r: Result<Vec<Node>, ParseError>)
    ensures
        j >= subs@.len() ==> (r matches Ok(v) && v@ == acc@),
        j <= subs@.len() && r is Ok ==> r->Ok_0@.len() == acc@.len() + (subs@.len() - j)
            && r->Ok_0@.subrange(0, acc@.len() as int) == acc@,
    decreases subs_size(subs_view(subs@), j as int), 0int, 0int,
{
    if j >= subs.len() {
        return Ok(acc);
    }
    if subs[j].len() == 0 {
        return Err(fail_pos(FailKind::Panicked, String::from_str("Empty interpolation."), 0, 0));
    }
    let mut sub = Reader::new(duplicate_tokens(&subs[j]));
    proof {
        assert(sub.toks() == subs_view(subs@)[j as int]);
        lemma_subs_size(subs_view(subs@), j as int);
    }
    match expression(&mut sub, file) {
        Ok(n) => {
            let mut acc = acc;
            proof { lemma_nodes_push(acc@, n); }
            acc.push(n);
            interpolations(subs, j + 1, file, acc)
        },
        Err(e) => Err(e),
    }
}

fn term(reader: &mut Reader, file: &str) -> (r: Result<Node, ParseError>)
    requires
        old(reader).pos_spec() < old(reader).toks().len(),
    ensures
        moved(*old(reader), *final(reader), r is Ok),
        r is Ok ==> advanced(*old(reader), *final(reader)),
        ({
            let k = old(reader).current().kind;
            k == TokKind::Int || k == TokKind::Double || k == TokKind::Bool || k == TokKind::This
        }) ==> gives(r, final(reader).pos_spec(), literal_spec(old(reader).toks(), old(reader).pos_spec() as int)),
        old(reader).current().kind == TokKind::Increment || old(reader).current().kind == TokKind::Decrement
            ==> gives(r, final(reader).pos_spec(), prefix_spec(old(reader).toks(), old(reader).pos_spec() as int)),
        old(reader).current().kind == TokKind::Add
            ==> (r matches Err(x) && x@ == fail_at(FailKind::Reported, "'+' is not a prefix operator."@, old(reader).current())),
        old(reader).current().kind == TokKind::Name ==> (!more_at(old(reader).toks(), old(reader).pos_spec() as int) ==> gives(r, final(reader).pos_spec(), Ok((named(old(reader).current(), seq![]), old(reader).pos_spec() as int)))),
        old(reader).current().kind == TokKind::Name ==> (more_at(old(reader).toks(), old(reader).pos_spec() as int) && old(reader).toks()[old(reader).pos_spec() as int + 1].kind != TokKind::Paren1 && old(reader).toks()[old(reader).pos_spec() as int + 1].kind != TokKind::Brack1
            ==> gives(r, final(reader).pos_spec(), Ok((named(old(reader).current(), seq![]), old(reader).pos_spec() as int + 1)))),
        old(reader).current().kind == TokKind::Paren1 ==> (more_at(old(reader).toks(), old(reader).pos_spec() as int) && lone_literal(old(reader).toks(), old(reader).pos_spec() as int + 1) ==> gives(r, final(reader).pos_spec(),
            match literal_spec(old(reader).toks(), old(reader).pos_spec() as int + 1) {
                Ok((n, q)) => match skip_spec(old(reader).toks(), q, ")"@) {
                    Ok(q2) => Ok((n, q2)),
                    Err(e) => Err(e),
                },
                Err(e) => Err(e),
            })),
        old(reader).current().kind == TokKind::Str ==> (old(reader).current().subs.len() == 0 ==> gives(r, final(reader).pos_spec(),
            match step(old(reader).toks(), old(reader).pos_spec() as int) {
                Ok(q) => Ok((NodeV { ty: tyv(NodeKind::Str, seq![old(reader).current().text], old(reader).current()), children: seq![] }, q)),
                Err(e) => Err(e),
            })),
        old(reader).current().kind == TokKind::Brack1 ==> (more_at(old(reader).toks(), old(reader).pos_spec() as int) && old(reader).toks()[old(reader).pos_spec() as int + 1].kind == TokKind::Brack2 ==> gives(r, final(reader).pos_spec(),
            match step(old(reader).toks(), old(reader).pos_spec() as int + 1) {
                Ok(q) => Ok((nodev(NodeKind::List, old(reader).current(), seq![]), q)),
                Err(e) => Err(e),
            })),
        (old(reader).current().kind == TokKind::Sub || old(reader).current().kind == TokKind::Not) ==> (more_at(old(reader).toks(), old(reader).pos_spec() as int) && literal_kind(old(reader).toks()[old(reader).pos_spec() as int + 1].kind) ==> gives(r, final(reader).pos_spec(),
            match literal_spec(old(reader).toks(), old(reader).pos_spec() as int + 1) {
                Ok((n, q)) => Ok((nodev(if old(reader).current().kind == TokKind::Sub { NodeKind::Sub } else { NodeKind::Not },
                    old(reader).current(), seq![n]), q)),
                Err(e) => Err(e),
            })),
        lone_call(old(reader).toks(), old(reader).pos_spec() as int) matches Some(n)
            ==> gives(r, final(reader).pos_spec(), Ok((n, old(reader).pos_spec() + 4int))),
    decreases seq_size(old(reader).toks(), 0), old(reader).toks().len() - old(reader).pos_spec(), 6int,
{
    let k = reader.kind();
    if k == TokKind::Int || k == TokKind::Double || k == TokKind::Bool || k == TokKind::This {
        literal(reader)
    } else if k == TokKind::Add {
        let l = reader.linenum();
        let c = reader.symnum();
        Err(fail_pos(FailKind::Reported, String::from_str("'+' is not a prefix operator."), l, c))
    } else if k == TokKind::Sub || k == TokKind::Not {
        unary(reader, file)
    } else if k == TokKind::Str {
        string(reader, file)
    } else if k == TokKind::Name {
        name(reader, file)
    } else if k == TokKind::Increment || k == TokKind::Decrement {
        prefix(reader)
    } else if k == TokKind::Paren1 {
        paren(reader, file)
    } else if k == TokKind::Brack1 {
        list(reader, file)
    } else {
        let t = reader.tok();
        Err(fail_with_token(FailKind::Panicked, "Unexpected token: ", &t, &t))
    }
}

/// Reads an integer, double or boolean literal, or `this`.
fn literal(reader: &mut Reader) -> (r: Result<Node, ParseError>)
    requires
        old(reader).pos_spec() < old(reader).toks().len(),
    ensures
        moved(*old(reader), *final(reader), r is Ok),
        r is Ok ==> advanced(*old(reader), *final(reader)),
        gives(r, final(reader).pos_spec(), literal_spec(old(reader).toks(), old(reader).pos_spec() as int)),
{
    proof { reveal(literal_spec); }
    let t = reader.tok();
    let k = t.kind();
    let (l, c) = t.find_token_position();
    match reader.advance() {
        Ok(()) => {},
        Err(e) => { return Err(e); },
    }
    if k == TokKind::Int {
        let s = t.text();
        match parse_int_literal(s.as_str()) {
            Some(v) => Ok(Node::new(NodeType::Int(v, l, c))),
            None => {
                let mut msg = String::from_str("Integer literal out of range: ");
                msg.append(s.as_str());
                Err(fail_pos(FailKind::Panicked, msg, l, c))
            },
        }
    } else if k == TokKind::Double {
        Ok(Node::new(NodeType::Double(t.text(), l, c)))
    } else if k == TokKind::Bool {
        Ok(Node::new(NodeType::Bool(t.flag(), l, c)))
    } else {
        Ok(Node::new(NodeType::This(l, c)))
    }
}

/// Reads a unary `-` or `!` and its operand.
fn unary(reader: &mut Reader, file: &str) -> (r: Result<Node, ParseError>)
    requires
        old(reader).pos_spec() < old(reader).toks().len(),
    ensures
        moved(*old(reader), *final(reader), r is Ok),
        r is Ok ==> advanced(*old(reader), *final(reader)),
        more_at(old(reader).toks(), old(reader).pos_spec() as int) && literal_kind(old(reader).toks()[old(reader).pos_spec() as int + 1].kind) ==> gives(r, final(reader).pos_spec(),
            match literal_spec(old(reader).toks(), old(reader).pos_spec() as int + 1) {
                Ok((n, q)) => Ok((nodev(if old(reader).current().kind == TokKind::Sub { NodeKind::Sub } else { NodeKind::Not },
                    old(reader).current(), seq![n]), q)),
                Err(e) => Err(e),
            }),
    decreases seq_size(old(reader).toks(), 0), old(reader).toks().len() - old(reader).pos_spec(), 4int,
{
    let k = reader.kind();
    let l = reader.linenum();
    let c = reader.symnum();
    match reader.advance() {
        Ok(()) => {},
        Err(e) => { return Err(e); },
    }
    match term(reader, file) {
        Ok(n) => Ok(unop(if k == TokKind::Sub { NodeType::Sub(l, c) } else { NodeType::Not(l, c) }, n)),
        Err(e) => Err(e),
    }
}

/// Reads a string and the expressions of its interpolations.
fn string(reader: &mut Reader, file: &str) -> (r: Result<Node, ParseError>)
    requires
        old(reader).pos_spec() < old(reader).toks().len(),
    ensures
        moved(*old(reader), *final(reader), r is Ok),
        r is Ok ==> advanced(*old(reader), *final(reader)),
        old(reader).current().kind == TokKind::Str && old(reader).current().subs.len() == 0 ==> gives(r, final(reader).pos_spec(),
            match step(old(reader).toks(), old(reader).pos_spec() as int) {
                Ok(q) => Ok((NodeV { ty: tyv(NodeKind::Str, seq![old(reader).current().text], old(reader).current()), children: seq![] }, q)),
                Err(e) => Err(e),
            }),
    decreases seq_size(old(reader).toks(), 0), old(reader).toks().len() - old(reader).pos_spec(), 4int,
{
    let ghost ts = reader.toks();
    let ghost p = reader.pos_spec() as int;
    let t = reader.tok();
    let (l, c) = t.find_token_position();
    let subs = t.subs();
    if subs.len() == 0 {
        match reader.advance() {
            Ok(()) => {},
            Err(e) => { return Err(e); },
        }
        return Ok(Node::new(NodeType::Str(t.text(), l, c)));
    }
    proof {
        assert(nodes_view(Seq::<Node>::empty()) =~= Seq::<NodeV>::empty());
        lemma_size_at(ts, p);
    }
    let parts = match interpolations(&subs, 0, file, Vec::new()) {
        Ok(ps) => ps,
        Err(e) => { return Err(e); },
    };
    if reader.more() {
        reader.next();
    }
    let node = Node { nodetype: NodeType::Str(t.text(), l, c), children: parts };
    proof { lemma_node_view(node.nodetype, node.children); }
    Ok(node)
}

/// Reads a name: a variable, a function call or an indexed variable.
fn name(reader: &mut Reader, file: &str) -> (r: Result<Node, ParseError>)
    requires
        old(reader).pos_spec() < old(reader).toks().len(),
    ensures
        moved(*old(reader), *final(reader), r is Ok),
        r is Ok ==> advanced(*old(reader), *final(reader)),
        !more_at(old(reader).toks(), old(reader).pos_spec() as int) ==> gives(r, final(reader).pos_spec(), Ok((named(old(reader).current(), seq![]), old(reader).pos_spec() as int))),
        more_at(old(reader).toks(), old(reader).pos_spec() as int) && old(reader).toks()[old(reader).pos_spec() as int + 1].kind != TokKind::Paren1 && old(reader).toks()[old(reader).pos_spec() as int + 1].kind != TokKind::Brack1
            ==> gives(r, final(reader).pos_spec(), Ok((named(old(reader).current(), seq![]), old(reader).pos_spec() as int + 1))),
        lone_call(old(reader).toks(), old(reader).pos_spec() as int) matches Some(n)
            ==> gives(r, final(reader).pos_spec(), Ok((n, old(reader).pos_spec() + 4int))),
    decreases seq_size(old(reader).toks(), 0), old(reader).toks().len() - old(reader).pos_spec(), 4int,
{
    let t = reader.tok();
    let s = t.text();
    let (l, c) = t.find_token_position();
    if !reader.more() {
        return Ok(Node::new(NodeType::Name(s, l, c)));
    }
    reader.next();
    let k2 = reader.kind();
    if k2 == TokKind::Paren1 {
        match arglist(reader, file) {
            Ok(args) => Ok(unop(NodeType::FunCall(s, l, c), args)),
            Err(e) => Err(e),
        }
    } else if k2 == TokKind::Brack1 {
        access_help(reader, Node::new(NodeType::Name(s, l, c)), file)
    } else {
        Ok(Node::new(NodeType::Name(s, l, c)))
    }
}

/// Reads a `++` or `--` and the name after it.
fn prefix(reader: &mut Reader) -> (r: Result<Node, ParseError>)
    requires
        old(reader).pos_spec() < old(reader).toks().len(),
    ensures
        moved(*old(reader), *final(reader), r is Ok),
        r is Ok ==> advanced(*old(reader), *final(reader)),
        gives(r, final(reader).pos_spec(), prefix_spec(old(reader).toks(), old(reader).pos_spec() as int)),
{
    let k = reader.kind();
    let l = reader.linenum();
    let c = reader.symnum();
    match reader.advance() {
        Ok(()) => {},
        Err(e) => { return Err(e); },
    }
    let t2 = reader.tok();
    if t2.kind() != TokKind::Name {
        let prefix = if k == TokKind::Increment { "Invalid operand for increment: " } else { "Invalid operand for decrement: " };
        return Err(fail_with_token(FailKind::Panicked, prefix, &t2, &t2));
    }
    let (nl, nc) = t2.find_token_position();
    match reader.advance() {
        Ok(()) => {},
        Err(e) => { return Err(e); },
    }
    let ty = if k == TokKind::Increment { NodeType::PreIncrement(l, c) } else { NodeType::PreDecrement(l, c) };
    Ok(unop(ty, Node::new(NodeType::Name(t2.text(), nl, nc))))
}

/// Reads a parenthesised expression.
fn paren(reader: &mut Reader, file: &str) -> (r: Result<Node, ParseError>)
    requires
        old(reader).pos_spec() < old(reader).toks().len(),
    ensures
        moved(*old(reader), *final(reader), r is Ok),
        r is Ok ==> advanced(*old(reader), *final(reader)),
        more_at(old(reader).toks(), old(reader).pos_spec() as int) && lone_literal(old(reader).toks(), old(reader).pos_spec() as int + 1) ==> gives(r, final(reader).pos_spec(),
            match literal_spec(old(reader).toks(), old(reader).pos_spec() as int + 1) {
                Ok((n, q)) => match skip_spec(old(reader).toks(), q, ")"@) {
                    Ok(q2) => Ok((n, q2)),
                    Err(e) => Err(e),
                },
                Err(e) => Err(e),
            }),
    decreases seq_size(old(reader).toks(), 0), old(reader).toks().len() - old(reader).pos_spec(), 4int,
{
    match reader.advance() {
        Ok(()) => {},
        Err(e) => { return Err(e); },
    }
    let inner = match expression(reader, file) {
        Ok(n) => n,
        Err(e) => { return Err(e); },
    };
    match reader.skip(")") {
        Ok(()) => Ok(inner),
        Err(e) => Err(e),
    }
}

/// Reads a list literal.
fn list(reader: &mut Reader, file: &str) -> (r: Result<Node, ParseError>)
    requires
        old(reader).pos_spec() < old(reader).toks().len(),
    ensures
        moved(*old(reader), *final(reader), r is Ok),
        r is Ok ==> advanced(*old(reader), *final(reader)),
        more_at(old(reader).toks(), old(reader).pos_spec() as int) && old(reader).toks()[old(reader).pos_spec() as int + 1].kind == TokKind::Brack2 ==> gives(r, final(reader).pos_spec(),
            match step(old(reader).toks(), old(reader).pos_spec() as int + 1) {
                Ok(q) => Ok((nodev(NodeKind::List, old(reader).current(), seq![]), q)),
                Err(e) => Err(e),
            }),
    decreases seq_size(old(reader).toks(), 0), old(reader).toks().len() - old(reader).pos_spec(), 4int,
{
    let l = reader.linenum();
    let c = reader.symnum();
    match reader.advance() {
        Ok(()) => {},
        Err(e) => { return Err(e); },
    }
    if reader.kind() == TokKind::Brack2 {
        match reader.advance() {
            Ok(()) => {},
            Err(e) => { return Err(e); },
        }
        return Ok(Node::new(NodeType::List(l, c)));
    }
    proof {
        assert(nodes_view(Seq::<Node>::empty()) =~= Seq::<NodeV>::empty());
    }
    match list_rest(reader, file, Vec::new(), false) {
        Ok(items) => {
            let node = Node { nodetype: NodeType::List(l, c), children: items };
            proof { lemma_node_view(node.nodetype, node.children); }
            Ok(node)
        },
        Err(e) => Err(e),
    }
}

} // verus!
