use vstd::prelude::*;
use crate::object::Object;

verus! {

/// The kinds of syntax-tree nodes, with their payloads. The pair of `usize`
/// fields at the end of each are the line and column where the node starts.
pub enum NodeType {
    Add(usize, usize),
    Sub(usize, usize),
    Mul(usize, usize),
    Div(usize, usize),
    PreIncrement(usize, usize),
    PostIncrement(usize, usize),
    PreDecrement(usize, usize),
    PostDecrement(usize, usize),
    Not(usize, usize),
    LogOr(usize, usize),
    LogAnd(usize, usize),
    BitOr(usize, usize),
    BitXor(usize, usize),
    BitAnd(usize, usize),
    LessThan(usize, usize),
    GreaterThan(usize, usize),
    LessOrEq(usize, usize),
    GreaterOrEq(usize, usize),
    Equal(usize, usize),
    Assign(usize, usize),
    Int(i64, usize, usize),
    Double(String, usize, usize),  // the literal's text
    Str(String, usize, usize),
    Bool(bool, usize, usize),
    Name(String, usize, usize),
    TypedVar(String, String, usize, usize),  // type, name
    TopVar(String, String, Box<Object>, usize, usize),  // type, name, value
    TopVarLazy(String, String, usize, usize),  // type, name
    ConstTopLazy(String, String, usize, usize),  // type, name
    ConstTopVar(String, String, Box<Object>, usize, usize),  // type, name, value
    Conditional(usize, usize),
    If(usize, usize),
    ElseIf(usize, usize),
    Else(usize, usize),
    While(usize, usize),
    DoWhile(usize, usize),
    For(usize, usize),
    Block(usize, usize),
    List(usize, usize),
    CollAccess(usize, usize),
    This(usize, usize),
    Super(usize, usize),
    FunDef(String, String, String, usize, usize),  // type, name, file
    FunCall(String, usize, usize),
    MethodCall(String, Box<Node>, String, usize, usize),  // method name, owner, file
    ParamList(usize, usize),
    ArgList(usize, usize),
    ThisFieldInit(String, usize, usize),
    InitList(usize, usize),
    Initializer(usize, usize),
    Return(usize, usize),
    Constructor(String, Box<Node>, Box<Node>, Box<Node>, String, usize, usize),  // class name, parameters, initializer list, body, file
    Null(usize, usize),
}

/// Which variant a node type is, without its payload.
#[derive(PartialEq, Eq, Structural, Clone, Copy, Debug)]
pub enum NodeKind {
    Add, Sub, Mul, Div, PreIncrement, PostIncrement, PreDecrement, PostDecrement, Not, LogOr, LogAnd, BitOr, BitXor, BitAnd, LessThan, GreaterThan, LessOrEq, GreaterOrEq, Equal, Assign, Int, Double, Str, Bool, Name, TypedVar, TopVar, TopVarLazy, ConstTopLazy, ConstTopVar, Conditional, If, ElseIf, Else, While, DoWhile, For, Block, List, CollAccess, This, Super, FunDef, FunCall, MethodCall, ParamList, ArgList, ThisFieldInit, InitList, Initializer, Return, Constructor, Null,
}

/// The value of a node type: its kind, its string fields in order, its integer
/// and boolean payloads, the values of its boxed nodes in order, and its
/// position. The value held by a resolved top-level variable is not part of
/// it: copies of a value that holds nodes agree only in the nodes' views, so
/// contracts about that value read the node type itself.
pub struct NodeTypeV {
    pub kind: NodeKind,
    pub strs: Seq<Seq<char>>,
    pub int_val: int,
    pub flag: bool,
    pub boxes: Seq<NodeV>,
    pub line: nat,
    pub col: nat,
}

/// The value of a node: its type and the values of its children.
pub struct NodeV {
    pub ty: NodeTypeV,
    pub children: Seq<NodeV>,
}

pub open spec fn simple_ntv(kind: NodeKind, l: usize, c: usize) -> NodeTypeV {
    NodeTypeV { kind, strs: seq![], int_val: 0, flag: false, boxes: seq![], line: l as nat, col: c as nat }
}

/// A node of a payload-free kind with no children.
pub open spec fn leaf(kind: NodeKind, l: usize, c: usize) -> NodeV {
    NodeV { ty: simple_ntv(kind, l, c), children: seq![] }
}

/// A syntax-tree node: its type and its children.
pub struct Node {
    pub nodetype: NodeType,
    pub children: Vec<Node>,
}

/// The values of a sequence of nodes.
pub open spec fn nodes_view(v: Seq<Node>) -> Seq<NodeV>
    decreases v,
{
    Seq::new(v.len(), |i: int| if 0 <= i < v.len() { v[i].view() } else { leaf(NodeKind::Null, 0, 0) })
}

impl NodeType {
    pub open spec fn view(self) -> NodeTypeV
        decreases self,
    {
        match self {
            NodeType::Add(l, c) => simple_ntv(NodeKind::Add, l, c),
            NodeType::Sub(l, c) => simple_ntv(NodeKind::Sub, l, c),
            NodeType::Mul(l, c) => simple_ntv(NodeKind::Mul, l, c),
            NodeType::Div(l, c) => simple_ntv(NodeKind::Div, l, c),
            NodeType::PreIncrement(l, c) => simple_ntv(NodeKind::PreIncrement, l, c),
            NodeType::PostIncrement(l, c) => simple_ntv(NodeKind::PostIncrement, l, c),
            NodeType::PreDecrement(l, c) => simple_ntv(NodeKind::PreDecrement, l, c),
            NodeType::PostDecrement(l, c) => simple_ntv(NodeKind::PostDecrement, l, c),
            NodeType::Not(l, c) => simple_ntv(NodeKind::Not, l, c),
            NodeType::LogOr(l, c) => simple_ntv(NodeKind::LogOr, l, c),
            NodeType::LogAnd(l, c) => simple_ntv(NodeKind::LogAnd, l, c),
            NodeType::BitOr(l, c) => simple_ntv(NodeKind::BitOr, l, c),
            NodeType::BitXor(l, c) => simple_ntv(NodeKind::BitXor, l, c),
            NodeType::BitAnd(l, c) => simple_ntv(NodeKind::BitAnd, l, c),
            NodeType::LessThan(l, c) => simple_ntv(NodeKind::LessThan, l, c),
            NodeType::GreaterThan(l, c) => simple_ntv(NodeKind::GreaterThan, l, c),
            NodeType::LessOrEq(l, c) => simple_ntv(NodeKind::LessOrEq, l, c),
            NodeType::GreaterOrEq(l, c) => simple_ntv(NodeKind::GreaterOrEq, l, c),
            NodeType::Equal(l, c) => simple_ntv(NodeKind::Equal, l, c),
            NodeType::Assign(l, c) => simple_ntv(NodeKind::Assign, l, c),
            NodeType::Int(f0, l, c) => NodeTypeV { kind: NodeKind::Int, strs: seq![], int_val: f0 as int, flag: false, boxes: seq![], line: l as nat, col: c as nat },
            NodeType::Double(f0, l, c) => NodeTypeV { kind: NodeKind::Double, strs: seq![f0@], int_val: 0, flag: false, boxes: seq![], line: l as nat, col: c as nat },
            NodeType::Str(f0, l, c) => NodeTypeV { kind: NodeKind::Str, strs: seq![f0@], int_val: 0, flag: false, boxes: seq![], line: l as nat, col: c as nat },
            NodeType::Bool(f0, l, c) => NodeTypeV { kind: NodeKind::Bool, strs: seq![], int_val: 0, flag: f0, boxes: seq![], line: l as nat, col: c as nat },
            NodeType::Name(f0, l, c) => NodeTypeV { kind: NodeKind::Name, strs: seq![f0@], int_val: 0, flag: false, boxes: seq![], line: l as nat, col: c as nat },
            NodeType::TypedVar(f0, f1, l, c) => NodeTypeV { kind: NodeKind::TypedVar, strs: seq![f0@, f1@], int_val: 0, flag: false, boxes: seq![], line: l as nat, col: c as nat },
            NodeType::TopVar(f0, f1, f2, l, c) => NodeTypeV { kind: NodeKind::TopVar, strs: seq![f0@, f1@], int_val: 0, flag: false, boxes: seq![], line: l as nat, col: c as nat },
            NodeType::TopVarLazy(f0, f1, l, c) => NodeTypeV { kind: NodeKind::TopVarLazy, strs: seq![f0@, f1@], int_val: 0, flag: false, boxes: seq![], line: l as nat, col: c as nat },
            NodeType::ConstTopLazy(f0, f1, l, c) => NodeTypeV { kind: NodeKind::ConstTopLazy, strs: seq![f0@, f1@], int_val: 0, flag: false, boxes: seq![], line: l as nat, col: c as nat },
            NodeType::ConstTopVar(f0, f1, f2, l, c) => NodeTypeV { kind: NodeKind::ConstTopVar, strs: seq![f0@, f1@], int_val: 0, flag: false, boxes: seq![], line: l as nat, col: c as nat },
            NodeType::Conditional(l, c) => simple_ntv(NodeKind::Conditional, l, c),
            NodeType::If(l, c) => simple_ntv(NodeKind::If, l, c),
            NodeType::ElseIf(l, c) => simple_ntv(NodeKind::ElseIf, l, c),
            NodeType::Else(l, c) => simple_ntv(NodeKind::Else, l, c),
            NodeType::While(l, c) => simple_ntv(NodeKind::While, l, c),
            NodeType::DoWhile(l, c) => simple_ntv(NodeKind::DoWhile, l, c),
            NodeType::For(l, c) => simple_ntv(NodeKind::For, l, c),
            NodeType::Block(l, c) => simple_ntv(NodeKind::Block, l, c),
            NodeType::List(l, c) => simple_ntv(NodeKind::List, l, c),
            NodeType::CollAccess(l, c) => simple_ntv(NodeKind::CollAccess, l, c),
            NodeType::This(l, c) => simple_ntv(NodeKind::This, l, c),
            NodeType::Super(l, c) => simple_ntv(NodeKind::Super, l, c),
            NodeType::FunDef(f0, f1, f2, l, c) => NodeTypeV { kind: NodeKind::FunDef, strs: seq![f0@, f1@, f2@], int_val: 0, flag: false, boxes: seq![], line: l as nat, col: c as nat },
            NodeType::FunCall(f0, l, c) => NodeTypeV { kind: NodeKind::FunCall, strs: seq![f0@], int_val: 0, flag: false, boxes: seq![], line: l as nat, col: c as nat },
            NodeType::MethodCall(f0, f1, f2, l, c) => NodeTypeV { kind: NodeKind::MethodCall, strs: seq![f0@, f2@], int_val: 0, flag: false, boxes: seq![f1.view()], line: l as nat, col: c as nat },
            NodeType::ParamList(l, c) => simple_ntv(NodeKind::ParamList, l, c),
            NodeType::ArgList(l, c) => simple_ntv(NodeKind::ArgList, l, c),
            NodeType::ThisFieldInit(f0, l, c) => NodeTypeV { kind: NodeKind::ThisFieldInit, strs: seq![f0@], int_val: 0, flag: false, boxes: seq![], line: l as nat, col: c as nat },
            NodeType::InitList(l, c) => simple_ntv(NodeKind::InitList, l, c),
            NodeType::Initializer(l, c) => simple_ntv(NodeKind::Initializer, l, c),
            NodeType::Return(l, c) => simple_ntv(NodeKind::Return, l, c),
            NodeType::Constructor(f0, f1, f2, f3, f4, l, c) => NodeTypeV { kind: NodeKind::Constructor, strs: seq![f0@, f4@], int_val: 0, flag: false, boxes: seq![f1.view(), f2.view(), f3.view()], line: l as nat, col: c as nat },
            NodeType::Null(l, c) => simple_ntv(NodeKind::Null, l, c),
        }
    }

    pub fn kind(&self) -> (k: NodeKind)
        ensures
            k == self.view().kind,
    {
        match self {
            NodeType::Add(..) => NodeKind::Add,
            NodeType::Sub(..) => NodeKind::Sub,
            NodeType::Mul(..) => NodeKind::Mul,
            NodeType::Div(..) => NodeKind::Div,
            NodeType::PreIncrement(..) => NodeKind::PreIncrement,
            NodeType::PostIncrement(..) => NodeKind::PostIncrement,
            NodeType::PreDecrement(..) => NodeKind::PreDecrement,
            NodeType::PostDecrement(..) => NodeKind::PostDecrement,
            NodeType::Not(..) => NodeKind::Not,
            NodeType::LogOr(..) => NodeKind::LogOr,
            NodeType::LogAnd(..) => NodeKind::LogAnd,
            NodeType::BitOr(..) => NodeKind::BitOr,
            NodeType::BitXor(..) => NodeKind::BitXor,
            NodeType::BitAnd(..) => NodeKind::BitAnd,
            NodeType::LessThan(..) => NodeKind::LessThan,
            NodeType::GreaterThan(..) => NodeKind::GreaterThan,
            NodeType::LessOrEq(..) => NodeKind::LessOrEq,
            NodeType::GreaterOrEq(..) => NodeKind::GreaterOrEq,
            NodeType::Equal(..) => NodeKind::Equal,
            NodeType::Assign(..) => NodeKind::Assign,
            NodeType::Int(..) => NodeKind::Int,
            NodeType::Double(..) => NodeKind::Double,
            NodeType::Str(..) => NodeKind::Str,
            NodeType::Bool(..) => NodeKind::Bool,
            NodeType::Name(..) => NodeKind::Name,
            NodeType::TypedVar(..) => NodeKind::TypedVar,
            NodeType::TopVar(..) => NodeKind::TopVar,
            NodeType::TopVarLazy(..) => NodeKind::TopVarLazy,
            NodeType::ConstTopLazy(..) => NodeKind::ConstTopLazy,
            NodeType::ConstTopVar(..) => NodeKind::ConstTopVar,
            NodeType::Conditional(..) => NodeKind::Conditional,
            NodeType::If(..) => NodeKind::If,
            NodeType::ElseIf(..) => NodeKind::ElseIf,
            NodeType::Else(..) => NodeKind::Else,
            NodeType::While(..) => NodeKind::While,
            NodeType::DoWhile(..) => NodeKind::DoWhile,
            NodeType::For(..) => NodeKind::For,
            NodeType::Block(..) => NodeKind::Block,
            NodeType::List(..) => NodeKind::List,
            NodeType::CollAccess(..) => NodeKind::CollAccess,
            NodeType::This(..) => NodeKind::This,
            NodeType::Super(..) => NodeKind::Super,
            NodeType::FunDef(..) => NodeKind::FunDef,
            NodeType::FunCall(..) => NodeKind::FunCall,
            NodeType::MethodCall(..) => NodeKind::MethodCall,
            NodeType::ParamList(..) => NodeKind::ParamList,
            NodeType::ArgList(..) => NodeKind::ArgList,
            NodeType::ThisFieldInit(..) => NodeKind::ThisFieldInit,
            NodeType::InitList(..) => NodeKind::InitList,
            NodeType::Initializer(..) => NodeKind::Initializer,
            NodeType::Return(..) => NodeKind::Return,
            NodeType::Constructor(..) => NodeKind::Constructor,
            NodeType::Null(..) => NodeKind::Null,
        }
    }
}

impl NodeType {
    /// The line and column of the node type.
    pub fn position(&self) -> (p: (usize, usize))
        ensures
            p.0 as nat == self.view().line,
            p.1 as nat == self.view().col,
    {
        match self {
            NodeType::Add(l, c) => (*l, *c),
            NodeType::Sub(l, c) => (*l, *c),
            NodeType::Mul(l, c) => (*l, *c),
            NodeType::Div(l, c) => (*l, *c),
            NodeType::PreIncrement(l, c) => (*l, *c),
            NodeType::PostIncrement(l, c) => (*l, *c),
            NodeType::PreDecrement(l, c) => (*l, *c),
            NodeType::PostDecrement(l, c) => (*l, *c),
            NodeType::Not(l, c) => (*l, *c),
            NodeType::LogOr(l, c) => (*l, *c),
            NodeType::LogAnd(l, c) => (*l, *c),
            NodeType::BitOr(l, c) => (*l, *c),
            NodeType::BitXor(l, c) => (*l, *c),
            NodeType::BitAnd(l, c) => (*l, *c),
            NodeType::LessThan(l, c) => (*l, *c),
            NodeType::GreaterThan(l, c) => (*l, *c),
            NodeType::LessOrEq(l, c) => (*l, *c),
            NodeType::GreaterOrEq(l, c) => (*l, *c),
            NodeType::Equal(l, c) => (*l, *c),
            NodeType::Assign(l, c) => (*l, *c),
            NodeType::Int(_, l, c) => (*l, *c),
            NodeType::Double(_, l, c) => (*l, *c),
            NodeType::Str(_, l, c) => (*l, *c),
            NodeType::Bool(_, l, c) => (*l, *c),
            NodeType::Name(_, l, c) => (*l, *c),
            NodeType::TypedVar(_, _, l, c) => (*l, *c),
            NodeType::TopVar(_, _, _, l, c) => (*l, *c),
            NodeType::TopVarLazy(_, _, l, c) => (*l, *c),
            NodeType::ConstTopLazy(_, _, l, c) => (*l, *c),
            NodeType::ConstTopVar(_, _, _, l, c) => (*l, *c),
            NodeType::Conditional(l, c) => (*l, *c),
            NodeType::If(l, c) => (*l, *c),
            NodeType::ElseIf(l, c) => (*l, *c),
            NodeType::Else(l, c) => (*l, *c),
            NodeType::While(l, c) => (*l, *c),
            NodeType::DoWhile(l, c) => (*l, *c),
            NodeType::For(l, c) => (*l, *c),
            NodeType::Block(l, c) => (*l, *c),
            NodeType::List(l, c) => (*l, *c),
            NodeType::CollAccess(l, c) => (*l, *c),
            NodeType::This(l, c) => (*l, *c),
            NodeType::Super(l, c) => (*l, *c),
            NodeType::FunDef(_, _, _, l, c) => (*l, *c),
            NodeType::FunCall(_, l, c) => (*l, *c),
            NodeType::MethodCall(_, _, _, l, c) => (*l, *c),
            NodeType::ParamList(l, c) => (*l, *c),
            NodeType::ArgList(l, c) => (*l, *c),
            NodeType::ThisFieldInit(_, l, c) => (*l, *c),
            NodeType::InitList(l, c) => (*l, *c),
            NodeType::Initializer(l, c) => (*l, *c),
            NodeType::Return(l, c) => (*l, *c),
            NodeType::Constructor(_, _, _, _, _, l, c) => (*l, *c),
            NodeType::Null(l, c) => (*l, *c),
        }
    }
}

impl Node {
    pub closed spec fn view(self) -> NodeV
        decreases self,
    {
        NodeV {
            ty: self.nodetype.view(),
            children: Seq::new(self.children.len() as nat, |i: int|
                if 0 <= i < self.children.len() { self.children[i].view() } else { leaf(NodeKind::Null, 0, 0) }),
        }
    }

    /// A node of type `nodetype` without children.
    pub fn new(nodetype: NodeType) -> (r: Node)
        ensures
            r.view() == (NodeV { ty: nodetype.view(), children: seq![] }),
            r.nodetype == nodetype,
            r.children@.len() == 0,
    {
        let r = Node { nodetype, children: Vec::new() };
        assert(r.view().children =~= seq![]);
        r
    }

    /// The line and column where the node starts.
    pub fn find_node_position(&self) -> (p: (usize, usize))
        ensures
            p.0 as nat == self.view().ty.line,
            p.1 as nat == self.view().ty.col,
    {
        self.nodetype.position()
    }
}

pub proof fn lemma_nodes_push(v: Seq<Node>, n: Node)
    ensures
        nodes_view(v.push(n)) == nodes_view(v).push(n.view()),
{
    assert(nodes_view(v.push(n)) =~= nodes_view(v).push(n.view()));
}

/// The value of a node whose children vector is `ch`.
pub proof fn lemma_node_view(t: NodeType, ch: Vec<Node>)
    ensures
        (Node { nodetype: t, children: ch }).view() == (NodeV { ty: t.view(), children: nodes_view(ch@) }),
{
    let n = Node { nodetype: t, children: ch };
    assert(n.view().children =~= nodes_view(ch@));
}

/// A node's value is its type's value and its children's values.
pub proof fn lemma_node_parts(n: Node)
    ensures
        n.view().ty == n.nodetype.view(),
        n.view().children.len() == n.children@.len(),
        forall|i: int| 0 <= i < n.children@.len() ==> #[trigger] n.view().children[i] == n.children@[i].view(),
{
    lemma_node_view(n.nodetype, n.children);
}

/// Adds `child` as the last child of `node`.
pub fn push_child(node: &mut Node, child: Node)
    ensures
        final(node).view() == (NodeV { ty: old(node).view().ty, children: old(node).view().children.push(child.view()) }),
        final(node).nodetype == old(node).nodetype,
        final(node).children@ == old(node).children@.push(child),
{
    proof {
        lemma_node_view(node.nodetype, node.children);
        lemma_nodes_push(node.children@, child);
    }
    node.children.push(child);
    proof {
        lemma_node_view(node.nodetype, node.children);
    }
}


/// A lazy top-level variable or constant is told by its view: its kind and
/// its name, the second of its strings.
pub proof fn lemma_lazy_view(t: NodeType)
    ensures
        t.view().kind == NodeKind::TopVarLazy ==> (t matches NodeType::TopVarLazy(_, n, _, _) && t.view().strs[1] == n@),
        t.view().kind == NodeKind::ConstTopLazy ==> (t matches NodeType::ConstTopLazy(_, n, _, _) && t.view().strs[1] == n@),
{
}

/// A node's type's value is part of the node's value.
pub proof fn lemma_node_ty(n: Node)
    ensures
        n.view().ty == n.nodetype.view(),
{
}

impl NodeType {
    /// A copy of the node type.
    pub fn duplicate(&self) -> (r: NodeType)
        ensures
            r.view() == self.view(),
        decreases self,
    {
        match self {
            NodeType::Add(f0, f1) => NodeType::Add(*f0, *f1),
            NodeType::Sub(f0, f1) => NodeType::Sub(*f0, *f1),
            NodeType::Mul(f0, f1) => NodeType::Mul(*f0, *f1),
            NodeType::Div(f0, f1) => NodeType::Div(*f0, *f1),
            NodeType::PreIncrement(f0, f1) => NodeType::PreIncrement(*f0, *f1),
            NodeType::PostIncrement(f0, f1) => NodeType::PostIncrement(*f0, *f1),
            NodeType::PreDecrement(f0, f1) => NodeType::PreDecrement(*f0, *f1),
            NodeType::PostDecrement(f0, f1) => NodeType::PostDecrement(*f0, *f1),
            NodeType::Not(f0, f1) => NodeType::Not(*f0, *f1),
            NodeType::LogOr(f0, f1) => NodeType::LogOr(*f0, *f1),
            NodeType::LogAnd(f0, f1) => NodeType::LogAnd(*f0, *f1),
            NodeType::BitOr(f0, f1) => NodeType::BitOr(*f0, *f1),
            NodeType::BitXor(f0, f1) => NodeType::BitXor(*f0, *f1),
            NodeType::BitAnd(f0, f1) => NodeType::BitAnd(*f0, *f1),
            NodeType::LessThan(f0, f1) => NodeType::LessThan(*f0, *f1),
            NodeType::GreaterThan(f0, f1) => NodeType::GreaterThan(*f0, *f1),
            NodeType::LessOrEq(f0, f1) => NodeType::LessOrEq(*f0, *f1),
            NodeType::GreaterOrEq(f0, f1) => NodeType::GreaterOrEq(*f0, *f1),
            NodeType::Equal(f0, f1) => NodeType::Equal(*f0, *f1),
            NodeType::Assign(f0, f1) => NodeType::Assign(*f0, *f1),
            NodeType::Int(f0, f1, f2) => NodeType::Int(*f0, *f1, *f2),
            NodeType::Double(f0, f1, f2) => NodeType::Double(f0.clone(), *f1, *f2),
            NodeType::Str(f0, f1, f2) => NodeType::Str(f0.clone(), *f1, *f2),
            NodeType::Bool(f0, f1, f2) => NodeType::Bool(*f0, *f1, *f2),
            NodeType::Name(f0, f1, f2) => NodeType::Name(f0.clone(), *f1, *f2),
            NodeType::TypedVar(f0, f1, f2, f3) => NodeType::TypedVar(f0.clone(), f1.clone(), *f2, *f3),
            NodeType::TopVar(f0, f1, f2, f3, f4) => NodeType::TopVar(f0.clone(), f1.clone(), Box::new((**f2).duplicate()), *f3, *f4),
            NodeType::TopVarLazy(f0, f1, f2, f3) => NodeType::TopVarLazy(f0.clone(), f1.clone(), *f2, *f3),
            NodeType::ConstTopLazy(f0, f1, f2, f3) => NodeType::ConstTopLazy(f0.clone(), f1.clone(), *f2, *f3),
            NodeType::ConstTopVar(f0, f1, f2, f3, f4) => NodeType::ConstTopVar(f0.clone(), f1.clone(), Box::new((**f2).duplicate()), *f3, *f4),
            NodeType::Conditional(f0, f1) => NodeType::Conditional(*f0, *f1),
            NodeType::If(f0, f1) => NodeType::If(*f0, *f1),
            NodeType::ElseIf(f0, f1) => NodeType::ElseIf(*f0, *f1),
            NodeType::Else(f0, f1) => NodeType::Else(*f0, *f1),
            NodeType::While(f0, f1) => NodeType::While(*f0, *f1),
            NodeType::DoWhile(f0, f1) => NodeType::DoWhile(*f0, *f1),
            NodeType::For(f0, f1) => NodeType::For(*f0, *f1),
            NodeType::Block(f0, f1) => NodeType::Block(*f0, *f1),
            NodeType::List(f0, f1) => NodeType::List(*f0, *f1),
            NodeType::CollAccess(f0, f1) => NodeType::CollAccess(*f0, *f1),
            NodeType::This(f0, f1) => NodeType::This(*f0, *f1),
            NodeType::Super(f0, f1) => NodeType::Super(*f0, *f1),
            NodeType::FunDef(f0, f1, f2, f3, f4) => NodeType::FunDef(f0.clone(), f1.clone(), f2.clone(), *f3, *f4),
            NodeType::FunCall(f0, f1, f2) => NodeType::FunCall(f0.clone(), *f1, *f2),
            NodeType::MethodCall(f0, f1, f2, f3, f4) => NodeType::MethodCall(f0.clone(), Box::new((**f1).duplicate()), f2.clone(), *f3, *f4),
            NodeType::ParamList(f0, f1) => NodeType::ParamList(*f0, *f1),
            NodeType::ArgList(f0, f1) => NodeType::ArgList(*f0, *f1),
            NodeType::ThisFieldInit(f0, f1, f2) => NodeType::ThisFieldInit(f0.clone(), *f1, *f2),
            NodeType::InitList(f0, f1) => NodeType::InitList(*f0, *f1),
            NodeType::Initializer(f0, f1) => NodeType::Initializer(*f0, *f1),
            NodeType::Return(f0, f1) => NodeType::Return(*f0, *f1),
            NodeType::Constructor(f0, f1, f2, f3, f4, f5, f6) => NodeType::Constructor(f0.clone(), Box::new((**f1).duplicate()), Box::new((**f2).duplicate()), Box::new((**f3).duplicate()), f4.clone(), *f5, *f6),
            NodeType::Null(f0, f1) => NodeType::Null(*f0, *f1),
        }
    }
}

impl Node {
    /// A copy of the node and its subtree.
    pub fn duplicate(&self) -> (r: Node)
        ensures
            r.view() == self.view(),
        decreases self,
    {
        let t = self.nodetype.duplicate();
        let mut ch: Vec<Node> = Vec::new();
        let mut i: usize = 0;
        while i < self.children.len()
            invariant
                i <= self.children@.len(),
                ch@.len() == i,
                forall|j: int| 0 <= j < i ==> (#[trigger] ch@[j]).view() == self.children@[j].view(),
            decreases self.children@.len() - i,
        {
            proof {
                assert(decreases_to!(self => self.children));
                assert(decreases_to!(self.children => self.children@));
                assert(decreases_to!(self.children@ => self.children@[i as int]));
            }
            let c = self.children[i].duplicate();
            ch.push(c);
            i = i + 1;
        }
        let r = Node { nodetype: t, children: ch };
        assert(r.view().children =~= self.view().children);
        r
    }
}

impl Clone for Node {
    fn clone(&self) -> (r: Node)
        ensures
            r.view() == self.view(),
    {
        self.duplicate()
    }
}

} // verus!
