//! The syntax tree, and its mathematical view `Ast`.

use vstd::prelude::*;

verus! {

/// An unsigned decimal literal as written: the digits before the point and
/// the digits after it (none when the literal has no point).
#[derive(Debug, Clone, PartialEq, Eq)]
pub struct Decimal {
    pub whole: Vec<u8>,
    pub frac: Vec<u8>,
}

/// The mathematical content of a `Decimal`: its two digit sequences.
pub struct Digits {
    pub whole: Seq<u8>,
    pub frac: Seq<u8>,
}

pub open spec fn all_digits(s: Seq<u8>) -> bool {
    forall|i: int| 0 <= i < s.len() ==> #[trigger] s[i] < 10
}

impl Digits {
    /// A literal has at least one whole digit, and a fraction only after a point
    /// that is followed by a digit.
    pub open spec fn wf(self) -> bool {
        &&& self.whole.len() > 0
        &&& all_digits(self.whole)
        &&& all_digits(self.frac)
    }
}

impl View for Decimal {
    type V = Digits;

    open spec fn view(&self) -> Digits {
        Digits { whole: self.whole@, frac: self.frac@ }
    }
}

/// The decimal digits of `n`, most significant first.
pub open spec fn digits_of(n: nat) -> Seq<u8>
    decreases n,
{
    if n < 10 {
        seq![n as u8]
    } else {
        digits_of(n / 10).push((n % 10) as u8)
    }
}

pub proof fn lemma_digits_of_wf(n: nat)
    ensures
        digits_of(n).len() > 0,
        all_digits(digits_of(n)),
    decreases n,
{
    if n >= 10 {
        lemma_digits_of_wf(n / 10);
        let d = digits_of(n / 10);
        assert(digits_of(n) == d.push((n % 10) as u8));
        assert forall|i: int| 0 <= i < digits_of(n).len() implies #[trigger] digits_of(n)[i] < 10 by {
            if i < d.len() {
                assert(digits_of(n)[i] == d[i]);
            }
        }
    }
}

impl Decimal {
    /// The literal that writes the integer `n` without a point.
    pub fn from_u64(n: u64) -> (r: Decimal)
        ensures
            r@.whole == digits_of(n as nat),
            r@.frac == Seq::<u8>::empty(),
            r@.wf(),
    {
        proof {
            lemma_digits_of_wf(n as nat);
        }
        Decimal { whole: Self::digits(n), frac: Vec::new() }
    }

    fn digits(n: u64) -> (r: Vec<u8>)
        ensures
            r@ == digits_of(n as nat),
        decreases n,
    {
        if n < 10 {
            let mut v: Vec<u8> = Vec::new();
            v.push(n as u8);
            v
        } else {
            let mut v = Self::digits(n / 10);
            v.push((n % 10) as u8);
            v
        }
    }

    /// A copy with the same digits.
    pub fn duplicate(&self) -> (r: Decimal)
        ensures
            r@ == self@,
    {
        Decimal { whole: copy_bytes(&self.whole), frac: copy_bytes(&self.frac) }
    }
}

pub fn copy_bytes(v: &Vec<u8>) -> (r: Vec<u8>)
    ensures
        r@ == v@,
{
    let mut r: Vec<u8> = Vec::new();
    let mut i: usize = 0;
    while i < v.len()
        invariant
            i <= v@.len(),
            r@ == v@.subrange(0, i as int),
        decreases v@.len() - i,
    {
        r.push(v[i]);
        i = i + 1;
        assert(r@ =~= v@.subrange(0, i as int));
    }
    assert(r@ =~= v@);
    r
}

#[derive(Debug, Copy, Clone, PartialEq, Eq, Structural)]
pub enum BinaryOp {
    Sub,
    Add,
    Mul,
    Div,
    Pow,
    Eq,
    Ne,
    Lt,
    Le,
    Gt,
    Ge,
    And,
    Or,
    Modulo,
}

#[derive(Debug, Copy, Clone, PartialEq, Eq, Structural)]
pub enum UnaryOp {
    Sub,
    Not,
}

/// A node of the syntax tree. Every node owns its children.
#[derive(Debug, PartialEq)]
pub enum Node {
    NumberExpr(Decimal),
    IdentExpr(String),
    BoolExpr(bool),
    BlockExpr(Vec<Node>),
    UnaryExpr { op: UnaryOp, child: Box<Node> },
    BinaryExpr { op: BinaryOp, lhs: Box<Node>, rhs: Box<Node> },
    InitExpr { ident: Box<Node>, expr: Box<Node> },
    GlobalInitExpr { ident: Box<Node>, expr: Box<Node> },
    AssignExpr { ident: Box<Node>, expr: Box<Node> },
    FuncExpr { ident: Box<Node>, args: Vec<String>, body: Box<Node> },
    CallExpr { ident: Box<Node>, args: Vec<Node> },
    CondExpr { cond: Box<Node>, cons: Box<Node>, alter: Option<Box<Node>> },
    WhileExpr { cond: Box<Node>, body: Box<Node> },
    ReturnExpr { ret: Box<Node> },
}

/// The mathematical syntax tree that a `Node` denotes.
pub enum Ast {
    Number(Digits),
    Ident(Seq<char>),
    Bool(bool),
    Block(Seq<Ast>),
    Unary(UnaryOp, Box<Ast>),
    Binary(BinaryOp, Box<Ast>, Box<Ast>),
    Init(Box<Ast>, Box<Ast>),
    GlobalInit(Box<Ast>, Box<Ast>),
    Assign(Box<Ast>, Box<Ast>),
    Func(Box<Ast>, Seq<Seq<char>>, Box<Ast>),
    Call(Box<Ast>, Seq<Ast>),
    Cond(Box<Ast>, Box<Ast>, Option<Box<Ast>>),
    While(Box<Ast>, Box<Ast>),
    Return(Box<Ast>),
}

pub open spec fn names_view(names: Seq<String>) -> Seq<Seq<char>> {
    names.map_values(|s: String| s@)
}

pub open spec fn nodes_view(nodes: Seq<Node>) -> Seq<Ast>
    decreases nodes,
{
    if nodes.len() == 0 {
        Seq::empty()
    } else {
        nodes_view(nodes.drop_last()).push(node_view(nodes.last()))
    }
}

pub open spec fn node_view(n: Node) -> Ast
    decreases n,
{
    match n {
        Node::NumberExpr(d) => Ast::Number(d@),
        Node::IdentExpr(s) => Ast::Ident(s@),
        Node::BoolExpr(b) => Ast::Bool(b),
        Node::BlockExpr(v) => Ast::Block(nodes_view(v@)),
        Node::UnaryExpr { op, child } => Ast::Unary(op, Box::new(node_view(*child))),
        Node::BinaryExpr { op, lhs, rhs } => Ast::Binary(
            op,
            Box::new(node_view(*lhs)),
            Box::new(node_view(*rhs)),
        ),
        Node::InitExpr { ident, expr } => Ast::Init(
            Box::new(node_view(*ident)),
            Box::new(node_view(*expr)),
        ),
        Node::GlobalInitExpr { ident, expr } => Ast::GlobalInit(
            Box::new(node_view(*ident)),
            Box::new(node_view(*expr)),
        ),
        Node::AssignExpr { ident, expr } => Ast::Assign(
            Box::new(node_view(*ident)),
            Box::new(node_view(*expr)),
        ),
        Node::FuncExpr { ident, args, body } => Ast::Func(
            Box::new(node_view(*ident)),
            names_view(args@),
            Box::new(node_view(*body)),
        ),
        Node::CallExpr { ident, args } => Ast::Call(
            Box::new(node_view(*ident)),
            nodes_view(args@),
        ),
        Node::CondExpr { cond, cons, alter } => Ast::Cond(
            Box::new(node_view(*cond)),
            Box::new(node_view(*cons)),
            match alter {
                Some(a) => Some(Box::new(node_view(*a))),
                None => None,
            },
        ),
        Node::WhileExpr { cond, body } => Ast::While(
            Box::new(node_view(*cond)),
            Box::new(node_view(*body)),
        ),
        Node::ReturnExpr { ret } => Ast::Return(Box::new(node_view(*ret))),
    }
}

impl View for Node {
    type V = Ast;

    open spec fn view(&self) -> Ast {
        node_view(*self)
    }
}

pub proof fn lemma_nodes_view(nodes: Seq<Node>)
    ensures
        nodes_view(nodes).len() == nodes.len(),
        forall|i: int| 0 <= i < nodes.len() ==> #[trigger] nodes_view(nodes)[i] == node_view(nodes[i]),
    decreases nodes.len(),
{
    if nodes.len() > 0 {
        lemma_nodes_view(nodes.drop_last());
        assert forall|i: int| 0 <= i < nodes.len() implies #[trigger] nodes_view(nodes)[i] == node_view(nodes[i]) by {
            if i < nodes.len() - 1 {
                assert(nodes.drop_last()[i] == nodes[i]);
            }
        }
    }
}

} // verus!
