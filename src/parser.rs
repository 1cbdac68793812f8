//! Tokens to syntax trees by recursive descent with precedence climbing:
//! the `p_*` spec functions state the grammar, `parse` computes it.

use vstd::prelude::*;
use crate::ast::{Ast, BinaryOp, Decimal, Digits, Node, UnaryOp, names_view, node_view, nodes_view};
use crate::lexer::{
    digits_end, is_digit, lex, lex_from, skip_trivia, source_chars, token_at, token_ok, tokenize, Token,
    Trivia,
};

verus! {

pub open spec fn digit_values(s: Seq<char>) -> Seq<u8> {
    s.map_values(|c: char| (c as u32 - '0' as u32) as u8)
}

/// The name an identifier token spells.
pub open spec fn name_of(cs: Seq<char>, t: Token) -> Seq<char> {
    match t {
        Token::Ident { start, end } => cs.subrange(start as int, end as int),
        _ => Seq::empty(),
    }
}

/// The digits a number token spells.
pub open spec fn number_of(cs: Seq<char>, t: Token) -> Digits {
    match t {
        Token::Num { start, whole_end, end } => Digits {
            whole: digit_values(cs.subrange(start as int, whole_end as int)),
            frac: if end > whole_end {
                digit_values(cs.subrange(whole_end + 1, end as int))
            } else {
                Seq::empty()
            },
        },
        _ => Digits { whole: Seq::empty(), frac: Seq::empty() },
    }
}

pub open spec fn binop(t: Token) -> Option<BinaryOp> {
    match t {
        Token::EqEq => Some(BinaryOp::Eq),
        Token::NotEq => Some(BinaryOp::Ne),
        Token::Lt => Some(BinaryOp::Lt),
        Token::Le => Some(BinaryOp::Le),
        Token::Gt => Some(BinaryOp::Gt),
        Token::Ge => Some(BinaryOp::Ge),
        Token::AndAnd => Some(BinaryOp::And),
        Token::OrOr => Some(BinaryOp::Or),
        Token::Plus => Some(BinaryOp::Add),
        Token::Minus => Some(BinaryOp::Sub),
        Token::Star => Some(BinaryOp::Mul),
        Token::Slash => Some(BinaryOp::Div),
        Token::Percent => Some(BinaryOp::Modulo),
        Token::Caret => Some(BinaryOp::Pow),
        _ => None,
    }
}

/// Binding strength: comparisons and logic 1, `+ -` 2, `* / %` 3, `^` 4.
pub open spec fn prec(op: BinaryOp) -> nat {
    match op {
        BinaryOp::Add | BinaryOp::Sub => 2,
        BinaryOp::Mul | BinaryOp::Div | BinaryOp::Modulo => 3,
        BinaryOp::Pow => 4,
        _ => 1,
    }
}

/// The least strength an operator's right operand may bind with: `^` groups
/// to the right, all others to the left.
pub open spec fn rhs_prec(op: BinaryOp) -> nat {
    if op == BinaryOp::Pow {
        prec(op)
    } else {
        prec(op) + 1
    }
}

pub open spec fn is_tok(ts: Seq<Token>, i: int, t: Token) -> bool {
    0 <= i < ts.len() && ts[i] == t
}

pub open spec fn is_ident_tok(ts: Seq<Token>, i: int) -> bool {
    0 <= i < ts.len() && ts[i] is Ident
}

/// Parsing moved forward, and stayed within the tokens.
pub open spec fn advances(ts: Seq<Token>, i: int, j: int) -> bool {
    i < j <= ts.len()
}

/// An expression starting at token `i`: the tree and the position after it.
pub open spec fn p_expr(cs: Seq<char>, ts: Seq<Token>, i: int) -> Option<(Ast, int)>
    decreases ts.len() - i, 6nat,
{
    if i < 0 || i >= ts.len() {
        None
    } else if ts[i] is Let || ts[i] is Global {
        if is_ident_tok(ts, i + 1) && is_tok(ts, i + 2, Token::Assign) {
            match p_expr(cs, ts, i + 3) {
                Some((e, j)) => {
                    let id = Box::new(Ast::Ident(name_of(cs, ts[i + 1])));
                    if ts[i] is Let {
                        Some((Ast::Init(id, Box::new(e)), j))
                    } else {
                        Some((Ast::GlobalInit(id, Box::new(e)), j))
                    }
                },
                None => None,
            }
        } else {
            None
        }
    } else if ts[i] is Fn {
        if is_ident_tok(ts, i + 1) && is_tok(ts, i + 2, Token::LParen) {
            match p_params(cs, ts, i + 3) {
                Some((ps, j)) => if !advances(ts, i, j) {
                    None
                } else {
                    match p_block(cs, ts, j) {
                        Some((b, k)) => Some(
                            (Ast::Func(Box::new(Ast::Ident(name_of(cs, ts[i + 1]))), ps, Box::new(b)), k),
                        ),
                        None => None,
                    }
                },
                None => None,
            }
        } else {
            None
        }
    } else if ts[i] is If {
        match p_expr(cs, ts, i + 1) {
            Some((c, j)) => if !advances(ts, i, j) || !is_tok(ts, j, Token::Then) {
                None
            } else {
                match p_block(cs, ts, j + 1) {
                    Some((t, k)) => if !advances(ts, i, k) {
                        None
                    } else if is_tok(ts, k, Token::Else) {
                        match p_block(cs, ts, k + 1) {
                            Some((e, m)) => Some(
                                (Ast::Cond(Box::new(c), Box::new(t), Some(Box::new(e))), m),
                            ),
                            None => None,
                        }
                    } else {
                        Some((Ast::Cond(Box::new(c), Box::new(t), None), k))
                    },
                    None => None,
                }
            },
            None => None,
        }
    } else if ts[i] is While {
        match p_expr(cs, ts, i + 1) {
            Some((c, j)) => if !advances(ts, i, j) {
                None
            } else {
                match p_block(cs, ts, j) {
                    Some((b, k)) => Some((Ast::While(Box::new(c), Box::new(b)), k)),
                    None => None,
                }
            },
            None => None,
        }
    } else if ts[i] is Return {
        match p_expr(cs, ts, i + 1) {
            Some((e, j)) => Some((Ast::Return(Box::new(e)), j)),
            None => None,
        }
    } else if ts[i] is Ident && is_tok(ts, i + 1, Token::Assign) {
        match p_expr(cs, ts, i + 2) {
            Some((e, j)) => Some(
                (Ast::Assign(Box::new(Ast::Ident(name_of(cs, ts[i]))), Box::new(e)), j),
            ),
            None => None,
        }
    } else {
        p_binary(cs, ts, i, 1)
    }
}

/// Operators of strength `min` or more, by precedence climbing.
pub open spec fn p_binary(cs: Seq<char>, ts: Seq<Token>, i: int, min: nat) -> Option<(Ast, int)>
    decreases ts.len() - i, 5nat,
{
    match p_unary(cs, ts, i) {
        Some((lhs, j)) => if !advances(ts, i, j) {
            None
        } else {
            p_climb(cs, ts, lhs, j, min)
        },
        None => None,
    }
}

pub open spec fn p_climb(cs: Seq<char>, ts: Seq<Token>, lhs: Ast, j: int, min: nat) -> Option<(Ast, int)>
    decreases ts.len() - j, 4nat,
{
    if 0 <= j < ts.len() && binop(ts[j]) is Some && prec(binop(ts[j])->0) >= min {
        let op = binop(ts[j])->0;
        match p_binary(cs, ts, j + 1, rhs_prec(op)) {
            Some((rhs, k)) => if !advances(ts, j, k) {
                None
            } else {
                p_climb(cs, ts, Ast::Binary(op, Box::new(lhs), Box::new(rhs)), k, min)
            },
            None => None,
        }
    } else {
        Some((lhs, j))
    }
}

/// Prefix `-` and `!`, binding tighter than any binary operator.
pub open spec fn p_unary(cs: Seq<char>, ts: Seq<Token>, i: int) -> Option<(Ast, int)>
    decreases ts.len() - i, 3nat,
{
    if i < 0 || i >= ts.len() {
        None
    } else if ts[i] is Minus || ts[i] is Bang {
        match p_unary(cs, ts, i + 1) {
            Some((c, j)) => Some(
                (Ast::Unary(if ts[i] is Minus { UnaryOp::Sub } else { UnaryOp::Not }, Box::new(c)), j),
            ),
            None => None,
        }
    } else {
        p_primary(cs, ts, i)
    }
}

pub open spec fn p_primary(cs: Seq<char>, ts: Seq<Token>, i: int) -> Option<(Ast, int)>
    decreases ts.len() - i, 2nat,
{
    if i < 0 || i >= ts.len() {
        None
    } else {
        match ts[i] {
            Token::Num { .. } => Some((Ast::Number(number_of(cs, ts[i])), i + 1)),
            Token::True => Some((Ast::Bool(true), i + 1)),
            Token::False => Some((Ast::Bool(false), i + 1)),
            Token::Ident { .. } => if is_tok(ts, i + 1, Token::LParen) {
                match p_args(cs, ts, i + 2) {
                    Some((args, j)) => Some(
                        (Ast::Call(Box::new(Ast::Ident(name_of(cs, ts[i]))), args), j),
                    ),
                    None => None,
                }
            } else {
                Some((Ast::Ident(name_of(cs, ts[i])), i + 1))
            },
            Token::LParen => match p_expr(cs, ts, i + 1) {
                Some((e, j)) => if advances(ts, i, j) && is_tok(ts, j, Token::RParen) {
                    Some((e, j + 1))
                } else {
                    None
                },
                None => None,
            },
            Token::LBrace => p_block(cs, ts, i),
            _ => None,
        }
    }
}

/// `{ ... }`: expressions separated by optional semicolons.
pub open spec fn p_block(cs: Seq<char>, ts: Seq<Token>, i: int) -> Option<(Ast, int)>
    decreases ts.len() - i, 1nat,
{
    if is_tok(ts, i, Token::LBrace) {
        match p_items(cs, ts, i + 1, true) {
            Some((items, j)) => Some((Ast::Block(items), j)),
            None => None,
        }
    } else {
        None
    }
}

/// Expressions separated by optional semicolons, up to a closing `}` when
/// `closed`, else up to the end of the tokens.
pub open spec fn p_items(cs: Seq<char>, ts: Seq<Token>, i: int, closed: bool) -> Option<(Seq<Ast>, int)>
    decreases ts.len() - i, 7nat,
{
    if i < 0 || i >= ts.len() {
        if closed {
            None
        } else {
            Some((Seq::empty(), i))
        }
    } else if ts[i] is Semi {
        p_items(cs, ts, i + 1, closed)
    } else if closed && ts[i] is RBrace {
        Some((Seq::empty(), i + 1))
    } else {
        match p_expr(cs, ts, i) {
            Some((e, j)) => if !advances(ts, i, j) {
                None
            } else {
                match p_items(cs, ts, j, closed) {
                    Some((rest, k)) => Some((seq![e] + rest, k)),
                    None => None,
                }
            },
            None => None,
        }
    }
}

/// Call operands after `(`, up to and past the `)`.
pub open spec fn p_args(cs: Seq<char>, ts: Seq<Token>, i: int) -> Option<(Seq<Ast>, int)>
    decreases ts.len() - i, 8nat,
{
    if is_tok(ts, i, Token::RParen) {
        Some((Seq::empty(), i + 1))
    } else {
        p_arg_list(cs, ts, i)
    }
}

pub open spec fn p_arg_list(cs: Seq<char>, ts: Seq<Token>, i: int) -> Option<(Seq<Ast>, int)>
    decreases ts.len() - i, 7nat,
{
    match p_expr(cs, ts, i) {
        Some((e, j)) => if !advances(ts, i, j) {
            None
        } else if is_tok(ts, j, Token::Comma) {
            match p_arg_list(cs, ts, j + 1) {
                Some((rest, k)) => Some((seq![e] + rest, k)),
                None => None,
            }
        } else if is_tok(ts, j, Token::RParen) {
            Some((seq![e], j + 1))
        } else {
            None
        },
        None => None,
    }
}

/// Parameter names after `(`, up to and past the `)`.
pub open spec fn p_params(cs: Seq<char>, ts: Seq<Token>, i: int) -> Option<(Seq<Seq<char>>, int)> {
    if is_tok(ts, i, Token::RParen) {
        Some((Seq::empty(), i + 1))
    } else {
        p_names(cs, ts, i)
    }
}

pub open spec fn p_names(cs: Seq<char>, ts: Seq<Token>, i: int) -> Option<(Seq<Seq<char>>, int)>
    decreases ts.len() - i,
{
    if !is_ident_tok(ts, i) {
        None
    } else if is_tok(ts, i + 1, Token::Comma) {
        match p_names(cs, ts, i + 2) {
            Some((rest, k)) => Some((seq![name_of(cs, ts[i])] + rest, k)),
            None => None,
        }
    } else if is_tok(ts, i + 1, Token::RParen) {
        Some((seq![name_of(cs, ts[i])], i + 2))
    } else {
        None
    }
}

/// A program: its top-level expressions, semicolons between them optional.
pub open spec fn p_program(cs: Seq<char>, ts: Seq<Token>) -> Option<Seq<Ast>> {
    match p_items(cs, ts, 0, false) {
        Some((items, _)) => Some(items),
        None => None,
    }
}


/// The syntax trees of a source text, if it is a program.
pub open spec fn parsed(s: Seq<char>) -> Option<Seq<Ast>> {
    match lex(s) {
        Some(ts) => p_program(s, ts),
        None => None,
    }
}

/// A source text that is not a program; `offset` is the byte offset at
/// which it stops making sense.
#[derive(Debug, Copy, Clone, PartialEq, Eq)]
pub struct ParseError {
    pub offset: usize,
}

pub open spec fn node_res(r: Result<(Node, usize), usize>) -> Option<(Ast, int)> {
    match r {
        Ok((n, j)) => Some((n@, j as int)),
        Err(_) => None,
    }
}

pub open spec fn nodes_res(r: Result<(Vec<Node>, usize), usize>) -> Option<(Seq<Ast>, int)> {
    match r {
        Ok((v, j)) => Some((nodes_view(v@), j as int)),
        Err(_) => None,
    }
}

pub open spec fn names_res(r: Result<(Vec<String>, usize), usize>) -> Option<(Seq<Seq<char>>, int)> {
    match r {
        Ok((v, j)) => Some((names_view(v@), j as int)),
        Err(_) => None,
    }
}

pub open spec fn prepend<T>(front: Seq<T>, rest: Option<(Seq<T>, int)>) -> Option<(Seq<T>, int)> {
    match rest {
        Some((r, k)) => Some((front + r, k)),
        None => None,
    }
}

proof fn lemma_nodes_view_push(v: Seq<Node>, n: Node)
    ensures
        nodes_view(v.push(n)) == nodes_view(v).push(n@),
{
    assert(v.push(n).drop_last() =~= v);
}

fn binop_of(t: Token) -> (r: Option<BinaryOp>)
    ensures
        r == binop(t),
{
    match t {
        Token::EqEq => Some(BinaryOp::Eq),
        Token::NotEq => Some(BinaryOp::Ne),
        Token::Lt => Some(BinaryOp::Lt),
        Token::Le => Some(BinaryOp::Le),
        Token::Gt => Some(BinaryOp::Gt),
        Token::Ge => Some(BinaryOp::Ge),
        Token::AndAnd => Some(BinaryOp::And),
        Token::OrOr => Some(BinaryOp::Or),
        Token::Plus => Some(BinaryOp::Add),
        Token::Minus => Some(BinaryOp::Sub),
        Token::Star => Some(BinaryOp::Mul),
        Token::Slash => Some(BinaryOp::Div),
        Token::Percent => Some(BinaryOp::Modulo),
        Token::Caret => Some(BinaryOp::Pow),
        _ => None,
    }
}

fn prec_of(op: BinaryOp) -> (r: usize)
    ensures
        r == prec(op),
{
    match op {
        BinaryOp::Add | BinaryOp::Sub => 2,
        BinaryOp::Mul | BinaryOp::Div | BinaryOp::Modulo => 3,
        BinaryOp::Pow => 4,
        _ => 1,
    }
}

fn rhs_prec_of(op: BinaryOp) -> (r: usize)
    ensures
        r == rhs_prec(op),
{
    if op == BinaryOp::Pow {
        prec_of(op)
    } else {
        prec_of(op) + 1
    }
}

struct Parser<'a> {
    src: &'a str,
    cs: Vec<char>,
    ts: Vec<Token>,
}

impl<'a> Parser<'a> {
    spec fn wf(&self) -> bool {
        &&& self.src@ == self.cs@
        &&& forall|k: int| 0 <= k < self.ts@.len() ==> token_ok(self.cs@, #[trigger] self.ts@[k])
    }

    fn tok_is(&self, i: usize, t: Token) -> (r: bool)
        ensures
            r == is_tok(self.ts@, i as int, t),
            self.ts@.len() <= usize::MAX,
    {
        i < self.ts.len() && self.ts[i] == t
    }

    fn ident_at(&self, i: usize) -> (r: bool)
        ensures
            r == is_ident_tok(self.ts@, i as int),
            self.ts@.len() <= usize::MAX,
    {
        i < self.ts.len() && matches!(self.ts[i], Token::Ident { .. })
    }

    fn name(&self, i: usize) -> (r: String)
        requires
            self.wf(),
            i < self.ts@.len(),
            self.ts@[i as int] is Ident,
        ensures
            r@ == name_of(self.cs@, self.ts@[i as int]),
    {
        assert(token_ok(self.cs@, self.ts@[i as int]));
        match self.ts[i] {
            Token::Ident { start, end } => String::from_str(self.src.substring_char(start, end)),
            _ => String::new(),
        }
    }

    fn ident_node(&self, i: usize) -> (r: Node)
        requires
            self.wf(),
            i < self.ts@.len(),
            self.ts@[i as int] is Ident,
        ensures
            r@ == Ast::Ident(name_of(self.cs@, self.ts@[i as int])),
    {
        let r = Node::IdentExpr(self.name(i));
        assert(r@ == node_view(r));
        r
    }

    fn digit_vec(&self, a: usize, b: usize) -> (r: Vec<u8>)
        requires
            a <= b <= self.cs@.len(),
            forall|k: int| a <= k < b ==> is_digit(#[trigger] self.cs@[k]),
        ensures
            r@ == digit_values(self.cs@.subrange(a as int, b as int)),
    {
        let mut r: Vec<u8> = Vec::new();
        let mut k = a;
        while k < b
            invariant
                a <= k <= b <= self.cs@.len(),
                forall|m: int| a <= m < b ==> is_digit(#[trigger] self.cs@[m]),
                r@ == digit_values(self.cs@.subrange(a as int, k as int)),
            decreases b - k,
        {
            let c = self.cs[k];
            assert(is_digit(self.cs@[k as int]));
            r.push((c as u32 - '0' as u32) as u8);
            k = k + 1;
            assert(r@ =~= digit_values(self.cs@.subrange(a as int, k as int)));
        }
        r
    }

    fn number(&self, i: usize) -> (r: Decimal)
        requires
            self.wf(),
            i < self.ts@.len(),
            self.ts@[i as int] is Num,
        ensures
            r@ == number_of(self.cs@, self.ts@[i as int]),
    {
        assert(token_ok(self.cs@, self.ts@[i as int]));
        match self.ts[i] {
            Token::Num { start, whole_end, end } => {
                let whole = self.digit_vec(start, whole_end);
                let frac = if end > whole_end {
                    self.digit_vec(whole_end + 1, end)
                } else {
                    Vec::new()
                };
                Decimal { whole, frac }
            },
            _ => Decimal { whole: Vec::new(), frac: Vec::new() },
        }
    }

    fn expr(&self, i: usize) -> (r: Result<(Node, usize), usize>)
        requires
            self.wf(),
        ensures
            node_res(r) == p_expr(self.cs@, self.ts@, i as int),
        decreases self.ts@.len() - i, 6nat,
    {
        let n = self.ts.len();
        if i >= n {
            return Err(i);
        }
        let t = self.ts[i];
        if matches!(t, Token::Let) || matches!(t, Token::Global) {
            if self.ident_at(i + 1) && self.tok_is(i + 2, Token::Assign) {
                match self.expr(i + 3) {
                    Ok((e, j)) => {
                        let id = Box::new(self.ident_node(i + 1));
                        if matches!(t, Token::Let) {
                            Ok((Node::InitExpr { ident: id, expr: Box::new(e) }, j))
                        } else {
                            Ok((Node::GlobalInitExpr { ident: id, expr: Box::new(e) }, j))
                        }
                    },
                    Err(p) => Err(p),
                }
            } else {
                Err(i)
            }
        } else if matches!(t, Token::Fn) {
            if self.ident_at(i + 1) && self.tok_is(i + 2, Token::LParen) {
                match self.params(i + 3) {
                    Ok((ps, j)) => {
                        if !(i < j && j <= n) {
                            return Err(i);
                        }
                        match self.block(j) {
                            Ok((b, k)) => {
                                let id = Box::new(self.ident_node(i + 1));
                                Ok((Node::FuncExpr { ident: id, args: ps, body: Box::new(b) }, k))
                            },
                            Err(p) => Err(p),
                        }
                    },
                    Err(p) => Err(p),
                }
            } else {
                Err(i)
            }
        } else if matches!(t, Token::If) {
            match self.expr(i + 1) {
                Ok((c, j)) => {
                    if !(i < j && j <= n) || !self.tok_is(j, Token::Then) {
                        return Err(j);
                    }
                    match self.block(j + 1) {
                        Ok((tb, k)) => {
                            if !(i < k && k <= n) {
                                return Err(k);
                            }
                            if self.tok_is(k, Token::Else) {
                                match self.block(k + 1) {
                                    Ok((eb, m)) => Ok(
                                        (
                                            Node::CondExpr {
                                                cond: Box::new(c),
                                                cons: Box::new(tb),
                                                alter: Some(Box::new(eb)),
                                            },
                                            m,
                                        ),
                                    ),
                                    Err(p) => Err(p),
                                }
                            } else {
                                Ok(
                                    (
                                        Node::CondExpr {
                                            cond: Box::new(c),
                                            cons: Box::new(tb),
                                            alter: None,
                                        },
                                        k,
                                    ),
                                )
                            }
                        },
                        Err(p) => Err(p),
                    }
                },
                Err(p) => Err(p),
            }
        } else if matches!(t, Token::While) {
            match self.expr(i + 1) {
                Ok((c, j)) => {
                    if !(i < j && j <= n) {
                        return Err(j);
                    }
                    match self.block(j) {
                        Ok((b, k)) => Ok((Node::WhileExpr { cond: Box::new(c), body: Box::new(b) }, k)),
                        Err(p) => Err(p),
                    }
                },
                Err(p) => Err(p),
            }
        } else if matches!(t, Token::Return) {
            match self.expr(i + 1) {
                Ok((e, j)) => Ok((Node::ReturnExpr { ret: Box::new(e) }, j)),
                Err(p) => Err(p),
            }
        } else if matches!(t, Token::Ident { .. }) && self.tok_is(i + 1, Token::Assign) {
            match self.expr(i + 2) {
                Ok((e, j)) => {
                    let id = Box::new(self.ident_node(i));
                    Ok((Node::AssignExpr { ident: id, expr: Box::new(e) }, j))
                },
                Err(p) => Err(p),
            }
        } else {
            self.binary(i, 1)
        }
    }

    fn binary(&self, i: usize, min: usize) -> (r: Result<(Node, usize), usize>)
        requires
            self.wf(),
        ensures
            node_res(r) == p_binary(self.cs@, self.ts@, i as int, min as nat),
        decreases self.ts@.len() - i, 5nat,
    {
        let n = self.ts.len();
        match self.unary(i) {
            Err(p) => Err(p),
            Ok((first, j0)) => {
                if !(i < j0 && j0 <= n) {
                    return Err(i);
                }
                let mut lhs = first;
                let mut j = j0;
                loop
                    invariant
                        self.wf(),
                        n == self.ts@.len(),
                        i < j <= n,
                        p_binary(self.cs@, self.ts@, i as int, min as nat) == p_climb(
                            self.cs@,
                            self.ts@,
                            lhs@,
                            j as int,
                            min as nat,
                        ),
                    decreases n - j,
                {
                    if j >= n {
                        return Ok((lhs, j));
                    }
                    match binop_of(self.ts[j]) {
                        Some(op) => {
                            if prec_of(op) < min {
                                return Ok((lhs, j));
                            }
                            match self.binary(j + 1, rhs_prec_of(op)) {
                                Err(p) => {
                                    return Err(p);
                                },
                                Ok((rhs, k)) => {
                                    if !(j < k && k <= n) {
                                        return Err(j);
                                    }
                                    lhs = Node::BinaryExpr { op, lhs: Box::new(lhs), rhs: Box::new(rhs) };
                                    j = k;
                                },
                            }
                        },
                        None => {
                            return Ok((lhs, j));
                        },
                    }
                }
            },
        }
    }

    fn unary(&self, i: usize) -> (r: Result<(Node, usize), usize>)
        requires
            self.wf(),
        ensures
            node_res(r) == p_unary(self.cs@, self.ts@, i as int),
        decreases self.ts@.len() - i, 3nat,
    {
        if i >= self.ts.len() {
            return Err(i);
        }
        let t = self.ts[i];
        if matches!(t, Token::Minus) || matches!(t, Token::Bang) {
            match self.unary(i + 1) {
                Ok((c, j)) => {
                    let op = if matches!(t, Token::Minus) {
                        UnaryOp::Sub
                    } else {
                        UnaryOp::Not
                    };
                    Ok((Node::UnaryExpr { op, child: Box::new(c) }, j))
                },
                Err(p) => Err(p),
            }
        } else {
            self.primary(i)
        }
    }

    fn primary(&self, i: usize) -> (r: Result<(Node, usize), usize>)
        requires
            self.wf(),
        ensures
            node_res(r) == p_primary(self.cs@, self.ts@, i as int),
        decreases self.ts@.len() - i, 2nat,
    {
        let n = self.ts.len();
        if i >= n {
            return Err(i);
        }
        match self.ts[i] {
            Token::Num { .. } => {
                let r = Node::NumberExpr(self.number(i));
                assert(r@ == node_view(r));
                Ok((r, i + 1))
            },
            Token::True => Ok((Node::BoolExpr(true), i + 1)),
            Token::False => Ok((Node::BoolExpr(false), i + 1)),
            Token::Ident { .. } => {
                if self.tok_is(i + 1, Token::LParen) {
                    match self.args(i + 2) {
                        Ok((a, j)) => {
                            let id = Box::new(self.ident_node(i));
                            Ok((Node::CallExpr { ident: id, args: a }, j))
                        },
                        Err(p) => Err(p),
                    }
                } else {
                    Ok((self.ident_node(i), i + 1))
                }
            },
            Token::LParen => match self.expr(i + 1) {
                Ok((e, j)) => {
                    if i < j && j <= n && self.tok_is(j, Token::RParen) {
                        Ok((e, j + 1))
                    } else {
                        Err(j)
                    }
                },
                Err(p) => Err(p),
            },
            Token::LBrace => self.block(i),
            _ => Err(i),
        }
    }

    fn block(&self, i: usize) -> (r: Result<(Node, usize), usize>)
        requires
            self.wf(),
        ensures
            node_res(r) == p_block(self.cs@, self.ts@, i as int),
        decreases self.ts@.len() - i, 1nat,
    {
        if self.tok_is(i, Token::LBrace) {
            match self.items(i + 1, true) {
                Ok((v, j)) => {
                    let r = Node::BlockExpr(v);
                    assert(r@ == node_view(r));
                    Ok((r, j))
                },
                Err(p) => Err(p),
            }
        } else {
            Err(i)
        }
    }

    fn items(&self, start: usize, closed: bool) -> (r: Result<(Vec<Node>, usize), usize>)
        requires
            self.wf(),
        ensures
            nodes_res(r) == p_items(self.cs@, self.ts@, start as int, closed),
        decreases self.ts@.len() - start, 7nat,
    {
        let n = self.ts.len();
        let mut out: Vec<Node> = Vec::new();
        let mut i = start;
        loop
            invariant
                self.wf(),
                n == self.ts@.len(),
                start <= i,
                i <= n || i == start,
                p_items(self.cs@, self.ts@, start as int, closed) == prepend(
                    nodes_view(out@),
                    p_items(self.cs@, self.ts@, i as int, closed),
                ),
            decreases n - i,
        {
            if i >= n {
                if closed {
                    return Err(i);
                }
                proof {
                    assert(nodes_view(out@) + Seq::<Ast>::empty() =~= nodes_view(out@));
                }
                return Ok((out, i));
            }
            if matches!(self.ts[i], Token::Semi) {
                i = i + 1;
            } else if closed && matches!(self.ts[i], Token::RBrace) {
                proof {
                    assert(nodes_view(out@) + Seq::<Ast>::empty() =~= nodes_view(out@));
                }
                return Ok((out, i + 1));
            } else {
                match self.expr(i) {
                    Err(p) => {
                        return Err(p);
                    },
                    Ok((e, j)) => {
                        if !(i < j && j <= n) {
                            return Err(i);
                        }
                        proof {
                            lemma_nodes_view_push(out@, e);
                            match p_items(self.cs@, self.ts@, j as int, closed) {
                                Some((rest, k)) => {
                                    assert(nodes_view(out@).push(e@) + rest =~= nodes_view(out@) + (seq![e@] + rest));
                                },
                                None => {},
                            }
                        }
                        out.push(e);
                        i = j;
                    },
                }
            }
        }
    }

    fn args(&self, i: usize) -> (r: Result<(Vec<Node>, usize), usize>)
        requires
            self.wf(),
        ensures
            nodes_res(r) == p_args(self.cs@, self.ts@, i as int),
        decreases self.ts@.len() - i, 8nat,
    {
        if self.tok_is(i, Token::RParen) {
            let v: Vec<Node> = Vec::new();
            proof {
                assert(nodes_view(v@) =~= Seq::<Ast>::empty());
            }
            Ok((v, i + 1))
        } else {
            self.arg_list(i)
        }
    }

    fn arg_list(&self, start: usize) -> (r: Result<(Vec<Node>, usize), usize>)
        requires
            self.wf(),
        ensures
            nodes_res(r) == p_arg_list(self.cs@, self.ts@, start as int),
        decreases self.ts@.len() - start, 7nat,
    {
        let n = self.ts.len();
        let mut out: Vec<Node> = Vec::new();
        let mut i = start;
        loop
            invariant
                self.wf(),
                n == self.ts@.len(),
                start <= i,
                i <= n || i == start,
                p_arg_list(self.cs@, self.ts@, start as int) == prepend(
                    nodes_view(out@),
                    p_arg_list(self.cs@, self.ts@, i as int),
                ),
            decreases n - i,
        {
            match self.expr(i) {
                Err(p) => {
                    return Err(p);
                },
                Ok((e, j)) => {
                    if !(i < j && j <= n) {
                        return Err(i);
                    }
                    proof {
                        lemma_nodes_view_push(out@, e);
                    }
                    if self.tok_is(j, Token::Comma) {
                        proof {
                            match p_arg_list(self.cs@, self.ts@, j + 1) {
                                Some((rest, k)) => {
                                    assert(nodes_view(out@).push(e@) + rest =~= nodes_view(out@) + (seq![e@] + rest));
                                },
                                None => {},
                            }
                        }
                        out.push(e);
                        i = j + 1;
                    } else if self.tok_is(j, Token::RParen) {
                        proof {
                            assert(nodes_view(out@).push(e@) =~= nodes_view(out@) + seq![e@]);
                        }
                        out.push(e);
                        return Ok((out, j + 1));
                    } else {
                        return Err(j);
                    }
                },
            }
        }
    }

    fn params(&self, start: usize) -> (r: Result<(Vec<String>, usize), usize>)
        requires
            self.wf(),
        ensures
            names_res(r) == p_params(self.cs@, self.ts@, start as int),
    {
        let n = self.ts.len();
        let mut out: Vec<String> = Vec::new();
        if self.tok_is(start, Token::RParen) {
            proof {
                assert(names_view(out@) =~= Seq::<Seq<char>>::empty());
            }
            return Ok((out, start + 1));
        }
        let mut i = start;
        loop
            invariant
                self.wf(),
                n == self.ts@.len(),
                start <= i,
                i <= n || i == start,
                !is_tok(self.ts@, start as int, Token::RParen),
                p_names(self.cs@, self.ts@, start as int) == prepend(
                    names_view(out@),
                    p_names(self.cs@, self.ts@, i as int),
                ),
            decreases n - i,
        {
            if !self.ident_at(i) {
                return Err(i);
            }
            let nm = self.name(i);
            proof {
                assert(names_view(out@.push(nm)) =~= names_view(out@).push(nm@));
            }
            if self.tok_is(i + 1, Token::Comma) {
                proof {
                    match p_names(self.cs@, self.ts@, i + 2) {
                        Some((rest, k)) => {
                            assert(names_view(out@).push(nm@) + rest =~= names_view(out@) + (seq![nm@] + rest));
                        },
                        None => {},
                    }
                }
                out.push(nm);
                i = i + 2;
            } else if self.tok_is(i + 1, Token::RParen) {
                proof {
                    assert(names_view(out@).push(nm@) =~= names_view(out@) + seq![nm@]);
                }
                out.push(nm);
                return Ok((out, i + 2));
            } else {
                return Err(i + 1);
            }
        }
    }
}

/// Bytes that UTF-8 takes for `c`.
pub open spec fn utf8_width(c: char) -> nat {
    if (c as u32) < 0x80 {
        1
    } else if (c as u32) < 0x800 {
        2
    } else if (c as u32) < 0x10000 {
        3
    } else {
        4
    }
}

/// Bytes that UTF-8 takes for all of `cs`.
pub open spec fn utf8_len(cs: Seq<char>) -> nat
    decreases cs.len(),
{
    if cs.len() == 0 {
        0
    } else {
        utf8_len(cs.drop_last()) + utf8_width(cs.last())
    }
}

/// The byte offset of character `p` (saturated at `usize::MAX`).
fn byte_offset(cs: &Vec<char>, p: usize) -> (r: usize)
    requires
        p <= cs@.len(),
    ensures
        utf8_len(cs@.take(p as int)) <= usize::MAX ==> r == utf8_len(cs@.take(p as int)),
{
    let mut total: usize = 0;
    let mut k: usize = 0;
    assert(cs@.take(0) =~= Seq::<char>::empty());
    while k < p
        invariant
            k <= p <= cs@.len(),
            utf8_len(cs@.take(k as int)) <= usize::MAX ==> total == utf8_len(cs@.take(k as int)),
        decreases p - k,
    {
        let c = cs[k] as u32;
        let w: usize = if c < 0x80 {
            1
        } else if c < 0x800 {
            2
        } else if c < 0x10000 {
            3
        } else {
            4
        };
        proof {
            let next = cs@.take(k + 1);
            assert(next.drop_last() =~= cs@.take(k as int));
            assert(next.last() == cs@[k as int]);
            assert(w == utf8_width(cs@[k as int]));
        }
        if total <= usize::MAX - w {
            total = total + w;
        } else {
            total = usize::MAX;
        }
        k = k + 1;
    }
    total
}

/// Parses a program into its top-level expressions, in order.
pub fn parse(string: &str) -> (r: Result<Vec<Node>, ParseError>)
    ensures
        match r {
            Ok(nodes) => parsed(string@) == Some(nodes_view(nodes@)),
            Err(_) => parsed(string@) is None,
        },
{
    let cs = source_chars(string);
    match tokenize(&cs) {
        Err(p) => Err(ParseError { offset: byte_offset(&cs, p) }),
        Ok((ts, starts)) => {
            let parser = Parser { src: string, cs, ts };
            match parser.items(0, false) {
                Ok((v, _)) => Ok(v),
                Err(k) => {
                    let at = if k < starts.len() {
                        starts[k]
                    } else {
                        parser.cs.len()
                    };
                    Err(ParseError { offset: byte_offset(&parser.cs, at) })
                },
            }
        },
    }
}


pub open spec fn digit_char(v: u8) -> char {
    if v == 0 {
        '0'
    } else if v == 1 {
        '1'
    } else if v == 2 {
        '2'
    } else if v == 3 {
        '3'
    } else if v == 4 {
        '4'
    } else if v == 5 {
        '5'
    } else if v == 6 {
        '6'
    } else if v == 7 {
        '7'
    } else if v == 8 {
        '8'
    } else {
        '9'
    }
}

pub open spec fn digit_chars(ds: Seq<u8>) -> Seq<char> {
    ds.map_values(|v: u8| digit_char(v))
}

/// How a literal is written: its whole digits, then a point and its fraction
/// digits if it has any.
pub open spec fn literal_text(d: Digits) -> Seq<char> {
    let w = digit_chars(d.whole);
    if d.frac.len() > 0 {
        w + seq!['.'] + digit_chars(d.frac)
    } else {
        w
    }
}

proof fn lemma_digit_chars(ds: Seq<u8>)
    requires
        crate::ast::all_digits(ds),
    ensures
        digit_values(digit_chars(ds)) == ds,
        forall|k: int| 0 <= k < ds.len() ==> is_digit(#[trigger] digit_chars(ds)[k]),
{
    let cs = digit_chars(ds);
    assert forall|k: int| 0 <= k < ds.len() implies digit_values(cs)[k] == ds[k] && is_digit(cs[k]) by {
        assert(ds[k] < 10);
    }
    assert(digit_values(cs) =~= ds);
}

proof fn lemma_digits_end(cs: Seq<char>, i: int, k: int)
    requires
        0 <= i <= k <= cs.len(),
        forall|m: int| i <= m < k ==> is_digit(#[trigger] cs[m]),
        k == cs.len() || !is_digit(cs[k]),
    ensures
        digits_end(cs, i) == k,
    decreases k - i,
{
    if i < k {
        lemma_digits_end(cs, i + 1, k);
    }
}

/// A literal's text parses back to that very literal, alone.
pub proof fn literal_round_trip(d: Digits)
    requires
        d.wf(),
        d.whole.len() + d.frac.len() + 1 <= usize::MAX,
    ensures
        parsed(literal_text(d)) == Some(seq![Ast::Number(d)]),
{
    let cs = literal_text(d);
    let w = digit_chars(d.whole);
    let f = digit_chars(d.frac);
    lemma_digit_chars(d.whole);
    lemma_digit_chars(d.frac);
    let wl = d.whole.len() as int;
    assert(forall|m: int| 0 <= m < wl ==> cs[m] == w[m]);
    assert(is_digit(cs[0]));
    assert(skip_trivia(cs, 0, Trivia::Code) == Some(0int));
    lemma_digits_end(cs, 0, wl);
    let t = if d.frac.len() > 0 {
        assert(cs[wl] == '.');
        assert(forall|m: int| wl + 1 <= m < cs.len() ==> cs[m] == f[m - wl - 1]);
        assert(is_digit(cs[wl + 1]));
        lemma_digits_end(cs, wl + 1, cs.len() as int);
        assert(cs.subrange(0, wl) =~= w);
        assert(cs.subrange(wl + 1, cs.len() as int) =~= f);
        let t = Token::Num { start: 0, whole_end: wl as usize, end: cs.len() as usize };
        assert(number_of(cs, t).whole == d.whole);
        assert(number_of(cs, t).frac == d.frac);
        t
    } else {
        assert(cs.subrange(0, wl) =~= w);
        assert(d.frac =~= Seq::<u8>::empty());
        let t = Token::Num { start: 0, whole_end: wl as usize, end: wl as usize };
        assert(number_of(cs, t).whole == d.whole);
        assert(number_of(cs, t).frac == d.frac);
        t
    };
    assert(token_at(cs, 0) == Some((t, cs.len() as int)));
    assert(skip_trivia(cs, cs.len() as int, Trivia::Code) == Some(cs.len() as int));
    assert(lex_from(cs, cs.len() as int) == Some(Seq::<Token>::empty()));
    assert(seq![t] + Seq::<Token>::empty() =~= seq![t]);
    assert(lex(cs) == Some(seq![t]));
    let ts = seq![t];
    assert(number_of(cs, t) == d);
    assert(p_primary(cs, ts, 0) == Some((Ast::Number(d), 1int)));
    assert(p_unary(cs, ts, 0) == Some((Ast::Number(d), 1int)));
    assert(p_climb(cs, ts, Ast::Number(d), 1, 1) == Some((Ast::Number(d), 1int)));
    assert(p_binary(cs, ts, 0, 1) == Some((Ast::Number(d), 1int)));
    assert(p_expr(cs, ts, 0) == Some((Ast::Number(d), 1int)));
    assert(p_items(cs, ts, 1, false) == Some((Seq::<Ast>::empty(), 1int)));
    assert(seq![Ast::Number(d)] + Seq::<Ast>::empty() =~= seq![Ast::Number(d)]);
}

/// Parsing is a function of the text: equal texts give equal trees.
pub proof fn parsing_is_deterministic(s: Seq<char>, t: Seq<char>, a: Seq<Node>, b: Seq<Node>)
    requires
        s == t,
        parsed(s) == Some(nodes_view(a)),
        parsed(t) == Some(nodes_view(b)),
    ensures
        nodes_view(a) == nodes_view(b),
{
}

} // verus!
