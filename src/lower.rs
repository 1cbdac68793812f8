//! Syntax trees to IR: `build` states how each node is lowered, and
//! `RecursiveBuilder::build` does it; with the laws that follow from it.

use vstd::prelude::*;
use crate::ast::{Ast, BinaryOp, Decimal, Digits, Node, UnaryOp, lemma_nodes_view, names_view, nodes_view};
use crate::builder::{
    add_const, add_global, alloca, append_block, bind, emit, enter_function, extends, fail,
    initial, keeps_valueless, leave_function, lemma_keeps_trans, lookup_function_from, lookup_global,
    lookup_var, prefix_of, push_def, resolve, set_block, valueless, BuilderModel,
};
pub use crate::builder::{LowerError, RecursiveBuilder};
use crate::ir::{FloatOp, FunctionModel, Inst, Label, Module, ModuleModel, Predicate, Slot, Value};

verus! {

pub open spec fn zero() -> Digits {
    Digits { whole: seq![0u8], frac: Seq::empty() }
}

pub open spec fn one() -> Digits {
    Digits { whole: seq![1u8], frac: Seq::empty() }
}

pub open spec fn or_nan(v: Option<Value>) -> Value {
    match v {
        Some(v) => v,
        None => Value::NaN,
    }
}

/// Fails unless an operand produced a value.
pub open spec fn need(s: BuilderModel, v: Option<Value>) -> BuilderModel {
    if v is None {
        fail(s, LowerError::NoValue)
    } else {
        s
    }
}

/// Branches to `t` when `v` is ordered and not equal to 0.0, else to `f`.
pub open spec fn branch_on(s: BuilderModel, v: Option<Value>, t: usize, f: usize) -> BuilderModel {
    let s1 = need(s, v);
    let (s2, z) = add_const(s1, zero());
    let (s3, c) = push_def(
        s2,
        Inst::Compare { dest: 0, pred: Predicate::One, lhs: or_nan(v), rhs: Value::Const(z) },
    );
    emit(s3, Inst::CondBr { cond: c, on_true: t, on_false: f })
}

pub open spec fn float_op(op: BinaryOp) -> Option<FloatOp> {
    match op {
        BinaryOp::Add => Some(FloatOp::Add),
        BinaryOp::Sub => Some(FloatOp::Sub),
        BinaryOp::Mul => Some(FloatOp::Mul),
        BinaryOp::Div => Some(FloatOp::Div),
        _ => None,
    }
}

/// Comparisons are unordered: they hold when either side is NaN.
pub open spec fn predicate(op: BinaryOp) -> Option<Predicate> {
    match op {
        BinaryOp::Eq => Some(Predicate::Ueq),
        BinaryOp::Ne => Some(Predicate::Une),
        BinaryOp::Lt => Some(Predicate::Ult),
        BinaryOp::Le => Some(Predicate::Ule),
        BinaryOp::Gt => Some(Predicate::Ugt),
        BinaryOp::Ge => Some(Predicate::Uge),
        _ => None,
    }
}

/// The instructions for `l op r` once both operands are lowered.
pub open spec fn binary(s: BuilderModel, op: BinaryOp, l: Value, r: Value) -> (BuilderModel, Option<Value>) {
    if let Some(fo) = float_op(op) {
        let (s1, v) = push_def(s, Inst::Float { dest: 0, op: fo, lhs: l, rhs: r });
        (s1, Some(v))
    } else if let Some(p) = predicate(op) {
        let (s1, c) = push_def(s, Inst::Compare { dest: 0, pred: p, lhs: l, rhs: r });
        let (s2, v) = push_def(s1, Inst::BoolToFloat { dest: 0, src: c });
        (s2, Some(v))
    } else if op == BinaryOp::Modulo {
        // l - r * trunc(l / r)
        let (s1, q) = push_def(s, Inst::Float { dest: 0, op: FloatOp::Div, lhs: l, rhs: r });
        let (s2, i) = push_def(s1, Inst::FloatToInt { dest: 0, src: q });
        let (s3, t) = push_def(s2, Inst::IntToFloat { dest: 0, src: i });
        let (s4, m) = push_def(s3, Inst::Float { dest: 0, op: FloatOp::Mul, lhs: r, rhs: t });
        let (s5, v) = push_def(s4, Inst::Float { dest: 0, op: FloatOp::Sub, lhs: l, rhs: m });
        (s5, Some(v))
    } else {
        (fail(s, LowerError::Unsupported), None)
    }
}

/// Slots for the parameters, in order: each gets an entry-block `Alloca`,
/// a store of the incoming value, and a binding.
pub open spec fn bind_params(s: BuilderModel, params: Seq<Seq<char>>) -> BuilderModel
    decreases params.len(),
{
    if params.len() == 0 {
        s
    } else {
        let s1 = bind_params(s, params.drop_last());
        let (s2, r) = alloca(s1);
        let s3 = emit(
            s2,
            Inst::Store { slot: Slot::Local(r), value: Value::Param((params.len() - 1) as usize) },
        );
        bind(s3, params.last(), r)
    }
}

/// The `Arg` instructions for a call's operands, in order.
pub open spec fn emit_args(s: BuilderModel, vs: Seq<Value>) -> BuilderModel
    decreases vs.len(),
{
    if vs.len() == 0 {
        s
    } else {
        emit(emit_args(s, vs.drop_last()), Inst::Arg { value: vs.last() })
    }
}

/// The constant a `global` starts from, if its initialiser is a literal.
pub open spec fn global_init(e: Ast) -> Option<Digits> {
    match e {
        Ast::Number(d) => Some(d),
        Ast::Bool(b) => Some(if b { one() } else { zero() }),
        _ => None,
    }
}

/// Lowers `n` at the write head: the state after and the value `n` produces.
pub open spec fn build(s: BuilderModel, n: Ast) -> (BuilderModel, Option<Value>)
    decreases n, 0nat,
{
    if !s.ok() {
        (s, None)
    } else {
        match n {
            Ast::Number(d) => {
                let (s1, c) = add_const(s, d);
                (s1, Some(Value::Const(c)))
            },
            Ast::Bool(b) => {
                let (s1, c) = add_const(s, if b { one() } else { zero() });
                (s1, Some(Value::Const(c)))
            },
            Ast::Ident(x) => match resolve(s, x) {
                Some(slot) => {
                    let (s1, v) = push_def(s, Inst::Load { dest: 0, slot });
                    (s1, Some(v))
                },
                None => (fail(s, LowerError::UnknownVariable), None),
            },
            Ast::Unary(op, c) => {
                let (s1, v) = build(s, *c);
                let s2 = need(s1, v);
                let (s3, k) = add_const(
                    s2,
                    match op {
                        UnaryOp::Sub => zero(),
                        UnaryOp::Not => one(),
                    },
                );
                let (s4, r) = push_def(
                    s3,
                    Inst::Float { dest: 0, op: FloatOp::Sub, lhs: Value::Const(k), rhs: or_nan(v) },
                );
                (s4, Some(r))
            },
            Ast::Binary(op, l, r) => {
                let (s1, lv) = build(s, *l);
                let (s2, rv) = build(s1, *r);
                binary(need(need(s2, lv), rv), op, or_nan(lv), or_nan(rv))
            },
            Ast::Block(cs) => build_seq(s, cs),
            Ast::Init(id, e) => match *id {
                Ast::Ident(x) => {
                    let (s1, v) = build(s, *e);
                    let s2 = need(s1, v);
                    let (s3, r) = alloca(s2);
                    let s4 = emit(s3, Inst::Store { slot: Slot::Local(r), value: or_nan(v) });
                    (bind(s4, x, r), None)
                },
                _ => (fail(s, LowerError::NotAnIdentifier), None),
            },
            Ast::GlobalInit(id, e) => match *id {
                Ast::Ident(x) => if s.frames.len() != 1 {
                    (fail(s, LowerError::NestedGlobal), None)
                } else {
                    match global_init(*e) {
                        Some(d) => {
                            let (s1, c) = add_const(s, d);
                            (add_global(s1, x, c), None)
                        },
                        None => (fail(s, LowerError::NonConstantGlobal), None),
                    }
                },
                _ => (fail(s, LowerError::NotAnIdentifier), None),
            },
            Ast::Assign(id, e) => match *id {
                Ast::Ident(x) => {
                    let (s1, v) = build(s, *e);
                    let s2 = need(s1, v);
                    match resolve(s2, x) {
                        Some(slot) => (emit(s2, Inst::Store { slot, value: or_nan(v) }), v),
                        None => (fail(s2, LowerError::UnknownVariable), None),
                    }
                },
                _ => (fail(s, LowerError::NotAnIdentifier), None),
            },
            Ast::Func(id, params, body) => match *id {
                Ast::Ident(x) => {
                    let s1 = enter_function(s, x, params.len());
                    let s2 = bind_params(s1, params);
                    let (s3, _) = build(s2, *body);
                    let s4 = emit(s3, Inst::Ret { value: None });
                    (leave_function(s4), None)
                },
                _ => (fail(s, LowerError::NotAnIdentifier), None),
            },
            Ast::Call(id, args) => match *id {
                Ast::Ident(x) => match lookup_function_from(s.module.functions, x, 0) {
                    Some(f) => {
                        let (s1, vs) = build_args(s, args);
                        let s2 = if args.len() != s.module.functions[f as int].arity {
                            fail(s1, LowerError::ArityMismatch)
                        } else {
                            s1
                        };
                        let s3 = emit_args(s2, vs);
                        let (s4, r) = push_def(
                            s3,
                            Inst::Call { dest: 0, callee: f as usize, argc: args.len() as usize },
                        );
                        (s4, Some(r))
                    },
                    None => (fail(s, LowerError::UnknownFunction), None),
                },
                _ => (fail(s, LowerError::NotAnIdentifier), None),
            },
            Ast::Cond(c, t, e) => {
                let (s1, cv) = build(s, *c);
                let (s2, tb) = append_block(s1, Label::Then);
                let (s3, eb) = append_block(s2, Label::Else);
                let (s4, kb) = append_block(s3, Label::IfCont);
                let s5 = set_block(branch_on(s4, cv, tb, eb), tb);
                let (s6, tv) = build(s5, *t);
                let s7 = emit(s6, Inst::Br { target: kb });
                let t_end = s7.top().block as usize;
                let s8 = set_block(s7, eb);
                let (s9, ev) = match e {
                    Some(e) => build(s8, *e),
                    None => (s8, None),
                };
                let s10 = emit(s9, Inst::Br { target: kb });
                let e_end = s10.top().block as usize;
                let (s11, r) = push_def(
                    set_block(s10, kb),
                    Inst::Phi {
                        dest: 0,
                        first: or_nan(tv),
                        first_from: t_end,
                        second: or_nan(ev),
                        second_from: e_end,
                    },
                );
                (s11, Some(r))
            },
            Ast::While(c, body) => {
                let (s1, lb) = append_block(s, Label::Loop);
                let (s2, xb) = append_block(s1, Label::ExitLoop);
                let (s3, cv) = build(s2, *c);
                let s4 = set_block(branch_on(s3, cv, lb, xb), lb);
                let (s5, _) = build(s4, *body);
                let (s6, cv2) = build(s5, *c);
                (set_block(branch_on(s6, cv2, lb, xb), xb), None)
            },
            Ast::Return(e) => {
                let (s1, v) = build(s, *e);
                let s2 = emit(need(s1, v), Inst::Ret { value: Some(or_nan(v)) });
                let (s3, d) = append_block(s2, Label::Dead);
                (set_block(s3, d), None)
            },
        }
    }
}

/// Lowers `cs` in order; the value is the last one's (none for no nodes).
pub open spec fn build_seq(s: BuilderModel, cs: Seq<Ast>) -> (BuilderModel, Option<Value>)
    decreases cs, 1nat,
{
    if cs.len() == 0 {
        (s, None)
    } else {
        let (s1, _) = build_seq(s, cs.drop_last());
        build(s1, cs[cs.len() - 1])
    }
}

/// Lowers call operands left to right; each must produce a value.
pub open spec fn build_args(s: BuilderModel, cs: Seq<Ast>) -> (BuilderModel, Seq<Value>)
    decreases cs, 1nat,
{
    if cs.len() == 0 {
        (s, Seq::empty())
    } else {
        let (s1, vs) = build_args(s, cs.drop_last());
        let (s2, v) = build(s1, cs[cs.len() - 1]);
        (need(s2, v), vs.push(or_nan(v)))
    }
}


pub open spec fn has_return(n: Ast) -> bool
    decreases n, 0nat,
{
    match n {
        Ast::Return(_) => true,
        Ast::Unary(_, c) => has_return(*c),
        Ast::Binary(_, l, r) => has_return(*l) || has_return(*r),
        Ast::Block(cs) => any_return(cs),
        Ast::Init(_, e) => has_return(*e),
        Ast::GlobalInit(_, e) => has_return(*e),
        Ast::Assign(_, e) => has_return(*e),
        Ast::Func(_, _, b) => has_return(*b),
        Ast::Call(_, args) => any_return(args),
        Ast::Cond(c, t, e) => has_return(*c) || has_return(*t) || match e {
            Some(e) => has_return(*e),
            None => false,
        },
        Ast::While(c, b) => has_return(*c) || has_return(*b),
        _ => false,
    }
}

pub open spec fn any_return(cs: Seq<Ast>) -> bool
    decreases cs, 1nat,
{
    if cs.len() == 0 {
        false
    } else {
        any_return(cs.drop_last()) || has_return(cs[cs.len() - 1])
    }
}

pub proof fn lemma_any_return(cs: Seq<Ast>)
    ensures
        !any_return(cs) ==> forall|i: int| 0 <= i < cs.len() ==> !has_return(#[trigger] cs[i]),
    decreases cs.len(),
{
    if cs.len() > 0 {
        lemma_any_return(cs.drop_last());
        if !any_return(cs) {
            assert forall|i: int| 0 <= i < cs.len() implies !has_return(#[trigger] cs[i]) by {
                if i < cs.len() - 1 {
                    assert(cs.drop_last()[i] == cs[i]);
                }
            }
        }
    }
}

fn zero_const() -> (r: Decimal)
    ensures
        r@ == zero(),
{
    let r = Decimal::from_u64(0);
    assert(r@.whole =~= zero().whole);
    assert(r@.frac =~= zero().frac);
    r
}

fn one_const() -> (r: Decimal)
    ensures
        r@ == one(),
{
    let r = Decimal::from_u64(1);
    assert(r@.whole =~= one().whole);
    assert(r@.frac =~= one().frac);
    r
}

fn float_op_of(op: BinaryOp) -> (r: Option<FloatOp>)
    ensures
        r == float_op(op),
{
    match op {
        BinaryOp::Add => Some(FloatOp::Add),
        BinaryOp::Sub => Some(FloatOp::Sub),
        BinaryOp::Mul => Some(FloatOp::Mul),
        BinaryOp::Div => Some(FloatOp::Div),
        _ => None,
    }
}

fn predicate_of(op: BinaryOp) -> (r: Option<Predicate>)
    ensures
        r == predicate(op),
{
    match op {
        BinaryOp::Eq => Some(Predicate::Ueq),
        BinaryOp::Ne => Some(Predicate::Une),
        BinaryOp::Lt => Some(Predicate::Ult),
        BinaryOp::Le => Some(Predicate::Ule),
        BinaryOp::Gt => Some(Predicate::Ugt),
        BinaryOp::Ge => Some(Predicate::Uge),
        _ => None,
    }
}

fn value_or_nan(v: Option<Value>) -> (r: Value)
    ensures
        r == or_nan(v),
{
    match v {
        Some(v) => v,
        None => Value::NaN,
    }
}

impl RecursiveBuilder {
    fn head(&self) -> (r: usize)
        requires
            self@.wf(),
        ensures
            r == self@.top().block,
    {
        self.top_index().1
    }

    fn need(&mut self, v: Option<Value>)
        requires
            old(self)@.wf(),
        ensures
            final(self)@ == need(old(self)@, v),
            final(self)@.wf(),
            extends(old(self)@, final(self)@),
            keeps_valueless(old(self)@, final(self)@),
    {
        if v.is_none() {
            self.fail(LowerError::NoValue);
        }
    }

    fn branch_on(&mut self, v: Option<Value>, t: usize, f: usize)
        requires
            old(self)@.wf(),
        ensures
            final(self)@ == branch_on(old(self)@, v, t, f),
            final(self)@.wf(),
            extends(old(self)@, final(self)@),
            keeps_valueless(old(self)@, final(self)@),
    {
        self.need(v);
        let z = self.add_const(zero_const());
        let c = self.push_def(
            Inst::Compare {
                dest: 0,
                pred: Predicate::One,
                lhs: value_or_nan(v),
                rhs: Value::Const(z),
            },
        );
        self.emit(Inst::CondBr { cond: c, on_true: t, on_false: f });
    }

    fn binary(&mut self, op: BinaryOp, l: Value, r: Value) -> (v: Option<Value>)
        requires
            old(self)@.wf(),
        ensures
            (final(self)@, v) == binary(old(self)@, op, l, r),
            final(self)@.wf(),
            extends(old(self)@, final(self)@),
            keeps_valueless(old(self)@, final(self)@),
    {
        if let Some(fo) = float_op_of(op) {
            Some(self.push_def(Inst::Float { dest: 0, op: fo, lhs: l, rhs: r }))
        } else if let Some(p) = predicate_of(op) {
            let c = self.push_def(Inst::Compare { dest: 0, pred: p, lhs: l, rhs: r });
            Some(self.push_def(Inst::BoolToFloat { dest: 0, src: c }))
        } else if op == BinaryOp::Modulo {
            let q = self.push_def(Inst::Float { dest: 0, op: FloatOp::Div, lhs: l, rhs: r });
            let i = self.push_def(Inst::FloatToInt { dest: 0, src: q });
            let t = self.push_def(Inst::IntToFloat { dest: 0, src: i });
            let m = self.push_def(Inst::Float { dest: 0, op: FloatOp::Mul, lhs: r, rhs: t });
            Some(self.push_def(Inst::Float { dest: 0, op: FloatOp::Sub, lhs: l, rhs: m }))
        } else {
            self.fail(LowerError::Unsupported);
            None
        }
    }

    fn bind_params(&mut self, params: &Vec<String>)
        requires
            old(self)@.wf(),
        ensures
            final(self)@ == bind_params(old(self)@, names_view(params@)),
            final(self)@.wf(),
            extends(old(self)@, final(self)@),
            keeps_valueless(old(self)@, final(self)@),
    {
        let ghost s0 = self@;
        let ghost names = names_view(params@);
        let mut i: usize = 0;
        while i < params.len()
            invariant
                i <= params@.len(),
                names == names_view(params@),
                self@.wf(),
                self@ == bind_params(s0, names.take(i as int)),
                extends(s0, self@),
                keeps_valueless(s0, self@),
            decreases params@.len() - i,
        {
            proof {
                assert(names.take(i + 1).drop_last() =~= names.take(i as int));
            }
            let ghost a = self@;
            let r = self.alloca();
            let ghost b = self@;
            self.emit(Inst::Store { slot: Slot::Local(r), value: Value::Param(i) });
            let ghost c = self@;
            self.bind(&params[i], r);
            proof {
                lemma_keeps_trans(s0, a, b);
                lemma_keeps_trans(s0, b, c);
                lemma_keeps_trans(s0, c, self@);
            }
            i = i + 1;
        }
        proof {
            assert(names.take(params@.len() as int) =~= names);
        }
    }

    fn emit_args(&mut self, vs: &Vec<Value>)
        requires
            old(self)@.wf(),
        ensures
            final(self)@ == emit_args(old(self)@, vs@),
            final(self)@.wf(),
            extends(old(self)@, final(self)@),
            keeps_valueless(old(self)@, final(self)@),
    {
        let ghost s0 = self@;
        let mut i: usize = 0;
        while i < vs.len()
            invariant
                i <= vs@.len(),
                self@.wf(),
                self@ == emit_args(s0, vs@.take(i as int)),
                extends(s0, self@),
                keeps_valueless(s0, self@),
            decreases vs@.len() - i,
        {
            proof {
                assert(vs@.take(i + 1).drop_last() =~= vs@.take(i as int));
            }
            let ghost a = self@;
            self.emit(Inst::Arg { value: vs[i] });
            proof {
                lemma_keeps_trans(s0, a, self@);
            }
            i = i + 1;
        }
        proof {
            assert(vs@.take(vs@.len() as int) =~= vs@);
        }
    }

    /// Lowers `node` at the write head and yields the value it produces.
    /// After an error nothing more is emitted; `error()` tells which.
    pub fn build(&mut self, node: &Node) -> (r: Option<Value>)
        requires
            old(self)@.wf(),
        ensures
            (final(self)@, r) == build(old(self)@, node@),
            final(self)@.wf(),
            extends(old(self)@, final(self)@),
            // A function's value comes only from its `return`s: control that
            // falls off the end of the body returns no value, and a body
            // without `return` gives a function none of whose `ret`s has one.
            node is FuncExpr && final(self)@.ok() ==> falls_through_without_value(
                final(self)@.module.functions[old(self)@.module.functions.len() as int],
            ),
            node is FuncExpr && final(self)@.ok() && !has_return(node@) ==> valueless(
                final(self)@.module.functions[old(self)@.module.functions.len() as int],
            ),
            // `let x = e` makes `x` resolve to its new slot.
            let_name(node@) is Some && final(self)@.ok() ==> resolve(
                final(self)@,
                let_name(node@)->0,
            ) == Some(Slot::Local(final(self)@.top().vars.last().1 as usize)),

            !has_return(node@) ==> keeps_valueless(old(self)@, final(self)@),
        decreases node, 1nat,
    {
        if self.error.is_some() {
            return None;
        }
        match node {
            Node::NumberExpr(d) => {
                let c = self.add_const(d.duplicate());
                Some(Value::Const(c))
            },
            Node::BoolExpr(b) => {
                let c = self.add_const(if *b { one_const() } else { zero_const() });
                Some(Value::Const(c))
            },
            Node::IdentExpr(x) => match self.resolve(x) {
                Some(slot) => Some(self.push_def(Inst::Load { dest: 0, slot })),
                None => {
                    self.fail(LowerError::UnknownVariable);
                    None
                },
            },
            Node::UnaryExpr { .. } => self.build_unary(node),
            Node::BinaryExpr { .. } => self.build_binary(node),
            Node::BlockExpr(..) => self.build_block(node),
            Node::InitExpr { .. } => self.build_init(node),
            Node::GlobalInitExpr { .. } => self.build_global_init(node),
            Node::AssignExpr { .. } => self.build_assign(node),
            Node::FuncExpr { .. } => self.build_func(node),
            Node::CallExpr { .. } => self.build_call(node),
            Node::CondExpr { .. } => self.build_cond(node),
            Node::WhileExpr { .. } => self.build_while(node),
            Node::ReturnExpr { .. } => self.build_return(node),
        }
    }

    #[verifier::rlimit(40)]
    fn build_unary(&mut self, node: &Node) -> (r: Option<Value>)
        requires
            old(self)@.wf(),
            old(self)@.ok(),
            node is UnaryExpr,
        ensures
            (final(self)@, r) == build(old(self)@, node@),
            final(self)@.wf(),
            extends(old(self)@, final(self)@),

            !has_return(node@) ==> keeps_valueless(old(self)@, final(self)@),
        decreases node, 0nat,
    {
        match node {
            Node::UnaryExpr { op, child } => {
                let v = self.build(child);
                self.need(v);
                let k = self.add_const(
                    match op {
                        UnaryOp::Sub => zero_const(),
                        UnaryOp::Not => one_const(),
                    },
                );
                Some(
                    self.push_def(
                        Inst::Float {
                            dest: 0,
                            op: FloatOp::Sub,
                            lhs: Value::Const(k),
                            rhs: value_or_nan(v),
                        },
                    ),
                )
            },
            _ => None,
        }
    }

    #[verifier::rlimit(40)]
    fn build_binary(&mut self, node: &Node) -> (r: Option<Value>)
        requires
            old(self)@.wf(),
            old(self)@.ok(),
            node is BinaryExpr,
        ensures
            (final(self)@, r) == build(old(self)@, node@),
            final(self)@.wf(),
            extends(old(self)@, final(self)@),

            !has_return(node@) ==> keeps_valueless(old(self)@, final(self)@),
        decreases node, 0nat,
    {
        match node {
            Node::BinaryExpr { op, lhs, rhs } => {
                let lv = self.build(lhs);
                let rv = self.build(rhs);
                self.need(lv);
                self.need(rv);
                self.binary(*op, value_or_nan(lv), value_or_nan(rv))
            },
            _ => None,
        }
    }

    #[verifier::rlimit(40)]
    fn build_block(&mut self, node: &Node) -> (r: Option<Value>)
        requires
            old(self)@.wf(),
            old(self)@.ok(),
            node is BlockExpr,
        ensures
            (final(self)@, r) == build(old(self)@, node@),
            final(self)@.wf(),
            extends(old(self)@, final(self)@),

            !has_return(node@) ==> keeps_valueless(old(self)@, final(self)@),
        decreases node, 0nat,
    {
        match node {
            Node::BlockExpr(cs) => {
                let ghost s0 = self@;
                let ghost cv = nodes_view(cs@);
                proof {
                    lemma_nodes_view(cs@);
                    assert(node@ == Ast::Block(cv));
                    lemma_any_return(cv);
                }
                let mut result: Option<Value> = None;
                let mut i: usize = 0;
                while i < cs.len()
                    invariant
                        i <= cs@.len(),
                        cv == nodes_view(cs@),
                        node is BlockExpr,
                        node->BlockExpr_0 == *cs,
                        cv.len() == cs@.len(),
                        forall|j: int| 0 <= j < cs@.len() ==> #[trigger] cv[j] == crate::ast::node_view(cs@[j]),
                        self@.wf(),
                        (self@, result) == build_seq(s0, cv.take(i as int)),
                        extends(s0, self@),
                        !has_return(node@) ==> keeps_valueless(s0, self@),
                        !has_return(node@) ==> forall|j: int| 0 <= j < cv.len() ==> !has_return(#[trigger] cv[j]),
                    decreases cs@.len() - i,
                {
                    proof {
                        assert(cv.take(i + 1).drop_last() =~= cv.take(i as int));
                        assert(cv.take(i + 1)[i as int] == cv[i as int]);
                    }
                    let ghost a = self@;
                    result = self.build(&cs[i]);
                    proof {
                        if !has_return(node@) {
                            assert(!has_return(cv[i as int]));
                            lemma_keeps_trans(s0, a, self@);
                        }
                    }
                    i = i + 1;
                }
                proof {
                    assert(cv.take(cs@.len() as int) =~= cv);
                }
                result
            },
            _ => None,
        }
    }

    #[verifier::rlimit(40)]
    fn build_init(&mut self, node: &Node) -> (r: Option<Value>)
        requires
            old(self)@.wf(),
            old(self)@.ok(),
            node is InitExpr,
        ensures
            (final(self)@, r) == build(old(self)@, node@),
            final(self)@.wf(),
            extends(old(self)@, final(self)@),
            final(self)@.ok() ==> resolve(final(self)@, let_name(node@)->0) == Some(
                Slot::Local(final(self)@.top().vars.last().1 as usize),
            ),

            !has_return(node@) ==> keeps_valueless(old(self)@, final(self)@),
        decreases node, 0nat,
    {
        match node {
            Node::InitExpr { ident, expr } => match &**ident {
                Node::IdentExpr(x) => {
                    proof {
                        assert(crate::ast::node_view(**ident) == Ast::Ident(x@));
                    }
                    let v = self.build(expr);
                    self.need(v);
                    let r = self.alloca();
                    self.emit(Inst::Store { slot: Slot::Local(r), value: value_or_nan(v) });
                    let ghost before = self@;
                    self.bind(x, r);
                    proof {
                        if self@.ok() {
                            bind_resolves(before, x@, r);
                        }
                    }
                    None
                },
                _ => {
                    proof {
                        assert(!(crate::ast::node_view(**ident) is Ident));
                    }
                    self.fail(LowerError::NotAnIdentifier);
                    None
                },
            },
            _ => None,
        }
    }

    #[verifier::rlimit(40)]
    fn build_global_init(&mut self, node: &Node) -> (r: Option<Value>)
        requires
            old(self)@.wf(),
            old(self)@.ok(),
            node is GlobalInitExpr,
        ensures
            (final(self)@, r) == build(old(self)@, node@),
            final(self)@.wf(),
            extends(old(self)@, final(self)@),

            !has_return(node@) ==> keeps_valueless(old(self)@, final(self)@),
        decreases node, 0nat,
    {
        match node {
            Node::GlobalInitExpr { ident, expr } => match &**ident {
                Node::IdentExpr(x) => {
                    proof {
                        assert(crate::ast::node_view(**ident) == Ast::Ident(x@));
                    }
                    if self.frames.len() != 1 {
                        self.fail(LowerError::NestedGlobal);
                        return None;
                    }
                    let init = match &**expr {
                        Node::NumberExpr(d) => {
                            proof {
                                assert(crate::ast::node_view(**expr) == Ast::Number(d@));
                            }
                            Some(d.duplicate())
                        },
                        Node::BoolExpr(b) => {
                            proof {
                                assert(crate::ast::node_view(**expr) == Ast::Bool(*b));
                            }
                            Some(if *b { one_const() } else { zero_const() })
                        },
                        _ => {
                            proof {
                                assert(global_init(crate::ast::node_view(**expr)) is None);
                            }
                            None
                        },
                    };
                    match init {
                        Some(d) => {
                            let c = self.add_const(d);
                            self.add_global(x, c);
                        },
                        None => self.fail(LowerError::NonConstantGlobal),
                    }
                    None
                },
                _ => {
                    proof {
                        assert(!(crate::ast::node_view(**ident) is Ident));
                    }
                    self.fail(LowerError::NotAnIdentifier);
                    None
                },
            },
            _ => None,
        }
    }

    #[verifier::rlimit(40)]
    fn build_assign(&mut self, node: &Node) -> (r: Option<Value>)
        requires
            old(self)@.wf(),
            old(self)@.ok(),
            node is AssignExpr,
        ensures
            (final(self)@, r) == build(old(self)@, node@),
            final(self)@.wf(),
            extends(old(self)@, final(self)@),

            !has_return(node@) ==> keeps_valueless(old(self)@, final(self)@),
        decreases node, 0nat,
    {
        match node {
            Node::AssignExpr { ident, expr } => match &**ident {
                Node::IdentExpr(x) => {
                    proof {
                        assert(crate::ast::node_view(**ident) == Ast::Ident(x@));
                    }
                    let v = self.build(expr);
                    self.need(v);
                    match self.resolve(x) {
                        Some(slot) => {
                            self.emit(Inst::Store { slot, value: value_or_nan(v) });
                            v
                        },
                        None => {
                            self.fail(LowerError::UnknownVariable);
                            None
                        },
                    }
                },
                _ => {
                    proof {
                        assert(!(crate::ast::node_view(**ident) is Ident));
                    }
                    self.fail(LowerError::NotAnIdentifier);
                    None
                },
            },
            _ => None,
        }
    }

    #[verifier::rlimit(40)]
    fn build_func(&mut self, node: &Node) -> (r: Option<Value>)
        requires
            old(self)@.wf(),
            old(self)@.ok(),
            node is FuncExpr,
        ensures
            (final(self)@, r) == build(old(self)@, node@),
            final(self)@.wf(),
            extends(old(self)@, final(self)@),
            final(self)@.ok() ==> falls_through_without_value(
                final(self)@.module.functions[old(self)@.module.functions.len() as int],
            ),

            !has_return(node@) ==> keeps_valueless(old(self)@, final(self)@),
            final(self)@.ok() ==> final(self)@.module.functions.len() > old(self)@.module.functions.len(),
        decreases node, 0nat,
    {
        match node {
            Node::FuncExpr { ident, args, body } => match &**ident {
                Node::IdentExpr(x) => {
                    proof {
                        assert(crate::ast::node_view(**ident) == Ast::Ident(x@));
                    }
                    self.enter_function(x, args.len());
                    self.bind_params(args);
                    let _ = self.build(body);
                    self.emit(Inst::Ret { value: None });
                    let ghost end = self@.top().block;
                    let ghost fi = self@.top().func;
                    self.leave_function();
                    proof {
                        if self@.ok() {
                            let f = self@.module.functions[fi as int];
                            assert(f.blocks[end as int].insts.last() == Inst::Ret { value: None });
                        }
                    }
                    None
                },
                _ => {
                    proof {
                        assert(!(crate::ast::node_view(**ident) is Ident));
                    }
                    self.fail(LowerError::NotAnIdentifier);
                    None
                },
            },
            _ => None,
        }
    }

    #[verifier::rlimit(40)]
    fn build_call(&mut self, node: &Node) -> (r: Option<Value>)
        requires
            old(self)@.wf(),
            old(self)@.ok(),
            node is CallExpr,
        ensures
            (final(self)@, r) == build(old(self)@, node@),
            final(self)@.wf(),
            extends(old(self)@, final(self)@),

            !has_return(node@) ==> keeps_valueless(old(self)@, final(self)@),
        decreases node, 0nat,
    {
        match node {
            Node::CallExpr { ident, args } => match &**ident {
                Node::IdentExpr(x) => match self.lookup_function(x) {
                    Some(f) => {
                        proof {
                            assert(crate::ast::node_view(**ident) == Ast::Ident(x@));
                        }
                        let arity = self.module.functions[f].arity;
                        let ghost s0 = self@;
                        let ghost av = nodes_view(args@);
                        proof {
                            lemma_nodes_view(args@);
                            assert(node@ == Ast::Call(Box::new(Ast::Ident(x@)), av));
                            lemma_any_return(av);
                        }
                        let mut vals: Vec<Value> = Vec::new();
                        let mut i: usize = 0;
                        while i < args.len()
                            invariant
                                i <= args@.len(),
                                av == nodes_view(args@),
                                node is CallExpr,
                                node->CallExpr_args == *args,
                                av.len() == args@.len(),
                                forall|j: int| 0 <= j < args@.len() ==> #[trigger] av[j] == crate::ast::node_view(args@[j]),
                                self@.wf(),
                                (self@, vals@) == build_args(s0, av.take(i as int)),
                                extends(s0, self@),
                                !has_return(node@) ==> keeps_valueless(s0, self@),
                                !has_return(node@) ==> forall|j: int| 0 <= j < av.len() ==> !has_return(#[trigger] av[j]),
                            decreases args@.len() - i,
                        {
                            proof {
                                assert(av.take(i + 1).drop_last() =~= av.take(i as int));
                                assert(av.take(i + 1)[i as int] == av[i as int]);
                            }
                            let ghost a = self@;
                            let v = self.build(&args[i]);
                            let ghost b = self@;
                            self.need(v);
                            proof {
                                if !has_return(node@) {
                                    assert(!has_return(av[i as int]));
                                    lemma_keeps_trans(s0, a, b);
                                    lemma_keeps_trans(s0, b, self@);
                                }
                            }
                            vals.push(value_or_nan(v));
                            i = i + 1;
                        }
                        proof {
                            assert(av.take(args@.len() as int) =~= av);
                        }
                        if args.len() != arity {
                            self.fail(LowerError::ArityMismatch);
                        }
                        self.emit_args(&vals);
                        Some(self.push_def(Inst::Call { dest: 0, callee: f, argc: args.len() }))
                    },
                    None => {
                        proof {
                            assert(crate::ast::node_view(**ident) == Ast::Ident(x@));
                        }
                        self.fail(LowerError::UnknownFunction);
                        None
                    },
                },
                _ => {
                    proof {
                        assert(!(crate::ast::node_view(**ident) is Ident));
                    }
                    self.fail(LowerError::NotAnIdentifier);
                    None
                },
            },
            _ => None,
        }
    }

    #[verifier::rlimit(100)]
    fn build_cond(&mut self, node: &Node) -> (r: Option<Value>)
        requires
            old(self)@.wf(),
            old(self)@.ok(),
            node is CondExpr,
        ensures
            (final(self)@, r) == build(old(self)@, node@),
            final(self)@.wf(),
            extends(old(self)@, final(self)@),

            !has_return(node@) ==> keeps_valueless(old(self)@, final(self)@),
        decreases node, 0nat,
    {
        match node {
            Node::CondExpr { cond, cons, alter } => {
                let cv = self.build(cond);
                let tb = self.append_block(Label::Then);
                let eb = self.append_block(Label::Else);
                let kb = self.append_block(Label::IfCont);
                self.branch_on(cv, tb, eb);
                self.set_block(tb);
                let tv = self.build(cons);
                self.emit(Inst::Br { target: kb });
                let t_end = self.head();
                self.set_block(eb);
                let ev = match alter {
                    Some(e) => self.build(e),
                    None => None,
                };
                self.emit(Inst::Br { target: kb });
                let e_end = self.head();
                self.set_block(kb);
                let r = self.push_def(
                    Inst::Phi {
                        dest: 0,
                        first: value_or_nan(tv),
                        first_from: t_end,
                        second: value_or_nan(ev),
                        second_from: e_end,
                    },
                );
                Some(r)
            },
            _ => None,
        }
    }

    #[verifier::rlimit(40)]
    fn build_while(&mut self, node: &Node) -> (r: Option<Value>)
        requires
            old(self)@.wf(),
            old(self)@.ok(),
            node is WhileExpr,
        ensures
            (final(self)@, r) == build(old(self)@, node@),
            final(self)@.wf(),
            extends(old(self)@, final(self)@),

            !has_return(node@) ==> keeps_valueless(old(self)@, final(self)@),
        decreases node, 0nat,
    {
        match node {
            Node::WhileExpr { cond, body } => {
                let lb = self.append_block(Label::Loop);
                let xb = self.append_block(Label::ExitLoop);
                let cv = self.build(cond);
                self.branch_on(cv, lb, xb);
                self.set_block(lb);
                let _ = self.build(body);
                let cv2 = self.build(cond);
                self.branch_on(cv2, lb, xb);
                self.set_block(xb);
                None
            },
            _ => None,
        }
    }

    #[verifier::rlimit(40)]
    fn build_return(&mut self, node: &Node) -> (r: Option<Value>)
        requires
            old(self)@.wf(),
            old(self)@.ok(),
            node is ReturnExpr,
        ensures
            (final(self)@, r) == build(old(self)@, node@),
            final(self)@.wf(),
            extends(old(self)@, final(self)@),

            !has_return(node@) ==> keeps_valueless(old(self)@, final(self)@),
        decreases node, 0nat,
    {
        match node {
            Node::ReturnExpr { ret } => {
                let v = self.build(ret);
                self.need(v);
                self.emit(Inst::Ret { value: Some(value_or_nan(v)) });
                let d = self.append_block(Label::Dead);
                self.set_block(d);
                None
            },
            _ => None,
        }
    }
}


/// Control that reaches the end of the body meets a `ret` without a value:
/// a function's result comes only from its `return` expressions.
pub open spec fn falls_through_without_value(f: FunctionModel) -> bool {
    exists|b: int|
        0 <= b < f.blocks.len() && #[trigger] f.blocks[b].insts.len() > 0
            && f.blocks[b].insts.last() == Inst::Ret { value: None }
}

/// The module for a program: `jit`, of no parameters, runs the top-level
/// nodes in order and returns the last one's value, or NaN if it has none.
pub open spec fn lowering(nodes: Seq<Ast>) -> Result<ModuleModel, LowerError> {
    let (s1, v) = build_seq(initial(), nodes);
    let s2 = emit(s1, Inst::Ret { value: Some(or_nan(v)) });
    match s2.error {
        Some(e) => Err(e),
        None => Ok(s2.module),
    }
}

pub open spec fn module_result(r: Result<Module, LowerError>) -> Result<ModuleModel, LowerError> {
    match r {
        Ok(m) => Ok(m@),
        Err(e) => Err(e),
    }
}

/// Lowers a program into a module whose `jit` function computes its value.
pub fn lower(nodes: &Vec<Node>) -> (r: Result<Module, LowerError>)
    ensures
        module_result(r) == lowering(nodes_view(nodes@)),
        r matches Ok(m) ==> m@.wf(),
{
    let mut b = RecursiveBuilder::new();
    let ghost s0 = b@;
    let ghost cv = nodes_view(nodes@);
    proof {
        lemma_nodes_view(nodes@);
    }
    let mut result: Option<Value> = None;
    let mut i: usize = 0;
    while i < nodes.len()
        invariant
            i <= nodes@.len(),
            s0 == initial(),
            cv == nodes_view(nodes@),
            cv.len() == nodes@.len(),
            forall|j: int| 0 <= j < nodes@.len() ==> #[trigger] cv[j] == crate::ast::node_view(nodes@[j]),
            b@.wf(),
            (b@, result) == build_seq(s0, cv.take(i as int)),
        decreases nodes@.len() - i,
    {
        proof {
            assert(cv.take(i + 1).drop_last() =~= cv.take(i as int));
            assert(cv.take(i + 1)[i as int] == cv[i as int]);
        }
        result = b.build(&nodes[i]);
        i = i + 1;
    }
    proof {
        assert(cv.take(nodes@.len() as int) =~= cv);
    }
    b.emit(Inst::Ret { value: Some(value_or_nan(result)) });
    match b.error {
        Some(e) => Err(e),
        None => Ok(b.module),
    }
}

/// Lowering is a function of the syntax tree: two programs with the same
/// tree give the same module, instruction for instruction.
pub proof fn lowering_is_deterministic(a: Seq<Ast>, b: Seq<Ast>, ma: Module, mb: Module)
    requires
        a == b,
        lowering(a) == Ok::<ModuleModel, LowerError>(ma@),
        lowering(b) == Ok::<ModuleModel, LowerError>(mb@),
    ensures
        ma@ == mb@,
{
}

/// A non-empty block produces exactly the value of its last child, lowered
/// after the others.
pub proof fn block_value_is_last_child_value(s: BuilderModel, cs: Seq<Ast>)
    requires
        s.ok(),
        cs.len() > 0,
    ensures
        build(s, Ast::Block(cs)) == build(build_seq(s, cs.drop_last()).0, cs.last()),
{
    assert(build(s, Ast::Block(cs)) == build_seq(s, cs));
    assert(cs[cs.len() - 1] == cs.last());
}

/// Bindings only ever get added to a frame, and a name bound in a frame stays
/// resolvable in every extension of it (to its latest binding).
pub proof fn binding_stays_resolvable(
    vars: Seq<(Seq<char>, nat)>,
    later: Seq<(Seq<char>, nat)>,
    x: Seq<char>,
)
    requires
        prefix_of(vars, later),
        lookup_var(vars, x) is Some,
    ensures
        lookup_var(later, x) is Some,
    decreases later.len(),
{
    if later.len() > vars.len() {
        if later.last().0 != x {
            assert(prefix_of(vars, later.drop_last()));
            binding_stays_resolvable(vars, later.drop_last(), x);
        }
    } else {
        assert(later =~= vars);
    }
}

/// The name a `let` binds.
pub open spec fn let_name(n: Ast) -> Option<Seq<char>> {
    match n {
        Ast::Init(id, _) => match *id {
            Ast::Ident(x) => Some(x),
            _ => None,
        },
        _ => None,
    }
}

/// Right after `bind`, the name resolves to the slot just bound.
pub proof fn bind_resolves(s: BuilderModel, x: Seq<char>, r: usize)
    requires
        s.frames.len() > 0,
        bind(s, x, r).ok(),
    ensures
        ({
            let t = bind(s, x, r);
            &&& t.top().vars.last() == (x, r as nat)
            &&& resolve(t, x) == Some(Slot::Local(r))
        }),
{
}

/// A name bound in the current function (a parameter or a `let`) hides a
/// global of the same name.
pub proof fn locals_shadow_globals(s: BuilderModel, x: Seq<char>, g: nat)
    requires
        lookup_var(s.top().vars, x) is Some,
        lookup_global(s.module.globals, x) == Some(g),
    ensures
        resolve(s, x) == Some(Slot::Local(lookup_var(s.top().vars, x)->0 as usize)),
{
}

} // verus!
