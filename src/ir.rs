//! The IR: functions of basic blocks of SSA instructions over doubles.

use vstd::prelude::*;
use crate::ast::{Decimal, Digits};

verus! {

/// An SSA operand: a pooled constant, the NaN sentinel, the result of an
/// instruction of the same function, or one of that function's parameters.
#[derive(Debug, Copy, Clone, PartialEq, Eq)]
pub enum Value {
    Const(usize),
    NaN,
    Reg(usize),
    Param(usize),
}

/// Storage a variable lives in: an `Alloca` of the current function (named by
/// its register) or a module-level global (named by its index).
#[derive(Debug, Copy, Clone, PartialEq, Eq)]
pub enum Slot {
    Local(usize),
    Global(usize),
}

#[derive(Debug, Copy, Clone, PartialEq, Eq)]
pub enum FloatOp {
    Add,
    Sub,
    Mul,
    Div,
}

/// Float comparison predicates. The `U` ones are unordered (true when either
/// side is NaN); `One` is ordered-not-equal.
#[derive(Debug, Copy, Clone, PartialEq, Eq)]
pub enum Predicate {
    Ueq,
    Une,
    Ult,
    Ule,
    Ugt,
    Uge,
    One,
}

/// What a block was created for; backends use it as the block's name.
#[derive(Debug, Copy, Clone, PartialEq, Eq)]
pub enum Label {
    Entry,
    Then,
    Else,
    IfCont,
    Loop,
    ExitLoop,
    Dead,
}

/// One instruction. Those with a `dest` define the register of that number.
/// A `Call` takes as its operands the `argc` `Arg` instructions right before it.
#[derive(Debug, Copy, Clone, PartialEq, Eq)]
pub enum Inst {
    Alloca { dest: usize },
    Load { dest: usize, slot: Slot },
    Store { slot: Slot, value: Value },
    Float { dest: usize, op: FloatOp, lhs: Value, rhs: Value },
    Compare { dest: usize, pred: Predicate, lhs: Value, rhs: Value },
    BoolToFloat { dest: usize, src: Value },
    FloatToInt { dest: usize, src: Value },
    IntToFloat { dest: usize, src: Value },
    Arg { value: Value },
    Call { dest: usize, callee: usize, argc: usize },
    Phi { dest: usize, first: Value, first_from: usize, second: Value, second_from: usize },
    CondBr { cond: Value, on_true: usize, on_false: usize },
    Br { target: usize },
    Ret { value: Option<Value> },
}

/// The same instruction defining register `r` instead (unchanged if it
/// defines none).
pub open spec fn with_dest(i: Inst, r: usize) -> Inst {
    match i {
        Inst::Alloca { .. } => Inst::Alloca { dest: r },
        Inst::Load { slot, .. } => Inst::Load { dest: r, slot },
        Inst::Float { op, lhs, rhs, .. } => Inst::Float { dest: r, op, lhs, rhs },
        Inst::Compare { pred, lhs, rhs, .. } => Inst::Compare { dest: r, pred, lhs, rhs },
        Inst::BoolToFloat { src, .. } => Inst::BoolToFloat { dest: r, src },
        Inst::FloatToInt { src, .. } => Inst::FloatToInt { dest: r, src },
        Inst::IntToFloat { src, .. } => Inst::IntToFloat { dest: r, src },
        Inst::Call { callee, argc, .. } => Inst::Call { dest: r, callee, argc },
        Inst::Phi { first, first_from, second, second_from, .. } => Inst::Phi {
            dest: r,
            first,
            first_from,
            second,
            second_from,
        },
        _ => i,
    }
}

pub fn set_dest(i: Inst, r: usize) -> (o: Inst)
    ensures
        o == with_dest(i, r),
{
    match i {
        Inst::Alloca { .. } => Inst::Alloca { dest: r },
        Inst::Load { slot, .. } => Inst::Load { dest: r, slot },
        Inst::Float { op, lhs, rhs, .. } => Inst::Float { dest: r, op, lhs, rhs },
        Inst::Compare { pred, lhs, rhs, .. } => Inst::Compare { dest: r, pred, lhs, rhs },
        Inst::BoolToFloat { src, .. } => Inst::BoolToFloat { dest: r, src },
        Inst::FloatToInt { src, .. } => Inst::FloatToInt { dest: r, src },
        Inst::IntToFloat { src, .. } => Inst::IntToFloat { dest: r, src },
        Inst::Call { callee, argc, .. } => Inst::Call { dest: r, callee, argc },
        Inst::Phi { first, first_from, second, second_from, .. } => Inst::Phi {
            dest: r,
            first,
            first_from,
            second,
            second_from,
        },
        _ => i,
    }
}

#[derive(Debug)]
pub struct Block {
    pub label: Label,
    pub insts: Vec<Inst>,
}

#[derive(Debug)]
pub struct Function {
    pub name: String,
    pub arity: usize,
    /// Block 0 is the entry block.
    pub blocks: Vec<Block>,
    /// Number of registers defined so far.
    pub regs: usize,
}

#[derive(Debug)]
pub struct Global {
    pub name: String,
    /// Index of the initial value in the constant pool.
    pub init: usize,
}

#[derive(Debug)]
pub struct Module {
    pub functions: Vec<Function>,
    pub globals: Vec<Global>,
    pub constants: Vec<Decimal>,
}

pub struct BlockModel {
    pub label: Label,
    pub insts: Seq<Inst>,
}

pub struct FunctionModel {
    pub name: Seq<char>,
    pub arity: nat,
    pub blocks: Seq<BlockModel>,
    pub regs: nat,
}

pub struct GlobalModel {
    pub name: Seq<char>,
    pub init: nat,
}

pub struct ModuleModel {
    pub functions: Seq<FunctionModel>,
    pub globals: Seq<GlobalModel>,
    pub constants: Seq<Digits>,
}

impl View for Block {
    type V = BlockModel;

    open spec fn view(&self) -> BlockModel {
        BlockModel { label: self.label, insts: self.insts@ }
    }
}

impl View for Function {
    type V = FunctionModel;

    open spec fn view(&self) -> FunctionModel {
        FunctionModel {
            name: self.name@,
            arity: self.arity as nat,
            blocks: self.blocks@.map_values(|b: Block| b@),
            regs: self.regs as nat,
        }
    }
}

impl View for Global {
    type V = GlobalModel;

    open spec fn view(&self) -> GlobalModel {
        GlobalModel { name: self.name@, init: self.init as nat }
    }
}

impl View for Module {
    type V = ModuleModel;

    open spec fn view(&self) -> ModuleModel {
        ModuleModel {
            functions: self.functions@.map_values(|f: Function| f@),
            globals: self.globals@.map_values(|g: Global| g@),
            constants: self.constants@.map_values(|d: Decimal| d@),
        }
    }
}

/// Stack slots are only created at the start of a function's entry block:
/// no block but the entry holds an `Alloca`, and in the entry block every
/// instruction before an `Alloca` is an `Alloca` too.
pub open spec fn allocas_in_entry(f: FunctionModel) -> bool {
    &&& forall|b: int, i: int|
        #![trigger f.blocks[b].insts[i]]
        0 < b < f.blocks.len() && 0 <= i < f.blocks[b].insts.len()
            ==> !(f.blocks[b].insts[i] is Alloca)
    &&& f.blocks.len() > 0
    &&& forall|i: int, j: int|
        #![trigger f.blocks[0].insts[i], f.blocks[0].insts[j]]
        0 <= i < j < f.blocks[0].insts.len() && f.blocks[0].insts[j] is Alloca
            ==> f.blocks[0].insts[i] is Alloca
}

impl ModuleModel {
    /// Every function has an entry block and keeps its stack slots there.
    pub open spec fn wf(self) -> bool {
        forall|f: int| 0 <= f < self.functions.len() ==> #[trigger] allocas_in_entry(self.functions[f])
    }
}

} // verus!
