//! The lowering engine's state (module, frame stack, first error), its
//! model, and the primitive operations on it, each proved to keep stack
//! slots in entry blocks.

use vstd::prelude::*;
use crate::ast::{Decimal, Digits};
use crate::ir::{
    allocas_in_entry, set_dest, with_dest, Block, BlockModel, Function, FunctionModel, Global,
    GlobalModel, Inst, Label, Module, ModuleModel, Slot, Value,
};

verus! {

/// Why a syntax tree could not be lowered.
#[derive(Debug, Copy, Clone, PartialEq, Eq)]
pub enum LowerError {
    /// An identifier that is neither a local of the current function nor a global.
    UnknownVariable,
    /// A call to a name that no function of the module has.
    UnknownFunction,
    /// A call with another number of arguments than the function declares.
    ArityMismatch,
    /// `^`, `&&` and `||` are parsed but have no lowering.
    Unsupported,
    /// A name slot (`let`, `global`, assignment, `fn`, call) that holds no identifier.
    NotAnIdentifier,
    /// `global` inside a function body.
    NestedGlobal,
    /// A `global` initialiser that is not a literal.
    NonConstantGlobal,
    /// An operand, initialiser, condition or argument that produces no value.
    NoValue,
    /// A function defines more registers than `usize` can number.
    TooManyValues,
}

/// One function being lowered: which function, where its write head is, and
/// its local variables, later bindings shadowing earlier ones.
pub struct Frame {
    pub func: usize,
    pub block: usize,
    pub vars: Vec<(String, usize)>,
}

pub struct FrameModel {
    pub func: nat,
    pub block: nat,
    pub vars: Seq<(Seq<char>, nat)>,
}

impl View for Frame {
    type V = FrameModel;

    open spec fn view(&self) -> FrameModel {
        FrameModel {
            func: self.func as nat,
            block: self.block as nat,
            vars: self.vars@.map_values(|p: (String, usize)| (p.0@, p.1 as nat)),
        }
    }
}

/// The lowering engine: the module being filled, the stack of functions
/// being lowered (the bottom one is `jit`), and the first error met, after
/// which nothing more is emitted.
pub struct RecursiveBuilder {
    pub module: Module,
    pub frames: Vec<Frame>,
    pub error: Option<LowerError>,
}

pub struct BuilderModel {
    pub module: ModuleModel,
    pub frames: Seq<FrameModel>,
    pub error: Option<LowerError>,
}

impl View for RecursiveBuilder {
    type V = BuilderModel;

    open spec fn view(&self) -> BuilderModel {
        BuilderModel {
            module: self.module@,
            frames: self.frames@.map_values(|f: Frame| f@),
            error: self.error,
        }
    }
}

impl BuilderModel {
    pub open spec fn wf(self) -> bool {
        &&& self.module.wf()
        &&& self.frames.len() > 0
        &&& forall|k: int|
            0 <= k < self.frames.len() ==> {
                let fr = #[trigger] self.frames[k];
                &&& fr.func < self.module.functions.len()
                &&& fr.block < self.module.functions[fr.func as int].blocks.len()
            }
    }

    pub open spec fn top(self) -> FrameModel {
        self.frames.last()
    }

    pub open spec fn current(self) -> FunctionModel {
        self.module.functions[self.top().func as int]
    }

    pub open spec fn ok(self) -> bool {
        self.error is None
    }
}

pub open spec fn fail(s: BuilderModel, e: LowerError) -> BuilderModel {
    if s.ok() {
        BuilderModel { error: Some(e), ..s }
    } else {
        s
    }
}

pub open spec fn with_current(s: BuilderModel, f: FunctionModel) -> BuilderModel {
    BuilderModel {
        module: ModuleModel {
            functions: s.module.functions.update(s.top().func as int, f),
            ..s.module
        },
        ..s
    }
}

pub open spec fn with_top(s: BuilderModel, fr: FrameModel) -> BuilderModel {
    BuilderModel { frames: s.frames.update(s.frames.len() - 1, fr), ..s }
}

/// Appends `inst` to the block under the write head.
pub open spec fn emit(s: BuilderModel, inst: Inst) -> BuilderModel {
    if s.ok() {
        let f = s.current();
        let b = f.blocks[s.top().block as int];
        with_current(
            s,
            FunctionModel {
                blocks: f.blocks.update(
                    s.top().block as int,
                    BlockModel { insts: b.insts.push(inst), ..b },
                ),
                ..f
            },
        )
    } else {
        s
    }
}

/// Numbers a new register of the current function.
pub open spec fn fresh(s: BuilderModel) -> (BuilderModel, usize) {
    if !s.ok() {
        (s, 0)
    } else if s.current().regs >= usize::MAX {
        (fail(s, LowerError::TooManyValues), 0)
    } else {
        (
            with_current(s, FunctionModel { regs: s.current().regs + 1, ..s.current() }),
            s.current().regs as usize,
        )
    }
}

/// Appends `inst`, defining a fresh register, and yields that register.
pub open spec fn push_def(s: BuilderModel, inst: Inst) -> (BuilderModel, Value) {
    let (s1, r) = fresh(s);
    (emit(s1, with_dest(inst, r)), Value::Reg(r))
}

/// Creates a stack slot at the start of the current function's entry block.
pub open spec fn alloca(s: BuilderModel) -> (BuilderModel, usize) {
    let (s1, r) = fresh(s);
    if s1.ok() {
        let f = s1.current();
        let b = f.blocks[0];
        (
            with_current(
                s1,
                FunctionModel {
                    blocks: f.blocks.update(
                        0,
                        BlockModel { insts: seq![Inst::Alloca { dest: r }] + b.insts, ..b },
                    ),
                    ..f
                },
            ),
            r,
        )
    } else {
        (s1, r)
    }
}

/// Adds an empty block to the current function and yields its index.
pub open spec fn append_block(s: BuilderModel, label: Label) -> (BuilderModel, usize) {
    if s.ok() {
        let f = s.current();
        (
            with_current(
                s,
                FunctionModel {
                    blocks: f.blocks.push(BlockModel { label, insts: Seq::empty() }),
                    ..f
                },
            ),
            f.blocks.len() as usize,
        )
    } else {
        (s, 0)
    }
}

/// Moves the write head to block `b` of the current function.
pub open spec fn set_block(s: BuilderModel, b: usize) -> BuilderModel {
    if s.ok() {
        with_top(s, FrameModel { block: b as nat, ..s.top() })
    } else {
        s
    }
}

pub open spec fn add_const(s: BuilderModel, d: Digits) -> (BuilderModel, usize) {
    if s.ok() {
        (
            BuilderModel {
                module: ModuleModel { constants: s.module.constants.push(d), ..s.module },
                ..s
            },
            s.module.constants.len() as usize,
        )
    } else {
        (s, 0)
    }
}

/// Binds `name` to the slot of register `r` in the current function.
pub open spec fn bind(s: BuilderModel, name: Seq<char>, r: usize) -> BuilderModel {
    if s.ok() {
        with_top(s, FrameModel { vars: s.top().vars.push((name, r as nat)), ..s.top() })
    } else {
        s
    }
}

/// Adds a function with an empty entry block and makes it the current one.
pub open spec fn enter_function(s: BuilderModel, name: Seq<char>, arity: nat) -> BuilderModel {
    if s.ok() {
        let f = FunctionModel {
            name,
            arity,
            blocks: seq![BlockModel { label: Label::Entry, insts: Seq::empty() }],
            regs: 0,
        };
        BuilderModel {
            module: ModuleModel { functions: s.module.functions.push(f), ..s.module },
            frames: s.frames.push(
                FrameModel { func: s.module.functions.len(), block: 0, vars: Seq::empty() },
            ),
            ..s
        }
    } else {
        s
    }
}

pub open spec fn leave_function(s: BuilderModel) -> BuilderModel {
    if s.ok() {
        BuilderModel { frames: s.frames.drop_last(), ..s }
    } else {
        s
    }
}

pub open spec fn add_global(s: BuilderModel, name: Seq<char>, init: usize) -> BuilderModel {
    if s.ok() {
        BuilderModel {
            module: ModuleModel {
                globals: s.module.globals.push(GlobalModel { name, init: init as nat }),
                ..s.module
            },
            ..s
        }
    } else {
        s
    }
}

/// The register of the latest binding of `x`.
pub open spec fn lookup_var(vars: Seq<(Seq<char>, nat)>, x: Seq<char>) -> Option<nat>
    decreases vars.len(),
{
    if vars.len() == 0 {
        None
    } else if vars.last().0 == x {
        Some(vars.last().1)
    } else {
        lookup_var(vars.drop_last(), x)
    }
}

/// The index of the latest global named `x`.
pub open spec fn lookup_global(gs: Seq<GlobalModel>, x: Seq<char>) -> Option<nat>
    decreases gs.len(),
{
    if gs.len() == 0 {
        None
    } else if gs.last().name == x {
        Some((gs.len() - 1) as nat)
    } else {
        lookup_global(gs.drop_last(), x)
    }
}

/// The index of the first function named `x`, at `i` or after it.
pub open spec fn lookup_function_from(fs: Seq<FunctionModel>, x: Seq<char>, i: nat) -> Option<nat>
    decreases fs.len() - i,
{
    if i >= fs.len() {
        None
    } else if fs[i as int].name == x {
        Some(i)
    } else {
        lookup_function_from(fs, x, i + 1)
    }
}

/// Local first, then global.
pub open spec fn resolve(s: BuilderModel, x: Seq<char>) -> Option<Slot> {
    match lookup_var(s.top().vars, x) {
        Some(r) => Some(Slot::Local(r as usize)),
        None => match lookup_global(s.module.globals, x) {
            Some(g) => Some(Slot::Global(g as usize)),
            None => None,
        },
    }
}


pub proof fn lemma_with_current_wf(s: BuilderModel, f: FunctionModel)
    requires
        s.wf(),
        allocas_in_entry(f),
        f.blocks.len() >= s.current().blocks.len(),
    ensures
        with_current(s, f).wf(),
{
    let t = with_current(s, f);
    assert forall|g: int| 0 <= g < t.module.functions.len() implies #[trigger] allocas_in_entry(
        t.module.functions[g],
    ) by {
        if g != s.top().func {
            assert(t.module.functions[g] == s.module.functions[g]);
        }
    }
    assert forall|k: int| 0 <= k < t.frames.len() implies {
        let fr = #[trigger] t.frames[k];
        &&& fr.func < t.module.functions.len()
        &&& fr.block < t.module.functions[fr.func as int].blocks.len()
    } by {
        assert(s.frames[k] == t.frames[k]);
    }
}

pub proof fn lemma_emit_wf(s: BuilderModel, inst: Inst)
    requires
        s.wf(),
        !(inst is Alloca),
    ensures
        emit(s, inst).wf(),
        !returns_value(inst) ==> keeps_valueless(s, emit(s, inst)),
{
    if s.ok() {
        let f = s.current();
        let bi = s.top().block as int;
        let b = f.blocks[bi];
        assert(s.frames[s.frames.len() - 1] == s.top());
        let nb = BlockModel { insts: b.insts.push(inst), ..b };
        let nf = FunctionModel { blocks: f.blocks.update(bi, nb), ..f };
        assert(allocas_in_entry(f));
        assert forall|c: int, i: int|
            0 < c < nf.blocks.len() && 0 <= i < nf.blocks[c].insts.len()
                implies !(#[trigger] nf.blocks[c].insts[i] is Alloca) by {
            if c != bi {
                assert(nf.blocks[c] == f.blocks[c]);
            } else if i < b.insts.len() {
                assert(nf.blocks[c].insts[i] == f.blocks[c].insts[i]);
            }
        }
        assert forall|i: int, j: int|
            #![trigger nf.blocks[0].insts[i], nf.blocks[0].insts[j]]
            0 <= i < j < nf.blocks[0].insts.len() && nf.blocks[0].insts[j] is Alloca
                implies nf.blocks[0].insts[i] is Alloca by {
            if bi == 0 {
                assert(nf.blocks[0].insts[j] == f.blocks[0].insts[j]);
                assert(nf.blocks[0].insts[i] == f.blocks[0].insts[i]);
            }
        }
        lemma_with_current_wf(s, nf);
        if !returns_value(inst) {
            assert forall|c: int, i: int|
                0 <= c < nf.blocks.len() && 0 <= i < nf.blocks[c].insts.len() && valueless(f)
                    implies !returns_value(#[trigger] nf.blocks[c].insts[i]) by {
                if c != bi || i < b.insts.len() {
                    assert(nf.blocks[c].insts[i] == f.blocks[c].insts[i]);
                }
            }
            lemma_with_current_keeps(s, nf);
        }
    }
}

pub proof fn lemma_fresh_wf(s: BuilderModel)
    requires
        s.wf(),
    ensures
        fresh(s).0.wf(),
        fresh(s).0.frames == s.frames,
        fresh(s).0.ok() ==> fresh(s).0.current().blocks == s.current().blocks,
        fresh(s).0.module.functions.len() == s.module.functions.len(),
        fresh(s).0.module.globals == s.module.globals,
        fresh(s).0.module.constants == s.module.constants,
        keeps_valueless(s, fresh(s).0),
{
    if s.ok() && s.current().regs < usize::MAX {
        assert(s.frames[s.frames.len() - 1] == s.top());
        let nf = FunctionModel { regs: s.current().regs + 1, ..s.current() };
        assert(allocas_in_entry(s.current()));
        assert(nf.blocks == s.current().blocks);
        lemma_with_current_wf(s, nf);
        lemma_with_current_keeps(s, nf);
    }
}

pub proof fn lemma_alloca_wf(s: BuilderModel)
    requires
        s.wf(),
    ensures
        alloca(s).0.wf(),
        keeps_valueless(s, alloca(s).0),
{
    lemma_fresh_wf(s);
    let (s1, r) = fresh(s);
    if s1.ok() {
        let f = s1.current();
        assert(s1.frames[s1.frames.len() - 1] == s1.top());
        let b = f.blocks[0];
        let nb = BlockModel { insts: seq![Inst::Alloca { dest: r }] + b.insts, ..b };
        let nf = FunctionModel { blocks: f.blocks.update(0, nb), ..f };
        assert(allocas_in_entry(f));
        assert forall|c: int, i: int|
            0 < c < nf.blocks.len() && 0 <= i < nf.blocks[c].insts.len()
                implies !(#[trigger] nf.blocks[c].insts[i] is Alloca) by {
            assert(nf.blocks[c] == f.blocks[c]);
        }
        assert forall|i: int, j: int|
            #![trigger nf.blocks[0].insts[i], nf.blocks[0].insts[j]]
            0 <= i < j < nf.blocks[0].insts.len() && nf.blocks[0].insts[j] is Alloca
                implies nf.blocks[0].insts[i] is Alloca by {
            if i > 0 {
                assert(nf.blocks[0].insts[j] == f.blocks[0].insts[j - 1]);
                assert(nf.blocks[0].insts[i] == f.blocks[0].insts[i - 1]);
            }
        }
        lemma_with_current_wf(s1, nf);
        assert forall|c: int, i: int|
            0 <= c < nf.blocks.len() && 0 <= i < nf.blocks[c].insts.len() && valueless(f)
                implies !returns_value(#[trigger] nf.blocks[c].insts[i]) by {
            if c != 0 {
                assert(nf.blocks[c] == f.blocks[c]);
            } else if i > 0 {
                assert(nf.blocks[0].insts[i] == f.blocks[0].insts[i - 1]);
            }
        }
        lemma_with_current_keeps(s1, nf);
        lemma_keeps_trans(s, s1, alloca(s).0);
    }
}

pub proof fn lemma_append_block_wf(s: BuilderModel, label: Label)
    requires
        s.wf(),
    ensures
        append_block(s, label).0.wf(),
        append_block(s, label).0.ok() ==> append_block(s, label).1 < append_block(
            s,
            label,
        ).0.current().blocks.len(),
        keeps_valueless(s, append_block(s, label).0),
{
    if s.ok() {
        let f = s.current();
        assert(s.frames[s.frames.len() - 1] == s.top());
        let nf = FunctionModel {
            blocks: f.blocks.push(BlockModel { label, insts: Seq::empty() }),
            ..f
        };
        assert(allocas_in_entry(f));
        assert forall|c: int, i: int|
            0 < c < nf.blocks.len() && 0 <= i < nf.blocks[c].insts.len()
                implies !(#[trigger] nf.blocks[c].insts[i] is Alloca) by {
            assert(nf.blocks[c] == f.blocks[c]);
        }
        assert forall|i: int, j: int|
            #![trigger nf.blocks[0].insts[i], nf.blocks[0].insts[j]]
            0 <= i < j < nf.blocks[0].insts.len() && nf.blocks[0].insts[j] is Alloca
                implies nf.blocks[0].insts[i] is Alloca by {
            assert(nf.blocks[0] == f.blocks[0]);
        }
        lemma_with_current_wf(s, nf);
        assert forall|c: int, i: int|
            0 <= c < nf.blocks.len() && 0 <= i < nf.blocks[c].insts.len() && valueless(f)
                implies !returns_value(#[trigger] nf.blocks[c].insts[i]) by {
            assert(nf.blocks[c].insts[i] == f.blocks[c].insts[i]);
        }
        lemma_with_current_keeps(s, nf);
    }
}

pub proof fn lemma_set_block_wf(s: BuilderModel, b: usize)
    requires
        s.wf(),
        s.ok() ==> b < s.current().blocks.len(),
    ensures
        set_block(s, b).wf(),
{
    if s.ok() {
        let t = set_block(s, b);
        assert forall|k: int| 0 <= k < t.frames.len() implies {
            let fr = #[trigger] t.frames[k];
            &&& fr.func < t.module.functions.len()
            &&& fr.block < t.module.functions[fr.func as int].blocks.len()
        } by {
            if k != s.frames.len() - 1 {
                assert(s.frames[k] == t.frames[k]);
            }
        }
    }
}

pub proof fn lemma_bind_wf(s: BuilderModel, name: Seq<char>, r: usize)
    requires
        s.wf(),
    ensures
        bind(s, name, r).wf(),
{
    if s.ok() {
        let t = bind(s, name, r);
        assert(s.frames[s.frames.len() - 1] == s.top());
        assert forall|k: int| 0 <= k < t.frames.len() implies {
            let fr = #[trigger] t.frames[k];
            &&& fr.func < t.module.functions.len()
            &&& fr.block < t.module.functions[fr.func as int].blocks.len()
        } by {
            assert(s.frames[k].func == t.frames[k].func);
            assert(s.frames[k].block == t.frames[k].block);
        }
    }
}

pub proof fn lemma_enter_function_wf(s: BuilderModel, name: Seq<char>, arity: nat)
    requires
        s.wf(),
    ensures
        enter_function(s, name, arity).wf(),
{
    if s.ok() {
        let t = enter_function(s, name, arity);
        let f = t.module.functions.last();
        assert(allocas_in_entry(f));
        assert forall|g: int| 0 <= g < t.module.functions.len() implies #[trigger] allocas_in_entry(
            t.module.functions[g],
        ) by {
            if g < s.module.functions.len() {
                assert(t.module.functions[g] == s.module.functions[g]);
            }
        }
        assert forall|k: int| 0 <= k < t.frames.len() implies {
            let fr = #[trigger] t.frames[k];
            &&& fr.func < t.module.functions.len()
            &&& fr.block < t.module.functions[fr.func as int].blocks.len()
        } by {
            if k < s.frames.len() {
                assert(s.frames[k] == t.frames[k]);
                assert(t.module.functions[s.frames[k].func as int] == s.module.functions[s.frames[k].func as int]);
            }
        }
    }
}

pub proof fn lemma_leave_function_wf(s: BuilderModel)
    requires
        s.wf(),
        s.ok() ==> s.frames.len() > 1,
    ensures
        leave_function(s).wf(),
{
    if s.ok() {
        let t = leave_function(s);
        assert forall|k: int| 0 <= k < t.frames.len() implies {
            let fr = #[trigger] t.frames[k];
            &&& fr.func < t.module.functions.len()
            &&& fr.block < t.module.functions[fr.func as int].blocks.len()
        } by {
            assert(s.frames[k] == t.frames[k]);
        }
    }
}


pub open spec fn initial() -> BuilderModel {
    BuilderModel {
        module: ModuleModel {
            functions: seq![
                FunctionModel {
                    name: jit_name(),
                    arity: 0,
                    blocks: seq![BlockModel { label: Label::Entry, insts: Seq::empty() }],
                    regs: 0,
                },
            ],
            globals: Seq::empty(),
            constants: Seq::empty(),
        },
        frames: seq![FrameModel { func: 0, block: 0, vars: Seq::empty() }],
        error: None,
    }
}

/// The name of the function that holds the top-level program.
pub open spec fn jit_name() -> Seq<char> {
    seq!['j', 'i', 't']
}

impl RecursiveBuilder {
    /// A builder whose module holds only the empty `jit` function, with the
    /// write head in its entry block.
    pub fn new() -> (r: RecursiveBuilder)
        ensures
            r@ == initial(),
            r@.wf(),
    {
        proof {
            reveal_strlit("jit");
        }
        let name = String::from_str("jit");
        let mut blocks: Vec<Block> = Vec::new();
        blocks.push(Block { label: Label::Entry, insts: Vec::new() });
        let mut functions: Vec<Function> = Vec::new();
        functions.push(Function { name, arity: 0, blocks, regs: 0 });
        let mut frames: Vec<Frame> = Vec::new();
        frames.push(Frame { func: 0, block: 0, vars: Vec::new() });
        let r = RecursiveBuilder {
            module: Module { functions, globals: Vec::new(), constants: Vec::new() },
            frames,
            error: None,
        };
        proof {
            assert(r@.module.functions[0].blocks =~= initial().module.functions[0].blocks);
            assert(r@.module.functions[0].name =~= jit_name());
            assert(r@.module.functions =~= initial().module.functions);
            assert(r@.module.globals =~= initial().module.globals);
            assert(r@.module.constants =~= initial().module.constants);
            assert(r@.frames[0].vars =~= Seq::<(Seq<char>, nat)>::empty());
            assert(r@.frames =~= initial().frames);
            assert(allocas_in_entry(r@.module.functions[0]));
        }
        r
    }

    /// The first error met, if any.
    pub fn error(&self) -> (r: Option<LowerError>)
        ensures
            r == self@.error,
    {
        self.error
    }

    pub(crate) fn fail(&mut self, e: LowerError)
        ensures
            final(self)@ == fail(old(self)@, e),
            keeps_valueless(old(self)@, final(self)@),
    {
        if self.error.is_none() {
            self.error = Some(e);
        }
    }

    pub(crate) fn top_index(&self) -> (r: (usize, usize))
        requires
            self@.wf(),
        ensures
            r.0 == self@.top().func,
            r.1 == self@.top().block,
            r.0 < self@.module.functions.len(),
            r.1 < self@.current().blocks.len(),
    {
        let k = self.frames.len() - 1;
        proof {
            assert(self@.frames[k as int] == self@.top());
        }
        (self.frames[k].func, self.frames[k].block)
    }

    pub(crate) fn emit(&mut self, inst: Inst)
        requires
            old(self)@.wf(),
            !(inst is Alloca),
        ensures
            final(self)@ == emit(old(self)@, inst),
            final(self)@.wf(),
            !returns_value(inst) ==> keeps_valueless(old(self)@, final(self)@),
    {
        proof {
            lemma_emit_wf(self@, inst);
        }
        if self.error.is_some() {
            return;
        }
        let ghost s = self@;
        let (fi, bi) = self.top_index();
        self.module.functions[fi].blocks[bi].insts.push(inst);
        proof {
            let t = emit(s, inst);
            assert(self@.module.functions[fi as int].blocks =~= t.module.functions[fi as int].blocks);
            assert(self@.module.functions =~= t.module.functions);
            assert(self@.frames =~= t.frames);
        }
    }

    pub(crate) fn fresh(&mut self) -> (r: usize)
        requires
            old(self)@.wf(),
        ensures
            (final(self)@, r) == fresh(old(self)@),
            final(self)@.wf(),
            keeps_valueless(old(self)@, final(self)@),
    {
        proof {
            lemma_fresh_wf(self@);
        }
        if self.error.is_some() {
            return 0;
        }
        let ghost s = self@;
        let (fi, _) = self.top_index();
        let r = self.module.functions[fi].regs;
        if r == usize::MAX {
            self.fail(LowerError::TooManyValues);
            return 0;
        }
        self.module.functions[fi].regs = r + 1;
        proof {
            let t = fresh(s).0;
            assert(self@.module.functions[fi as int].blocks =~= t.module.functions[fi as int].blocks);
            assert(self@.module.functions =~= t.module.functions);
            assert(self@.frames =~= t.frames);
        }
        r
    }

    /// Appends `inst` defining a fresh register; yields that register.
    pub(crate) fn push_def(&mut self, inst: Inst) -> (r: Value)
        requires
            old(self)@.wf(),
            !(inst is Alloca),
        ensures
            (final(self)@, r) == push_def(old(self)@, inst),
            final(self)@.wf(),
            !returns_value(inst) ==> keeps_valueless(old(self)@, final(self)@),
    {
        let d = self.fresh();
        let i = set_dest(inst, d);
        assert(!(i is Alloca));
        self.emit(i);
        Value::Reg(d)
    }

    pub(crate) fn alloca(&mut self) -> (r: usize)
        requires
            old(self)@.wf(),
        ensures
            (final(self)@, r) == alloca(old(self)@),
            final(self)@.wf(),
            keeps_valueless(old(self)@, final(self)@),
    {
        proof {
            lemma_alloca_wf(self@);
        }
        let d = self.fresh();
        if self.error.is_some() {
            return d;
        }
        let ghost s = self@;
        let (fi, _) = self.top_index();
        self.module.functions[fi].blocks[0].insts.insert(0, Inst::Alloca { dest: d });
        proof {
            let t = alloca(old(self)@).0;
            assert(self@.module.functions[fi as int].blocks[0].insts =~= t.module.functions[fi as int].blocks[0].insts);
            assert(self@.module.functions[fi as int].blocks =~= t.module.functions[fi as int].blocks);
            assert(self@.module.functions =~= t.module.functions);
            assert(self@.frames =~= t.frames);
        }
        d
    }

    pub(crate) fn append_block(&mut self, label: Label) -> (r: usize)
        requires
            old(self)@.wf(),
        ensures
            (final(self)@, r) == append_block(old(self)@, label),
            final(self)@.wf(),
            keeps_valueless(old(self)@, final(self)@),
    {
        proof {
            lemma_append_block_wf(self@, label);
        }
        if self.error.is_some() {
            return 0;
        }
        let ghost s = self@;
        let (fi, _) = self.top_index();
        let n = self.module.functions[fi].blocks.len();
        self.module.functions[fi].blocks.push(Block { label, insts: Vec::new() });
        proof {
            let t = append_block(s, label).0;
            assert(self@.module.functions[fi as int].blocks =~= t.module.functions[fi as int].blocks);
            assert(self@.module.functions =~= t.module.functions);
            assert(self@.frames =~= t.frames);
        }
        n
    }

    pub(crate) fn set_block(&mut self, b: usize)
        requires
            old(self)@.wf(),
            old(self)@.ok() ==> b < old(self)@.current().blocks.len(),
        ensures
            final(self)@ == set_block(old(self)@, b),
            final(self)@.wf(),
            keeps_valueless(old(self)@, final(self)@),
    {
        proof {
            lemma_set_block_wf(self@, b);
        }
        if self.error.is_some() {
            return;
        }
        let ghost s = self@;
        let k = self.frames.len() - 1;
        self.frames[k].block = b;
        proof {
            let t = set_block(s, b);
            assert(self@.frames[k as int].vars =~= t.frames[k as int].vars);
            assert(self@.frames =~= t.frames);
        }
    }

    pub(crate) fn add_const(&mut self, d: Decimal) -> (r: usize)
        ensures
            (final(self)@, r) == add_const(old(self)@, d@),
            old(self)@.wf() ==> final(self)@.wf(),
            keeps_valueless(old(self)@, final(self)@),
    {
        if self.error.is_some() {
            return 0;
        }
        let ghost s = self@;
        let n = self.module.constants.len();
        self.module.constants.push(d);
        proof {
            let t = add_const(s, d@).0;
            assert(self@.module.constants =~= t.module.constants);
            assert(self@.module =~= t.module);
        }
        n
    }

    pub(crate) fn bind(&mut self, name: &String, r: usize)
        requires
            old(self)@.wf(),
        ensures
            final(self)@ == bind(old(self)@, name@, r),
            final(self)@.wf(),
            keeps_valueless(old(self)@, final(self)@),
    {
        proof {
            lemma_bind_wf(self@, name@, r);
        }
        if self.error.is_some() {
            return;
        }
        let ghost s = self@;
        let k = self.frames.len() - 1;
        self.frames[k].vars.push((name.clone(), r));
        proof {
            let t = bind(s, name@, r);
            assert(self@.frames[k as int].vars =~= t.frames[k as int].vars);
            assert(self@.frames =~= t.frames);
        }
    }

    pub(crate) fn enter_function(&mut self, name: &String, arity: usize)
        requires
            old(self)@.wf(),
        ensures
            final(self)@ == enter_function(old(self)@, name@, arity as nat),
            final(self)@.wf(),
            keeps_valueless(old(self)@, final(self)@),
    {
        proof {
            lemma_enter_function_wf(self@, name@, arity as nat);
        }
        if self.error.is_some() {
            return;
        }
        let ghost s = self@;
        let mut blocks: Vec<Block> = Vec::new();
        blocks.push(Block { label: Label::Entry, insts: Vec::new() });
        let n = self.module.functions.len();
        self.module.functions.push(Function { name: name.clone(), arity, blocks, regs: 0 });
        self.frames.push(Frame { func: n, block: 0, vars: Vec::new() });
        proof {
            let t = enter_function(s, name@, arity as nat);
            assert(self@.module.functions[n as int].blocks =~= t.module.functions[n as int].blocks);
            assert(self@.module.functions =~= t.module.functions);
            assert(self@.frames[s.frames.len() as int].vars =~= Seq::<(Seq<char>, nat)>::empty());
            assert(self@.frames =~= t.frames);
        }
    }

    pub(crate) fn leave_function(&mut self)
        requires
            old(self)@.wf(),
            old(self)@.ok() ==> old(self)@.frames.len() > 1,
        ensures
            final(self)@ == leave_function(old(self)@),
            final(self)@.wf(),
            keeps_valueless(old(self)@, final(self)@),
    {
        proof {
            lemma_leave_function_wf(self@);
        }
        if self.error.is_some() {
            return;
        }
        let ghost s = self@;
        self.frames.pop();
        proof {
            assert(self@.frames =~= leave_function(s).frames);
        }
    }

    pub(crate) fn add_global(&mut self, name: &String, init: usize)
        requires
            old(self)@.wf(),
        ensures
            final(self)@ == add_global(old(self)@, name@, init),
            final(self)@.wf(),
            keeps_valueless(old(self)@, final(self)@),
    {
        if self.error.is_some() {
            return;
        }
        let ghost s = self@;
        self.module.globals.push(Global { name: name.clone(), init });
        proof {
            let t = add_global(s, name@, init);
            assert(self@.module.globals =~= t.module.globals);
            assert(self@.module =~= t.module);
        }
    }

    pub(crate) fn lookup_var(&self, x: &String) -> (r: Option<usize>)
        requires
            self@.wf(),
        ensures
            lookup_var(self@.top().vars, x@) == match r {
                Some(v) => Some(v as nat),
                None => None::<nat>,
            },
    {
        let k = self.frames.len() - 1;
        let vars = &self.frames[k].vars;
        let ghost vs = self@.top().vars;
        proof {
            assert(self@.frames[k as int] == self@.top());
        }
        let mut i = vars.len();
        assert(vs.subrange(0, i as int) =~= vs);
        while i > 0
            invariant
                i <= vars@.len(),
                vs == vars@.map_values(|p: (String, usize)| (p.0@, p.1 as nat)),
                vs == self@.top().vars,
                lookup_var(vs, x@) == lookup_var(vs.subrange(0, i as int), x@),
            decreases i,
        {
            let ghost pre = vs.subrange(0, i as int);
            assert(pre.drop_last() =~= vs.subrange(0, i - 1));
            assert(pre.last() == vs[i - 1]);
            assert(vs[i - 1] == (vars@[i - 1].0@, vars@[i - 1].1 as nat));
            if vars[i - 1].0 == *x {
                assert(vars@[i - 1].0@ == x@);
                assert(lookup_var(pre, x@) == Some(vars@[i - 1].1 as nat));
                return Some(vars[i - 1].1);
            }
            i = i - 1;
        }
        None
    }

    pub(crate) fn lookup_global(&self, x: &String) -> (r: Option<usize>)
        ensures
            lookup_global(self@.module.globals, x@) == match r {
                Some(v) => Some(v as nat),
                None => None::<nat>,
            },
    {
        let gs = &self.module.globals;
        let ghost m = self@.module.globals;
        let mut i = gs.len();
        assert(m.subrange(0, i as int) =~= m);
        while i > 0
            invariant
                i <= gs@.len(),
                m == gs@.map_values(|g: Global| g@),
                m == self@.module.globals,
                lookup_global(m, x@) == lookup_global(m.subrange(0, i as int), x@),
            decreases i,
        {
            let ghost pre = m.subrange(0, i as int);
            assert(pre.drop_last() =~= m.subrange(0, i - 1));
            assert(pre.last() == gs@[i - 1]@);
            if gs[i - 1].name == *x {
                return Some(i - 1);
            }
            i = i - 1;
        }
        None
    }

    pub(crate) fn resolve(&self, x: &String) -> (r: Option<Slot>)
        requires
            self@.wf(),
        ensures
            r == resolve(self@, x@),
    {
        match self.lookup_var(x) {
            Some(v) => Some(Slot::Local(v)),
            None => match self.lookup_global(x) {
                Some(g) => Some(Slot::Global(g)),
                None => None,
            },
        }
    }

    pub(crate) fn lookup_function(&self, x: &String) -> (r: Option<usize>)
        ensures
            lookup_function_from(self@.module.functions, x@, 0) == match r {
                Some(v) => Some(v as nat),
                None => None::<nat>,
            },
            match r {
                Some(v) => v < self@.module.functions.len(),
                None => true,
            },
    {
        let fs = &self.module.functions;
        let ghost m = self@.module.functions;
        let mut i: usize = 0;
        while i < fs.len()
            invariant
                i <= fs@.len(),
                m == fs@.map_values(|f: Function| f@),
                m == self@.module.functions,
                lookup_function_from(m, x@, 0) == lookup_function_from(m, x@, i as nat),
            decreases fs@.len() - i,
        {
            assert(m[i as int] == fs@[i as int]@);
            if fs[i].name == *x {
                return Some(i);
            }
            i = i + 1;
        }
        None
    }
}


pub open spec fn prefix_of<T>(a: Seq<T>, b: Seq<T>) -> bool {
    &&& a.len() <= b.len()
    &&& forall|i: int| 0 <= i < a.len() ==> #[trigger] b[i] == a[i]
}

pub open spec fn returns_value(i: Inst) -> bool {
    i matches Inst::Ret { value: Some(_) }
}

/// No `ret` of the function carries a value.
pub open spec fn valueless(f: FunctionModel) -> bool {
    forall|b: int, k: int|
        #![trigger f.blocks[b].insts[k]]
        0 <= b < f.blocks.len() && 0 <= k < f.blocks[b].insts.len() ==> !returns_value(
            f.blocks[b].insts[k],
        )
}

/// No function gains a `ret` with a value: those without one keep having
/// none, and new ones have none.
pub open spec fn keeps_valueless(a: BuilderModel, b: BuilderModel) -> bool {
    &&& b.module.functions.len() >= a.module.functions.len()
    &&& forall|g: int|
        0 <= g < a.module.functions.len() && valueless(a.module.functions[g]) ==> #[trigger] valueless(
            b.module.functions[g],
        )
    &&& forall|g: int|
        a.module.functions.len() <= g < b.module.functions.len() ==> #[trigger] valueless(
            b.module.functions[g],
        )
}

/// Whether a `return` occurs anywhere in the tree.
pub proof fn lemma_keeps_trans(a: BuilderModel, b: BuilderModel, c: BuilderModel)
    requires
        keeps_valueless(a, b),
        keeps_valueless(b, c),
    ensures
        keeps_valueless(a, c),
{
    assert forall|g: int|
        0 <= g < a.module.functions.len() && valueless(a.module.functions[g]) implies #[trigger] valueless(
            c.module.functions[g],
        ) by {
        assert(valueless(b.module.functions[g]));
    }
    assert forall|g: int|
        a.module.functions.len() <= g < c.module.functions.len() implies #[trigger] valueless(
            c.module.functions[g],
        ) by {
        if g < b.module.functions.len() {
            assert(valueless(b.module.functions[g]));
        }
    }
}

pub proof fn lemma_with_current_keeps(s: BuilderModel, f: FunctionModel)
    requires
        s.wf(),
        valueless(s.current()) ==> valueless(f),
    ensures
        keeps_valueless(s, with_current(s, f)),
{
    let t = with_current(s, f);
    assert(s.frames[s.frames.len() - 1] == s.top());
    assert forall|g: int|
        0 <= g < s.module.functions.len() && valueless(s.module.functions[g]) implies #[trigger] valueless(
            t.module.functions[g],
        ) by {
        if g != s.top().func {
            assert(t.module.functions[g] == s.module.functions[g]);
        }
    }
}

/// What lowering one node keeps of the state it started from, when it
/// succeeds: the frame stack (the current frame may only gain bindings) and
/// every block and function already created.
pub open spec fn extends(a: BuilderModel, b: BuilderModel) -> bool {
    b.ok() ==> {
        &&& a.ok()
        &&& b.frames.len() == a.frames.len()
        &&& forall|k: int| 0 <= k < a.frames.len() - 1 ==> #[trigger] b.frames[k] == a.frames[k]
        &&& b.top().func == a.top().func
        &&& prefix_of(a.top().vars, b.top().vars)
        &&& b.module.functions.len() >= a.module.functions.len()
        &&& forall|f: int|
            0 <= f < a.module.functions.len() ==> #[trigger] b.module.functions[f].blocks.len()
                >= a.module.functions[f].blocks.len()
    }
}

} // verus!
