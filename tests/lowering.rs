use genko::ast::{Decimal, Node};
use genko::compile::{compile, CompileError};
use genko::ir::{FloatOp, Inst, Module, Predicate, Slot, Value};
use genko::lower::{lower, LowerError, RecursiveBuilder};
use std::collections::HashMap;

// A reference evaluator for the IR, standing in for the JIT.

fn constant(m: &Module, i: usize) -> f64 {
    let d = &m.constants[i];
    let whole: String = d.whole.iter().map(|x| char::from(b'0' + *x)).collect();
    let frac: String = d.frac.iter().map(|x| char::from(b'0' + *x)).collect();
    let text = if frac.is_empty() { whole } else { format!("{}.{}", whole, frac) };
    text.parse::<f64>().unwrap()
}

struct Frame<'a> {
    args: &'a [f64],
    regs: HashMap<usize, f64>,
    slots: HashMap<usize, f64>,
}

fn value(m: &Module, fr: &Frame, v: Value) -> f64 {
    match v {
        Value::Const(i) => constant(m, i),
        Value::NaN => f64::NAN,
        Value::Reg(r) => fr.regs[&r],
        Value::Param(i) => fr.args[i],
    }
}

fn call(m: &Module, globals: &mut Vec<f64>, f: usize, args: &[f64]) -> f64 {
    let func = &m.functions[f];
    assert_eq!(func.arity, args.len());
    let mut fr = Frame { args, regs: HashMap::new(), slots: HashMap::new() };
    let mut pending: Vec<f64> = Vec::new();
    let mut block = 0;
    let mut prev = 0;
    loop {
        let mut next = None;
        for inst in &func.blocks[block].insts {
            match *inst {
                Inst::Alloca { dest } => {
                    fr.slots.insert(dest, 0.0);
                }
                Inst::Load { dest, slot } => {
                    let x = match slot {
                        Slot::Local(r) => fr.slots[&r],
                        Slot::Global(g) => globals[g],
                    };
                    fr.regs.insert(dest, x);
                }
                Inst::Store { slot, value: v } => {
                    let x = value(m, &fr, v);
                    match slot {
                        Slot::Local(r) => {
                            fr.slots.insert(r, x);
                        }
                        Slot::Global(g) => globals[g] = x,
                    }
                }
                Inst::Float { dest, op, lhs, rhs } => {
                    let (a, b) = (value(m, &fr, lhs), value(m, &fr, rhs));
                    let x = match op {
                        FloatOp::Add => a + b,
                        FloatOp::Sub => a - b,
                        FloatOp::Mul => a * b,
                        FloatOp::Div => a / b,
                    };
                    fr.regs.insert(dest, x);
                }
                Inst::Compare { dest, pred, lhs, rhs } => {
                    let (a, b) = (value(m, &fr, lhs), value(m, &fr, rhs));
                    let unordered = a.is_nan() || b.is_nan();
                    let x = match pred {
                        Predicate::Ueq => unordered || a == b,
                        Predicate::Une => unordered || a != b,
                        Predicate::Ult => unordered || a < b,
                        Predicate::Ule => unordered || a <= b,
                        Predicate::Ugt => unordered || a > b,
                        Predicate::Uge => unordered || a >= b,
                        Predicate::One => !unordered && a != b,
                    };
                    fr.regs.insert(dest, if x { 1.0 } else { 0.0 });
                }
                Inst::BoolToFloat { dest, src } | Inst::IntToFloat { dest, src } => {
                    let x = value(m, &fr, src);
                    fr.regs.insert(dest, x);
                }
                Inst::FloatToInt { dest, src } => {
                    let x = value(m, &fr, src).trunc();
                    fr.regs.insert(dest, x);
                }
                Inst::Arg { value: v } => pending.push(value(m, &fr, v)),
                Inst::Call { dest, callee, argc } => {
                    let at = pending.len() - argc;
                    let operands: Vec<f64> = pending.split_off(at);
                    let x = call(m, globals, callee, &operands);
                    fr.regs.insert(dest, x);
                }
                Inst::Phi { dest, first, first_from, second, second_from } => {
                    let x = if prev == first_from {
                        value(m, &fr, first)
                    } else {
                        assert_eq!(prev, second_from);
                        value(m, &fr, second)
                    };
                    fr.regs.insert(dest, x);
                }
                Inst::CondBr { cond, on_true, on_false } => {
                    next = Some(if value(m, &fr, cond) != 0.0 { on_true } else { on_false });
                    break;
                }
                Inst::Br { target } => {
                    next = Some(target);
                    break;
                }
                Inst::Ret { value: v } => {
                    return match v {
                        Some(v) => value(m, &fr, v),
                        None => f64::NAN,
                    };
                }
            }
        }
        prev = block;
        block = next.expect("block without terminator");
    }
}

fn run_module(m: &Module) -> f64 {
    let jit = m.functions.iter().position(|f| f.name == "jit").unwrap();
    let mut globals: Vec<f64> = m.globals.iter().map(|g| constant(m, g.init)).collect();
    call(m, &mut globals, jit, &[])
}

fn execute(src: &str) -> f64 {
    run_module(&compile(src).unwrap())
}

fn lower_error(src: &str) -> LowerError {
    match compile(src) {
        Err(CompileError::Lower(e)) => e,
        _ => panic!("expected a lowering error"),
    }
}

#[test]
fn float() {
    assert_eq!(execute("1"), 1.0)
}

#[test]
fn not() {
    assert_eq!(execute("!true"), 0.0)
}

#[test]
fn codegen_bool_true() {
    assert_eq!(execute("true"), 1.0)
}

#[test]
fn codegen_bool_false() {
    assert_eq!(execute("false"), 0.0)
}

#[test]
fn add() {
    assert_eq!(execute("1+2"), 3.0)
}

#[test]
fn unary_sub() {
    assert_eq!(execute("let a=1; -a"), -1.0)
}

#[test]
fn modulo() {
    assert_eq!(execute("10 % 3"), 1.0)
}

#[test]
fn cmp_lt() {
    assert_eq!(execute("2 < 1"), 0.0)
}

#[test]
fn cmp_ge() {
    assert_eq!(execute("1 >= 1"), 1.0)
}

#[test]
fn variables() {
    assert_eq!(execute("let a = 2+2; a"), 4.0)
}

#[test]
fn fn_decl() {
    assert_eq!(execute("fn test() {1} 10"), 10.0)
}

#[test]
fn if_then_cond() {
    assert_eq!(execute("let a=1; if (1 == 1) then {a = 3;} a"), 3.0)
}

#[test]
fn if_then_else_cond() {
    assert_eq!(execute("let a=1; if (0 == 1) then {a = 3;} else {a=2;} a"), 2.0)
}

#[test]
fn while_loop() {
    assert_eq!(execute("let a=2; let b=0; while (a!=0) {a=a-1; b=b+1;} b"), 2.0)
}

#[test]
fn not_of_false() {
    assert_eq!(execute("!false"), 1.0)
}

#[test]
fn fn_args_with_return() {
    assert_eq!(execute("fn test(a) {return 10+a;} test(5)"), 15.0)
}

#[test]
fn recursive_with_return() {
    assert_eq!(
        execute("fn test(a) { let b=0; if a then {b=test(a-1);} else {b=a;} return b;} test(10)"),
        0.0
    )
}

#[test]
fn global_read_inside_function() {
    assert_eq!(execute("global a=2; a=3; fn test() {return a;} test()"), 3.0)
}

#[test]
fn function_locals_are_separate() {
    assert_eq!(execute("let a=5; fn test() {let a=10;} test(); a"), 5.0)
}

#[test]
fn parameter_shadows_global() {
    assert_eq!(execute("global a=1; fn f(a) {return a;} f(7)"), 7.0)
}

#[test]
fn arity_mismatch() {
    assert_eq!(lower_error("fn test(a) {} test()"), LowerError::ArityMismatch)
}

#[test]
fn function_without_return_has_no_value() {
    assert!(execute("fn test(a) {10+a} test(5)").is_nan())
}

#[test]
fn statement_program_yields_nan() {
    assert!(execute("let a = 1").is_nan());
    assert!(execute("").is_nan());
}

#[test]
fn if_without_else_yields_nan_on_false() {
    assert!(execute("if 0 then {1}").is_nan());
    assert_eq!(execute("if 2 then {1}"), 1.0);
}

#[test]
fn block_value_is_last_child() {
    assert_eq!(execute("{1; 2; 3}"), 3.0);
    assert!(execute("{1; let b = 2}").is_nan());
}

#[test]
fn comparisons_and_division() {
    assert_eq!(execute("7 / 2"), 3.5);
    assert_eq!(execute("3 == 3"), 1.0);
    assert_eq!(execute("3 != 3"), 0.0);
    assert_eq!(execute("2 <= 1"), 0.0);
    assert_eq!(execute("2 > 1"), 1.0);
    assert_eq!(execute("-7 % 3"), -1.0);
    assert_eq!(execute("2.5 * 2"), 5.0);
}

#[test]
fn literal_round_trips() {
    assert_eq!(execute("0.125"), 0.125);
    assert_eq!(execute("42"), 42.0);
}

#[test]
fn lowering_errors() {
    assert_eq!(lower_error("x"), LowerError::UnknownVariable);
    assert_eq!(lower_error("f(1)"), LowerError::UnknownFunction);
    assert_eq!(lower_error("2 ^ 3"), LowerError::Unsupported);
    assert_eq!(lower_error("1 && 1"), LowerError::Unsupported);
    assert_eq!(lower_error("fn f() { global g = 1; }"), LowerError::NestedGlobal);
    assert_eq!(lower_error("global g = 1 + 1"), LowerError::NonConstantGlobal);
    assert_eq!(lower_error("-(let a = 1)"), LowerError::NoValue);
    assert!(matches!(compile("1 +"), Err(CompileError::Parse(_))));
}

#[test]
fn name_slot_must_be_identifier() {
    let bad = Node::InitExpr {
        ident: Box::new(Node::NumberExpr(Decimal::from_u64(1))),
        expr: Box::new(Node::NumberExpr(Decimal::from_u64(2))),
    };
    assert_eq!(lower(&vec![bad]).unwrap_err(), LowerError::NotAnIdentifier);
}

#[test]
fn allocas_stay_in_entry_blocks() {
    let m = compile("fn f(p, q) { let a = 1; if p then { let b = 2; } while q { let c = 3; q = 0; } return a; } let z = f(1, 1); if z then { let y = 2; } z")
        .unwrap();
    for f in &m.functions {
        for (b, block) in f.blocks.iter().enumerate() {
            let mut seen_other = false;
            for inst in &block.insts {
                let is_alloca = matches!(inst, Inst::Alloca { .. });
                if is_alloca {
                    assert_eq!(b, 0);
                    assert!(!seen_other);
                } else {
                    seen_other = true;
                }
            }
        }
    }
    assert_eq!(run_module(&m), 1.0);
}

#[test]
fn modulo_instruction_sequence() {
    let m = compile("10 % 3").unwrap();
    let insts = &m.functions[0].blocks[0].insts;
    assert!(matches!(insts[0], Inst::Float { op: FloatOp::Div, .. }));
    assert!(matches!(insts[1], Inst::FloatToInt { .. }));
    assert!(matches!(insts[2], Inst::IntToFloat { .. }));
    assert!(matches!(insts[3], Inst::Float { op: FloatOp::Mul, .. }));
    assert!(matches!(insts[4], Inst::Float { op: FloatOp::Sub, .. }));
    assert!(matches!(insts[5], Inst::Ret { value: Some(Value::Reg(_)) }));
}

#[test]
fn lowering_twice_gives_the_same_module() {
    let a = compile("let a = 1; while a < 3 { a = a + 1; } a").unwrap();
    let b = compile("let a = 1; while a < 3 { a = a + 1; } a").unwrap();
    assert_eq!(format!("{:?}", a.functions[0].blocks.len()), format!("{:?}", b.functions[0].blocks.len()));
    for (x, y) in a.functions[0].blocks.iter().zip(b.functions[0].blocks.iter()) {
        assert_eq!(x.insts, y.insts);
    }
}

#[test]
fn builder_reports_its_error() {
    let mut b = RecursiveBuilder::new();
    assert_eq!(b.build(&Node::IdentExpr(String::from("nope"))), None);
    assert_eq!(b.error(), Some(LowerError::UnknownVariable));
}

#[test]
fn let_in_block_is_visible_after_it() {
    assert_eq!(execute("{ let a = 4; } a"), 4.0);
    assert_eq!(execute("let a = 1; let a = a + 1; a"), 2.0);
}

#[test]
fn nested_conditions_merge_correctly() {
    assert_eq!(execute("let x = 3; if x > 1 then { if x > 2 then { 30 } else { 20 } } else { 10 }"), 30.0);
    assert_eq!(execute("let x = 2; if x > 1 then { if x > 2 then { 30 } else { 20 } } else { 10 }"), 20.0);
    assert_eq!(execute("let x = 0; if x > 1 then { if x > 2 then { 30 } else { 20 } } else { 10 }"), 10.0);
}

#[test]
fn code_after_return_is_unreachable() {
    assert_eq!(execute("fn f() { return 1; 2 } f()"), 1.0);
    assert_eq!(execute("fn f(a) { if a then { return 1; } else { 2; } return 3; } f(1) + 10 * f(0)"), 31.0);
}
