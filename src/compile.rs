//! Source text to IR module.

use vstd::prelude::*;
use crate::ir::{Module, ModuleModel};
use crate::lower::{LowerError, lower, lowering};
use crate::parser::{ParseError, parse, parsed};

verus! {

/// Why a source text gave no module.
#[derive(Debug, Copy, Clone, PartialEq, Eq)]
pub enum CompileError {
    Parse(ParseError),
    Lower(LowerError),
}

/// The module a source text compiles to: `Err(None)` when it does not parse,
/// `Err(Some(e))` when its tree does not lower.
pub open spec fn compiled(s: Seq<char>) -> Result<ModuleModel, Option<LowerError>> {
    match parsed(s) {
        None => Err(None),
        Some(nodes) => match lowering(nodes) {
            Ok(m) => Ok(m),
            Err(e) => Err(Some(e)),
        },
    }
}

/// Parses and lowers a program into a module whose `jit` function, of no
/// parameters, returns the program's value.
pub fn compile(source: &str) -> (r: Result<Module, CompileError>)
    ensures
        match r {
            Ok(m) => compiled(source@) == Ok::<ModuleModel, Option<LowerError>>(m@) && m@.wf(),
            Err(CompileError::Parse(_)) => compiled(source@) == Err::<ModuleModel, Option<LowerError>>(None),
            Err(CompileError::Lower(e)) => compiled(source@) == Err::<ModuleModel, Option<LowerError>>(Some(e)),
        },
{
    match parse(source) {
        Err(e) => Err(CompileError::Parse(e)),
        Ok(nodes) => match lower(&nodes) {
            Ok(m) => Ok(m),
            Err(e) => Err(CompileError::Lower(e)),
        },
    }
}

} // verus!
