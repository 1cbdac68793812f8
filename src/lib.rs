//! Genko: a small expression language over doubles, lowered to an SSA
//! control-flow graph.
//!
//! `lexer` and `parser` turn source text into a syntax tree (`ast`). `lower`
//! walks the tree with the state of `builder` and fills an IR module (`ir`)
//! whose instructions a JIT backend can replay one for one. `compile` does
//! both steps. Each step is a verified function of its input, stated by a
//! spec function of the same name (`parsed`, `lowering`, `compiled`).

pub mod ast;
pub mod builder;
pub mod compile;
pub mod ir;
pub mod lexer;
pub mod lower;
pub mod parser;
