//! A verified interpreter for a flat, stack-based bytecode language of
//! integer arithmetic, variables and counted loops.
//!
//! The instruction set and the error taxonomy live in [`bytecode`], the
//! mathematical semantics of a program in [`semantics`], the executable
//! evaluator in [`interp`], and proofs of the library's general laws in
//! [`laws`].

pub mod bytecode;
pub mod interp;
pub mod laws;
pub mod semantics;

use vstd::prelude::*;

verus! {

pub use bytecode::ByteCode;
pub use bytecode::EvalError;
pub use interp::Interpreter;

} // verus!
