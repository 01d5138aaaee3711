//! A small compiler from a subset of C to RISC-V assembly: lexer, parser, type
//! inference, frame layout and code generation, each with its contract proved by
//! Verus, and laws that tie the generated code to what the source means.
use vstd::prelude::*;

pub mod text;
pub mod lexer;
pub mod ast;
pub mod typecheck;
pub mod parser;
pub mod codegen;
pub mod precheck;
pub mod render;
pub mod diagnostic;
pub mod machine;
pub mod branch;
pub mod control;
pub mod wellformed;
pub mod stack;

verus! {

} // verus!
