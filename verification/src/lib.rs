//! Back end of a compiler for a small stack language: a code generator that
//! flattens block-structured operations into linear bytecode, and the string
//! and value stores that hand out stable handles.

pub mod text;
pub mod arena;
pub mod intern;
pub mod span;
pub mod ops;
pub mod instr;
pub mod arch;
pub mod labels;
pub mod program;
pub mod codegen;
pub mod resolution;
pub mod rejection;
pub mod diagnostic;
