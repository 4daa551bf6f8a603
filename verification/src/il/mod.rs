//! The intermediate language: a tree of statements and expressions, and its
//! compiler to instructions.

pub mod compiler;
pub mod lowering;
pub mod meaning;
pub mod term;

pub use crate::il::compiler::{Compiler, CompilerError};
pub use crate::il::term::{BinOp, Region, Term};
