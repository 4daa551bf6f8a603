//! The low-level language: instructions and the streams that hold them.

pub mod bytecode;
pub mod instruction;

pub use crate::ll::bytecode::Bytecode;
pub use crate::ll::instruction::Instruction;
