//! Static analysis of raw bytecode: recovery of its basic blocks and a
//! dataflow analysis over them.

pub mod blocks;
pub mod disassembler;
pub mod flow;
pub mod reach;
pub mod value;

pub use crate::analysis::disassembler::{AbstractState, Block, Disassembly};
pub use crate::analysis::reach::Reach;
pub use crate::analysis::value::AbstractValue;
