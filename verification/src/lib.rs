//! Analysis and generation of bytecode for the Ethereum virtual machine.
//!
//! The `analysis` module recovers the basic blocks of raw bytecode and runs a
//! dataflow analysis over them. The `il` module compiles a small language of
//! statements and expressions to instructions. Both work on the instructions
//! of the `ll` module. The `evm` module holds a small interpreter, and `util`
//! the numbers that all of them share.

pub mod analysis;
pub mod evm;
pub mod il;
pub mod ll;
pub mod util;
