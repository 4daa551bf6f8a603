//! Numbers as the machine holds them: byte strings and 256-bit words.

pub mod bytes;
pub mod word;

pub use crate::util::bytes::{from_be_digits, to_be_bytes};
pub use crate::util::word::u256;
