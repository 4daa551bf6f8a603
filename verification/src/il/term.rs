//! The terms of the intermediate language.

use vstd::prelude::*;

verus! {

/// A binary operator.
#[derive(Copy, Clone, Debug, PartialEq, Eq, Structural)]
pub enum BinOp {
    // Arithmetic
    Add,
    Subtract,
    Divide,
    Multiply,
    Remainder,
    // Comparators
    Equals,
    NotEquals,
    LessThan,
    LessThanOrEquals,
    GreaterThan,
    GreaterThanOrEquals,
    // Logical
    LogicalAnd,
    LogicalOr,
}

/// A region of the machine's data that a program can address.
#[derive(Copy, Clone, Debug, PartialEq, Eq, Structural)]
pub enum Region {
    Memory,
    Storage,
    CallData,
}

/// A statement or an expression.
#[derive(Debug, PartialEq, Eq)]
pub enum Term {
    // Statements
    /// Trap unless the condition holds.
    Assert(Box<Term>),
    /// Store the value of the second term at the place that the first names.
    Assignment(Box<Term>, Box<Term>),
    /// Trap.
    Fail,
    /// Jump to the label of the given name.
    Goto(String),
    /// Jump to the label of the given name if the condition holds.
    IfGoto(Box<Term>, String),
    /// The place that the label of the given name marks.
    Label(String),
    /// Halt, undoing all changes, and hand back the given values.
    Revert(Vec<Term>),
    /// Halt and hand back the given values.
    Succeed(Vec<Term>),
    /// Halt.
    Stop,
    // Expressions
    /// A binary operation on the values of two terms.
    Binary(BinOp, Box<Term>, Box<Term>),
    /// The word of a region (first term) at an index (second term).
    ArrayAccess(Box<Term>, Box<Term>),
    /// A region as a whole.
    MemoryAccess(Region),
    // Values
    /// A number, by its decimal digits, most significant first. A digit is
    /// held as its value, not as a character.
    Int(Vec<u8>),
    /// A number, by its hexadecimal digits, most significant first.
    Hex(Vec<u8>),
}

} // verus!
