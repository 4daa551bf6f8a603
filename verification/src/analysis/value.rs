//! What an analysis knows of one stack slot.

use vstd::prelude::*;

verus! {

/// The value of a stack slot as far as it is known before the code runs.
#[derive(Copy, Clone, Debug, PartialEq, Eq, Structural)]
pub enum AbstractValue {
    /// The slot holds this value on every execution.
    Known(usize),
    /// Nothing is known of the slot.
    Unknown,
}

impl AbstractValue {
    /// Whether the value is known.
    pub fn is_known(&self) -> (r: bool)
        ensures
            r == (*self is Known),
    {
        match self {
            AbstractValue::Known(_) => true,
            AbstractValue::Unknown => false,
        }
    }

    /// The known value.
    pub fn unwrap(&self) -> (r: usize)
        requires
            *self is Known,
        ensures
            *self == AbstractValue::Known(r),
    {
        match self {
            AbstractValue::Known(value) => *value,
            AbstractValue::Unknown => 0,
        }
    }
}

} // verus!
