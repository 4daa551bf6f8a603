//! An analysis that follows the jumps whose target is pushed right before
//! them.

use crate::analysis::disassembler::AbstractState;
use crate::analysis::value::AbstractValue;
use crate::ll::instruction::{Insn, Instruction};
use crate::util::bytes::{be_value, to_usize};
use vstd::prelude::*;
use vstd::std_specs::convert::FromSpecImpl;

verus! {

/// What is known at one point of the code: whether control can arrive there
/// and, if so, the word on top of the stack.
///
/// This is enough to follow a jump whose target is pushed by the instruction
/// before it. A jump to a computed target is not followed, so that code
/// reached only by such jumps counts as unreachable.
#[derive(Copy, Clone, Debug, PartialEq, Eq, Structural)]
pub enum Reach {
    /// Control has not been found to arrive here.
    Unreached,
    /// Control can arrive here, with this on top of the stack.
    Reached(AbstractValue),
}

/// What a push of `bytes` leaves on top of the stack: the number that they
/// write, if it can be an offset into code.
pub open spec fn pushed(bytes: Seq<u8>) -> AbstractValue {
    if be_value(bytes) <= usize::MAX {
        AbstractValue::Known(be_value(bytes) as usize)
    } else {
        AbstractValue::Unknown
    }
}

impl AbstractState for Reach {
    open spec fn spec_is_reachable(&self) -> bool {
        *self is Reached
    }

    /// Control does not fall through an instruction that ends a run. After a
    /// push the top of the stack is known, and after anything else it is not.
    open spec fn spec_transfer(self, insn: Insn) -> Self {
        if self is Unreached || insn.terminates() {
            Reach::Unreached
        } else {
            match insn {
                Instruction::PUSH(bytes) => Reach::Reached(pushed(bytes)),
                _ => Reach::Reached(AbstractValue::Unknown),
            }
        }
    }

    /// A branch that is taken has used up the target, so that nothing is
    /// known of the stack where it arrives.
    open spec fn spec_branch(&self, target: usize, insn: Insn) -> Self {
        if *self is Unreached {
            Reach::Unreached
        } else {
            Reach::Reached(AbstractValue::Unknown)
        }
    }

    /// Control can arrive where it can arrive from either side; the top of
    /// the stack is known where both sides know it to be the same.
    open spec fn spec_merge(self, other: Self) -> Self {
        match (self, other) {
            (Reach::Unreached, _) => other,
            (_, Reach::Unreached) => self,
            (Reach::Reached(mine), Reach::Reached(theirs)) => if mine == theirs {
                self
            } else {
                Reach::Reached(AbstractValue::Unknown)
            },
        }
    }

    open spec fn spec_peek(&self, n: usize) -> AbstractValue {
        match *self {
            Reach::Reached(top) if n == 0 => top,
            _ => AbstractValue::Unknown,
        }
    }

    open spec fn spec_bottom() -> Self {
        Reach::Unreached
    }

    open spec fn spec_origin() -> Self {
        Reach::Reached(AbstractValue::Unknown)
    }

    open spec fn height(&self) -> nat {
        match *self {
            Reach::Unreached => 2,
            Reach::Reached(AbstractValue::Known(_)) => 1,
            Reach::Reached(AbstractValue::Unknown) => 0,
        }
    }

    fn is_reachable(&self) -> (r: bool) {
        match self {
            Reach::Unreached => false,
            Reach::Reached(_) => true,
        }
    }

    fn transfer(self, insn: &Instruction) -> (r: Self) {
        match self {
            Reach::Unreached => Reach::Unreached,
            Reach::Reached(_) => {
                if insn.is_terminator() {
                    Reach::Unreached
                } else {
                    match insn {
                        Instruction::PUSH(bytes) => match to_usize(bytes.as_slice()) {
                            Some(value) => Reach::Reached(AbstractValue::Known(value)),
                            None => Reach::Reached(AbstractValue::Unknown),
                        },
                        _ => Reach::Reached(AbstractValue::Unknown),
                    }
                }
            },
        }
    }

    fn branch(&self, _target: usize, _insn: &Instruction) -> (r: Self) {
        match self {
            Reach::Unreached => Reach::Unreached,
            Reach::Reached(_) => Reach::Reached(AbstractValue::Unknown),
        }
    }

    fn merge(&mut self, other: Self) -> (changed: bool) {
        let before = *self;
        let merged = match (before, other) {
            (Reach::Unreached, _) => other,
            (_, Reach::Unreached) => before,
            (Reach::Reached(mine), Reach::Reached(theirs)) => if mine == theirs {
                before
            } else {
                Reach::Reached(AbstractValue::Unknown)
            },
        };
        *self = merged;
        merged != before
    }

    fn peek(&self, n: usize) -> (r: AbstractValue) {
        match self {
            Reach::Reached(top) => if n == 0 {
                *top
            } else {
                AbstractValue::Unknown
            },
            Reach::Unreached => AbstractValue::Unknown,
        }
    }

    fn bottom() -> (r: Self) {
        Reach::Unreached
    }

    fn origin() -> (r: Self) {
        Reach::Reached(AbstractValue::Unknown)
    }

    proof fn lemma_merge_descends(self, other: Self) {
    }

    proof fn lemma_merge_keeps_reachable(self, other: Self) {
    }

    proof fn lemma_clone_is_copy(self, copy: Self) {
    }
}

impl From<()> for Reach {
    /// Where nothing is told of a block, control may arrive there, and
    /// nothing is known of the stack.
    fn from(_unit: ()) -> (r: Reach) {
        Reach::Reached(AbstractValue::Unknown)
    }
}

impl FromSpecImpl<()> for Reach {
    open spec fn obeys_from_spec() -> bool {
        true
    }

    open spec fn from_spec(_unit: ()) -> Reach {
        Reach::Reached(AbstractValue::Unknown)
    }
}

} // verus!
