//! What compiled arithmetic computes.
//!
//! The machine's operations on two words take their left operand from the top
//! of the stack and their right operand from below it. This is why the
//! compiler emits the right operand of an operation first.

use crate::il::lowering::{lemma_lower_extends, lower, Output};
use crate::il::term::{BinOp, Term};
use crate::ll::instruction::{Insn, Instruction};
use crate::util::bytes::be_value;
use crate::util::word::modulus;
use vstd::prelude::*;

verus! {

/// The word that the machine computes from `left`, found on top of the stack,
/// and `right`, found below it, for an instruction that takes two words and
/// leaves one. Arithmetic is modulo two to the power of 256, a division by
/// zero gives zero, and a comparison gives one if it holds and else zero.
pub open spec fn computed(insn: Insn, left: nat, right: nat) -> nat {
    match insn {
        Instruction::ADD => (left + right) % modulus(),
        Instruction::SUB => if left >= right {
            (left - right) as nat
        } else {
            (left + modulus() - right) as nat
        },
        Instruction::MUL => (left * right) % modulus(),
        Instruction::DIV => if right == 0 {
            0
        } else {
            left / right
        },
        Instruction::MOD => if right == 0 {
            0
        } else {
            left % right
        },
        Instruction::LT => if left < right {
            1
        } else {
            0
        },
        Instruction::GT => if left > right {
            1
        } else {
            0
        },
        Instruction::EQ => if left == right {
            1
        } else {
            0
        },
        _ => 0,
    }
}

/// Whether `insn` takes two words from the stack and leaves one.
pub open spec fn is_binary(insn: Insn) -> bool {
    insn is ADD || insn is SUB || insn is MUL || insn is DIV || insn is MOD || insn is LT
        || insn is GT || insn is EQ
}

/// The stack after `insn` has run on `stack`, whose top is its last word.
/// Only pushes, the operations on two words and the test for zero are given
/// a meaning here; there is none for any other instruction, nor where the
/// stack holds too few words.
pub open spec fn effect(insn: Insn, stack: Seq<nat>) -> Option<Seq<nat>> {
    match insn {
        Instruction::PUSH(bytes) => Some(stack.push(be_value(bytes) % modulus())),
        Instruction::ISZERO => if stack.len() >= 1 {
            Some(stack.drop_last().push(if stack.last() == 0 { 1nat } else { 0nat }))
        } else {
            None
        },
        _ => if is_binary(insn) && stack.len() >= 2 {
            Some(
                stack.take(stack.len() - 2).push(
                    computed(insn, stack.last(), stack[stack.len() - 2]),
                ),
            )
        } else {
            None
        },
    }
}

/// The stack after the instructions of `code` have run on `stack`, one after
/// the other.
pub open spec fn run(code: Seq<Insn>, stack: Seq<nat>) -> Option<Seq<nat>>
    decreases code.len(),
{
    if code.len() == 0 {
        Some(stack)
    } else {
        match effect(code[0], stack) {
            Some(next) => run(code.drop_first(), next),
            None => None,
        }
    }
}

/// The word that the operation `op` gives for the operands `left` and `right`:
/// `left - right` for a subtraction, and so on for the others. What a
/// logical connective gives is not told here.
pub open spec fn value_of(op: BinOp, left: nat, right: nat) -> nat {
    match op {
        BinOp::Add => computed(Instruction::ADD, left, right),
        BinOp::Subtract => computed(Instruction::SUB, left, right),
        BinOp::Multiply => computed(Instruction::MUL, left, right),
        BinOp::Divide => computed(Instruction::DIV, left, right),
        BinOp::Remainder => computed(Instruction::MOD, left, right),
        BinOp::Equals => computed(Instruction::EQ, left, right),
        BinOp::LessThan => computed(Instruction::LT, left, right),
        BinOp::GreaterThan => computed(Instruction::GT, left, right),
        BinOp::NotEquals => if left != right {
            1
        } else {
            0
        },
        BinOp::LessThanOrEquals => if left <= right {
            1
        } else {
            0
        },
        BinOp::GreaterThanOrEquals => if left >= right {
            1
        } else {
            0
        },
        BinOp::LogicalAnd | BinOp::LogicalOr => 0,
    }
}

/// The instructions that a compilation has emitted between the state
/// `before` and the later state `after`.
pub open spec fn emitted(before: Output, after: Output) -> Seq<Insn> {
    after.code.skip(before.code.len() as int)
}

/// Running one piece of code after another is running them as one.
pub proof fn lemma_run_concat(first: Seq<Insn>, second: Seq<Insn>, stack: Seq<nat>)
    ensures
        run(first + second, stack) == match run(first, stack) {
            Some(between) => run(second, between),
            None => None,
        },
    decreases first.len(),
{
    if first.len() == 0 {
        assert(first + second =~= second);
    } else {
        assert((first + second).drop_first() =~= first.drop_first() + second);
        match effect(first[0], stack) {
            Some(next) => {
                lemma_run_concat(first.drop_first(), second, next);
            },
            None => {},
        }
    }
}

/// An operation computes on its operands in the order in which they are
/// written. Where the code of the right operand leaves the word `right` on
/// the stack and the code of the left operand then leaves the word `left`,
/// the code of the operation leaves `value_of(op, left, right)`: for a
/// subtraction `left - right`, and not `right - left`.
pub proof fn lemma_operation_runs_in_order(
    s: Output,
    op: BinOp,
    lhs: Term,
    rhs: Term,
    stack: Seq<nat>,
    left: nat,
    right: nat,
)
    requires
        op != BinOp::LogicalAnd,
        op != BinOp::LogicalOr,
        !lower(lower(s, rhs), lhs).failed(),
        run(emitted(s, lower(s, rhs)), stack) == Some(stack.push(right)),
        run(emitted(lower(s, rhs), lower(lower(s, rhs), lhs)), stack.push(right)) == Some(
            stack.push(right).push(left),
        ),
    ensures
        !lower(s, Term::Binary(op, Box::new(lhs), Box::new(rhs))).failed(),
        run(
            emitted(s, lower(s, Term::Binary(op, Box::new(lhs), Box::new(rhs)))),
            stack,
        ) == Some(stack.push(value_of(op, left, right))),
{
    let valued = lower(s, rhs);
    let both = lower(valued, lhs);
    let out = lower(s, Term::Binary(op, Box::new(lhs), Box::new(rhs)));
    lemma_lower_extends(s, rhs);
    lemma_lower_extends(valued, lhs);
    assert(out == both.operate(op)) by {
        reveal_with_fuel(lower, 3);
    }
    let first = emitted(s, valued);
    let second = emitted(valued, both);
    let last = operation_code(op);
    assert(out.code =~= both.code + last);
    assert(emitted(s, out) =~= first + second + last);
    lemma_run_concat(first + second, last, stack);
    lemma_run_concat(first, second, stack);
    lemma_operation_computes(op, stack, left, right);
}

/// The instructions of the operation `op`: the machine's own instruction
/// for it, or the instruction for its opposite and a test for zero.
pub open spec fn operation_code(op: BinOp) -> Seq<Insn> {
    match op {
        BinOp::Add => seq![Instruction::ADD],
        BinOp::Subtract => seq![Instruction::SUB],
        BinOp::Divide => seq![Instruction::DIV],
        BinOp::Multiply => seq![Instruction::MUL],
        BinOp::Remainder => seq![Instruction::MOD],
        BinOp::Equals => seq![Instruction::EQ],
        BinOp::LessThan => seq![Instruction::LT],
        BinOp::GreaterThan => seq![Instruction::GT],
        BinOp::NotEquals => seq![Instruction::EQ, Instruction::ISZERO],
        BinOp::LessThanOrEquals => seq![Instruction::GT, Instruction::ISZERO],
        BinOp::GreaterThanOrEquals => seq![Instruction::LT, Instruction::ISZERO],
        BinOp::LogicalAnd | BinOp::LogicalOr => Seq::empty(),
    }
}

/// The instructions of an operation, run with its right operand on the stack
/// and its left operand on top of that, leave its value in their place.
pub proof fn lemma_operation_computes(op: BinOp, stack: Seq<nat>, left: nat, right: nat)
    requires
        op != BinOp::LogicalAnd,
        op != BinOp::LogicalOr,
    ensures
        run(operation_code(op), stack.push(right).push(left)) == Some(
            stack.push(value_of(op, left, right)),
        ),
{
    let operands = stack.push(right).push(left);
    let code = operation_code(op);
    reveal_with_fuel(run, 3);
    assert(operands.take(operands.len() - 2) =~= stack);
    let once = stack.push(computed(code[0], left, right));
    assert(effect(code[0], operands) == Some(once));
    if code.len() == 1 {
        assert(code.drop_first() =~= Seq::<Insn>::empty());
    } else {
        assert(code.drop_first() =~= seq![Instruction::ISZERO]);
        assert(code.drop_first().drop_first() =~= Seq::<Insn>::empty());
        assert(once.drop_last() =~= stack);
    }
}

} // verus!
