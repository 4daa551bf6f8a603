use evmil::il::compiler::make_push;
use evmil::il::{BinOp, Compiler, CompilerError, Region, Term};
use evmil::ll::{Bytecode, Instruction};

// ----------------------------------------------------------------------
// Helpers
// ----------------------------------------------------------------------

/// The decimal literal with the given digits.
fn dec(digits: &str) -> Term {
    Term::Int(digits.bytes().map(|c| c - b'0').collect())
}

/// The hexadecimal literal with the given digits.
fn hex(digits: &str) -> Term {
    Term::Hex(digits.chars().map(|c| c.to_digit(16).unwrap() as u8).collect())
}

fn binary(op: BinOp, lhs: Term, rhs: Term) -> Term {
    Term::Binary(op, Box::new(lhs), Box::new(rhs))
}

fn access(region: Region, index: Term) -> Term {
    Term::ArrayAccess(Box::new(Term::MemoryAccess(region)), Box::new(index))
}

fn push(bytes: &[u8]) -> Instruction {
    Instruction::PUSH(bytes.to_vec())
}

/// Compile the terms one after the other.
fn compile(terms: &[Term]) -> Result<Vec<Instruction>, CompilerError> {
    let mut bytecode = Bytecode::new();
    let mut compiler = Compiler::new(&mut bytecode);
    for term in terms {
        compiler.translate(term)?;
    }
    Ok(bytecode.instructions().clone())
}

/// Run straight-line code of pushes and arithmetic on small numbers, and
/// give the word left on top of the stack.
fn evaluate(insns: &[Instruction]) -> u128 {
    let mut stack: Vec<u128> = Vec::new();
    for insn in insns {
        match insn {
            Instruction::PUSH(bytes) => {
                stack.push(bytes.iter().fold(0, |acc, b| acc * 256 + *b as u128));
            }
            _ => {
                // The machine takes its left operand from the top.
                let lhs = stack.pop().unwrap();
                let rhs = stack.pop().unwrap();
                stack.push(match insn {
                    Instruction::ADD => lhs + rhs,
                    Instruction::SUB => lhs - rhs,
                    Instruction::MUL => lhs * rhs,
                    Instruction::DIV => lhs / rhs,
                    Instruction::MOD => lhs % rhs,
                    Instruction::LT => (lhs < rhs) as u128,
                    Instruction::GT => (lhs > rhs) as u128,
                    _ => panic!("not arithmetic"),
                });
            }
        }
    }
    stack.pop().unwrap()
}

// ----------------------------------------------------------------------
// The stream
// ----------------------------------------------------------------------

#[test]
fn test_bytecode_labels_are_never_issued_twice() {
    let mut bytecode = Bytecode::new();
    assert_eq!(bytecode.labels(), 0);
    assert_eq!(bytecode.fresh_label(), 0);
    assert_eq!(bytecode.fresh_label(), 1);
    assert_eq!(bytecode.fresh_label(), 2);
    assert_eq!(bytecode.labels(), 3);
}

#[test]
fn test_bytecode_push_appends() {
    let mut bytecode = Bytecode::new();
    assert!(bytecode.instructions().is_empty());
    bytecode.push(Instruction::ADD);
    bytecode.push(Instruction::STOP);
    assert_eq!(bytecode.instructions(), &vec![Instruction::ADD, Instruction::STOP]);
}

// ----------------------------------------------------------------------
// Labels
// ----------------------------------------------------------------------

#[test]
fn test_label_is_allocated_once() {
    let mut bytecode = Bytecode::new();
    let mut compiler = Compiler::new(&mut bytecode);
    let first = compiler.label("first");
    let second = compiler.label("second");
    assert_ne!(first, second);
    assert_eq!(compiler.label("first"), first);
    assert_eq!(compiler.label("second"), second);
    assert_eq!(bytecode.labels(), 2);
}

#[test]
fn test_named_and_fresh_labels_do_not_clash() {
    let mut bytecode = Bytecode::new();
    let fresh = bytecode.fresh_label();
    let mut compiler = Compiler::new(&mut bytecode);
    let named = compiler.label("loop");
    assert_ne!(named, fresh);
}

#[test]
fn test_label_issued_later_is_the_label_of_no_name() {
    let mut bytecode = Bytecode::new();
    let mut compiler = Compiler::new(&mut bytecode);
    let first = compiler.label("first");
    let second = compiler.label("second");
    let fresh = compiler.bytecode.fresh_label();
    assert_ne!(fresh, first);
    assert_ne!(fresh, second);
    // A name that is met after that gets yet another label.
    let third = compiler.label("third");
    assert_ne!(third, fresh);
    assert_eq!(compiler.label("first"), first);
}

// ----------------------------------------------------------------------
// Statements
// ----------------------------------------------------------------------

#[test]
fn test_fail_and_stop() {
    assert_eq!(compile(&[Term::Fail]), Ok(vec![Instruction::INVALID]));
    assert_eq!(compile(&[Term::Stop]), Ok(vec![Instruction::STOP]));
}

#[test]
fn test_goto_and_label() {
    let insns = compile(&[
        Term::Goto("end".to_string()),
        Term::Fail,
        Term::Label("end".to_string()),
        Term::Stop,
    ]);
    assert_eq!(
        insns,
        Ok(vec![
            Instruction::PUSHL(0),
            Instruction::JUMP,
            Instruction::INVALID,
            Instruction::JUMPDEST(0),
            Instruction::STOP,
        ])
    );
}

#[test]
fn test_assert() {
    let insns = compile(&[Term::Assert(Box::new(dec("1")))]);
    assert_eq!(
        insns,
        Ok(vec![
            push(&[1]),
            Instruction::PUSHL(0),
            Instruction::JUMPI,
            Instruction::INVALID,
            Instruction::JUMPDEST(0),
        ])
    );
}

#[test]
fn test_ifgoto_simple_condition() {
    let insns = compile(&[Term::IfGoto(Box::new(dec("1")), "l".to_string())]);
    assert_eq!(insns, Ok(vec![push(&[1]), Instruction::PUSHL(0), Instruction::JUMPI]));
}

#[test]
fn test_ifgoto_conjunction() {
    // if-goto(a && b, L); INVALID; label(L); STOP
    let insns = compile(&[
        Term::IfGoto(Box::new(binary(BinOp::LogicalAnd, dec("1"), dec("2"))), "L".to_string()),
        Term::Fail,
        Term::Label("L".to_string()),
        Term::Stop,
    ])
    .unwrap();
    // L is label 0, and the label to skip the right operand is label 1.
    assert_eq!(
        insns,
        vec![
            // a, jumping past b if it is false
            push(&[1]),
            Instruction::ISZERO,
            Instruction::PUSHL(1),
            Instruction::JUMPI,
            // b, jumping to L if it is true
            push(&[2]),
            Instruction::PUSHL(0),
            Instruction::JUMPI,
            // the skip label
            Instruction::JUMPDEST(1),
            Instruction::INVALID,
            Instruction::JUMPDEST(0),
            Instruction::STOP,
        ]
    );
    // One conditional jump for each operand, and no unconditional jump.
    assert_eq!(insns.iter().filter(|insn| **insn == Instruction::JUMPI).count(), 2);
    assert_eq!(insns.iter().filter(|insn| **insn == Instruction::JUMP).count(), 0);
}

#[test]
fn test_ifgoto_disjunction() {
    let insns = compile(&[Term::IfGoto(
        Box::new(binary(BinOp::LogicalOr, dec("1"), dec("2"))),
        "L".to_string(),
    )]);
    // Both operands jump to L when true: no label of its own is needed.
    assert_eq!(
        insns,
        Ok(vec![
            push(&[1]),
            Instruction::PUSHL(0),
            Instruction::JUMPI,
            push(&[2]),
            Instruction::PUSHL(0),
            Instruction::JUMPI,
        ])
    );
}

#[test]
fn test_conditional_with_false_target() {
    let mut bytecode = Bytecode::new();
    let target = bytecode.fresh_label();
    let mut compiler = Compiler::new(&mut bytecode);
    // a && b, leaving for the target when false.
    let conjunction = binary(BinOp::LogicalAnd, dec("1"), dec("2"));
    assert_eq!(compiler.translate_conditional(&conjunction, None, Some(target)), Ok(()));
    assert_eq!(
        bytecode.instructions(),
        &vec![
            push(&[1]),
            Instruction::ISZERO,
            Instruction::PUSHL(target),
            Instruction::JUMPI,
            push(&[2]),
            Instruction::ISZERO,
            Instruction::PUSHL(target),
            Instruction::JUMPI,
        ]
    );
}

#[test]
fn test_conditional_disjunction_with_false_target() {
    let mut bytecode = Bytecode::new();
    let target = bytecode.fresh_label();
    let mut compiler = Compiler::new(&mut bytecode);
    // a || b, leaving for the target when false.
    let disjunction = binary(BinOp::LogicalOr, dec("1"), dec("2"));
    assert_eq!(compiler.translate_conditional(&disjunction, None, Some(target)), Ok(()));
    let skip = target + 1;
    assert_eq!(
        bytecode.instructions(),
        &vec![
            // a, jumping past b if it is true
            push(&[1]),
            Instruction::PUSHL(skip),
            Instruction::JUMPI,
            // b, jumping to the target if it is false
            push(&[2]),
            Instruction::ISZERO,
            Instruction::PUSHL(target),
            Instruction::JUMPI,
            Instruction::JUMPDEST(skip),
        ]
    );
}

#[test]
fn test_nested_conditional() {
    // (a && b) || c with a true target
    let expr = binary(BinOp::LogicalOr, binary(BinOp::LogicalAnd, dec("1"), dec("2")), dec("3"));
    let insns = compile(&[Term::IfGoto(Box::new(expr), "L".to_string())]);
    assert_eq!(
        insns,
        Ok(vec![
            push(&[1]),
            Instruction::ISZERO,
            Instruction::PUSHL(1),
            Instruction::JUMPI,
            push(&[2]),
            Instruction::PUSHL(0),
            Instruction::JUMPI,
            Instruction::JUMPDEST(1),
            push(&[3]),
            Instruction::PUSHL(0),
            Instruction::JUMPI,
        ])
    );
}

#[test]
fn test_succeed_without_values_is_stop() {
    assert_eq!(compile(&[Term::Succeed(vec![])]), Ok(vec![Instruction::STOP]));
}

#[test]
fn test_revert_without_values() {
    assert_eq!(
        compile(&[Term::Revert(vec![])]),
        Ok(vec![push(&[0]), push(&[0]), Instruction::REVERT])
    );
}

#[test]
fn test_succeed_with_values() {
    let insns = compile(&[Term::Succeed(vec![dec("7"), dec("8")])]);
    assert_eq!(
        insns,
        Ok(vec![
            push(&[7]),
            push(&[0x00]),
            Instruction::MSTORE,
            push(&[8]),
            push(&[0x20]),
            Instruction::MSTORE,
            // The length of the range, and its offset on top.
            push(&[0x40]),
            push(&[0]),
            Instruction::RETURN,
        ])
    );
}

#[test]
fn test_revert_with_values() {
    let insns = compile(&[Term::Revert(vec![dec("7")])]);
    assert_eq!(
        insns,
        Ok(vec![
            push(&[7]),
            push(&[0x00]),
            Instruction::MSTORE,
            push(&[0x20]),
            push(&[0]),
            Instruction::REVERT,
        ])
    );
}

#[test]
fn test_succeed_with_many_values_uses_wider_offsets() {
    let values: Vec<Term> = (0..9).map(|_| dec("1")).collect();
    let insns = compile(&[Term::Succeed(values)]).unwrap();
    // The ninth value goes to offset 256, which takes two bytes.
    assert_eq!(insns[8 * 3 + 1], push(&[0x01, 0x00]));
    assert_eq!(insns[insns.len() - 3], push(&[0x01, 0x20]));
    assert_eq!(insns[insns.len() - 2], push(&[0]));
}

// ----------------------------------------------------------------------
// Assignments and accesses
// ----------------------------------------------------------------------

#[test]
fn test_assignment_to_memory_and_storage() {
    let insns = compile(&[Term::Assignment(
        Box::new(access(Region::Memory, dec("1"))),
        Box::new(dec("2")),
    )]);
    // The value first, then the index, then the store.
    assert_eq!(insns, Ok(vec![push(&[2]), push(&[1]), Instruction::MSTORE]));
    let insns = compile(&[Term::Assignment(
        Box::new(access(Region::Storage, dec("1"))),
        Box::new(dec("2")),
    )]);
    assert_eq!(insns, Ok(vec![push(&[2]), push(&[1]), Instruction::SSTORE]));
}

#[test]
fn test_assignment_to_call_data_is_invalid() {
    let term =
        Term::Assignment(Box::new(access(Region::CallData, dec("1"))), Box::new(dec("2")));
    assert_eq!(compile(&[term]), Err(CompilerError::InvalidMemoryAccess));
}

#[test]
fn test_assignment_to_something_that_is_no_region() {
    let lhs = Term::ArrayAccess(Box::new(dec("0")), Box::new(dec("1")));
    let term = Term::Assignment(Box::new(lhs), Box::new(dec("2")));
    assert_eq!(compile(&[term]), Err(CompilerError::InvalidMemoryAccess));
}

#[test]
fn test_assignment_to_a_value_is_no_lval() {
    let term = Term::Assignment(Box::new(dec("1")), Box::new(dec("2")));
    assert_eq!(compile(&[term]), Err(CompilerError::InvalidLVal));
    let term = Term::Assignment(Box::new(Term::MemoryAccess(Region::Memory)), Box::new(dec("2")));
    assert_eq!(compile(&[term]), Err(CompilerError::InvalidLVal));
}

#[test]
fn test_array_access_loads() {
    assert_eq!(
        compile(&[access(Region::Memory, dec("1"))]),
        Ok(vec![push(&[1]), Instruction::MLOAD])
    );
    assert_eq!(
        compile(&[access(Region::Storage, dec("1"))]),
        Ok(vec![push(&[1]), Instruction::SLOAD])
    );
    assert_eq!(
        compile(&[access(Region::CallData, dec("1"))]),
        Ok(vec![push(&[1]), Instruction::CALLDATALOAD])
    );
}

#[test]
fn test_array_access_of_something_that_is_no_region() {
    let term = Term::ArrayAccess(Box::new(dec("0")), Box::new(dec("1")));
    assert_eq!(compile(&[term]), Err(CompilerError::InvalidMemoryAccess));
}

#[test]
fn test_region_alone_is_invalid() {
    assert_eq!(
        compile(&[Term::MemoryAccess(Region::Storage)]),
        Err(CompilerError::InvalidMemoryAccess)
    );
}

// ----------------------------------------------------------------------
// Binary expressions
// ----------------------------------------------------------------------

#[test]
fn test_binary_pushes_right_operand_first() {
    let insns = compile(&[binary(BinOp::Subtract, dec("7"), dec("2"))]);
    assert_eq!(insns, Ok(vec![push(&[2]), push(&[7]), Instruction::SUB]));
}

#[test]
fn test_subtraction_runs_as_left_minus_right() {
    let insns = compile(&[binary(BinOp::Subtract, dec("7"), dec("2"))]).unwrap();
    assert_eq!(evaluate(&insns), 5);
    let insns = compile(&[binary(
        BinOp::Subtract,
        dec("100"),
        binary(BinOp::Subtract, dec("30"), dec("4")),
    )])
    .unwrap();
    assert_eq!(evaluate(&insns), 74);
    let insns = compile(&[binary(BinOp::Divide, dec("12"), dec("4"))]).unwrap();
    assert_eq!(evaluate(&insns), 3);
    let insns = compile(&[binary(BinOp::LessThan, dec("1"), dec("2"))]).unwrap();
    assert_eq!(evaluate(&insns), 1);
}

#[test]
fn test_binary_operators() {
    let cases = [
        (BinOp::Add, vec![Instruction::ADD]),
        (BinOp::Subtract, vec![Instruction::SUB]),
        (BinOp::Divide, vec![Instruction::DIV]),
        (BinOp::Multiply, vec![Instruction::MUL]),
        (BinOp::Remainder, vec![Instruction::MOD]),
        (BinOp::Equals, vec![Instruction::EQ]),
        (BinOp::LessThan, vec![Instruction::LT]),
        (BinOp::GreaterThan, vec![Instruction::GT]),
        (BinOp::NotEquals, vec![Instruction::EQ, Instruction::ISZERO]),
        (BinOp::LessThanOrEquals, vec![Instruction::GT, Instruction::ISZERO]),
        (BinOp::GreaterThanOrEquals, vec![Instruction::LT, Instruction::ISZERO]),
    ];
    for (op, tail) in cases {
        let mut expected = vec![push(&[2]), push(&[1])];
        expected.extend(tail);
        assert_eq!(compile(&[binary(op, dec("1"), dec("2"))]), Ok(expected));
    }
}

#[test]
fn test_logical_and_as_a_value() {
    let insns = compile(&[binary(BinOp::LogicalAnd, dec("1"), dec("2"))]);
    assert_eq!(
        insns,
        Ok(vec![
            push(&[1]),
            Instruction::DUP(1),
            Instruction::ISZERO,
            Instruction::PUSHL(0),
            Instruction::JUMPI,
            Instruction::POP,
            push(&[2]),
            Instruction::JUMPDEST(0),
        ])
    );
}

#[test]
fn test_logical_or_as_a_value() {
    let insns = compile(&[binary(BinOp::LogicalOr, dec("1"), dec("2"))]);
    assert_eq!(
        insns,
        Ok(vec![
            push(&[1]),
            Instruction::DUP(1),
            Instruction::PUSHL(0),
            Instruction::JUMPI,
            Instruction::POP,
            push(&[2]),
            Instruction::JUMPDEST(0),
        ])
    );
}

// ----------------------------------------------------------------------
// Literals
// ----------------------------------------------------------------------

#[test]
fn test_literals() {
    assert_eq!(compile(&[dec("0")]), Ok(vec![push(&[0])]));
    assert_eq!(compile(&[dec("255")]), Ok(vec![push(&[255])]));
    assert_eq!(compile(&[dec("256")]), Ok(vec![push(&[1, 0])]));
    assert_eq!(compile(&[dec("0042")]), Ok(vec![push(&[42])]));
    assert_eq!(compile(&[hex("ff")]), Ok(vec![push(&[0xff])]));
    assert_eq!(compile(&[hex("0102")]), Ok(vec![push(&[0x01, 0x02])]));
}

#[test]
fn test_literal_at_the_boundary() {
    // 2^256 - 1
    let max = "115792089237316195423570985008687907853269984665640564039457584007913129639935";
    assert_eq!(compile(&[dec(max)]), Ok(vec![push(&[0xff; 32])]));
    let max = "f".repeat(64);
    assert_eq!(compile(&[hex(&max)]), Ok(vec![push(&[0xff; 32])]));
}

#[test]
fn test_literal_overflow() {
    // 2^256
    let over = "115792089237316195423570985008687907853269984665640564039457584007913129639936";
    assert_eq!(compile(&[dec(over)]), Err(CompilerError::LiteralOverflow));
    let over = format!("1{}", "0".repeat(64));
    assert_eq!(compile(&[hex(&over)]), Err(CompilerError::LiteralOverflow));
}

#[test]
fn test_make_push() {
    assert_eq!(make_push(vec![1, 2]), Ok(Instruction::PUSH(vec![1, 2])));
    assert_eq!(make_push(vec![7; 32]), Ok(Instruction::PUSH(vec![7; 32])));
    assert_eq!(make_push(vec![7; 33]), Err(CompilerError::LiteralOverflow));
}

// ----------------------------------------------------------------------
// Failure
// ----------------------------------------------------------------------

#[test]
fn test_failure_is_reported_at_once() {
    let over = "115792089237316195423570985008687907853269984665640564039457584007913129639936";
    // The failing operand is compiled first, so nothing of the other shows.
    let term = binary(BinOp::Add, dec("1"), dec(over));
    let mut bytecode = Bytecode::new();
    let mut compiler = Compiler::new(&mut bytecode);
    assert_eq!(compiler.translate(&term), Err(CompilerError::LiteralOverflow));
    assert!(bytecode.instructions().is_empty());
}

#[test]
fn test_failure_inside_a_statement() {
    let bad = Term::MemoryAccess(Region::Memory);
    assert_eq!(
        compile(&[Term::Assert(Box::new(bad))]),
        Err(CompilerError::InvalidMemoryAccess)
    );
    let bad = Term::MemoryAccess(Region::Memory);
    assert_eq!(
        compile(&[Term::Succeed(vec![dec("1"), bad])]),
        Err(CompilerError::InvalidMemoryAccess)
    );
    let bad = Term::MemoryAccess(Region::Memory);
    assert_eq!(
        compile(&[Term::IfGoto(
            Box::new(binary(BinOp::LogicalAnd, dec("1"), bad)),
            "l".to_string()
        )]),
        Err(CompilerError::InvalidMemoryAccess)
    );
}
