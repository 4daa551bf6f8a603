use evmil::evm;
use evmil::evm::concrete::Stack;
use evmil::evm::opcode::{ADD, PUSH1, PUSH2, PUSH32, STOP};
use evmil::evm::Stack as _;
use evmil::util::u256;

/// Define a concrete EVM
type Evm<'a> = evm::Evm<'a, u256, Stack<u256>>;

#[test]
fn test_evm_01() {
    Evm::new(&[PUSH1, 0x1, PUSH1, 0x2, ADD, STOP]).run();
}

#[test]
fn test_evm_new_starts_empty() {
    let evm = Evm::new(&[STOP]);
    assert_eq!(evm.position(), 0);
    assert_eq!(evm.stack().len().to_u64(), Some(0));
}

#[test]
fn test_evm_step_stop() {
    assert!(Evm::new(&[STOP]).step().is_none());
}

#[test]
fn test_evm_step_push() {
    let evm = Evm::new(&[PUSH1, 0x7, STOP]).step().unwrap();
    assert_eq!(evm.position(), 2);
    assert_eq!(evm.stack().len().to_u64(), Some(1));
    assert_eq!(evm.stack().peek(0).to_u64(), Some(7));
}

#[test]
fn test_evm_step_push_wide() {
    let evm = Evm::new(&[PUSH2, 0x01, 0x02, STOP]).step().unwrap();
    assert_eq!(evm.position(), 3);
    assert_eq!(evm.stack().peek(0).to_u64(), Some(0x0102));
}

#[test]
fn test_evm_step_push_full_word() {
    let mut code = vec![PUSH32];
    code.extend_from_slice(&[0xff; 32]);
    code.push(STOP);
    let evm = Evm::new(&code).step().unwrap();
    assert_eq!(evm.position(), 33);
    assert_eq!(evm.stack().peek(0).to_u64(), None);
    assert_eq!(evm.stack().peek(0).low_u64(), u64::MAX);
}

#[test]
fn test_evm_step_add() {
    let evm = Evm::new(&[PUSH1, 0x1, PUSH1, 0x2, ADD, STOP]);
    let evm = evm.step().unwrap().step().unwrap().step().unwrap();
    assert_eq!(evm.position(), 5);
    assert_eq!(evm.stack().len().to_u64(), Some(1));
    assert_eq!(evm.stack().peek(0).to_u64(), Some(3));
    assert!(evm.step().is_none());
}

#[test]
fn test_evm_push_pop_next() {
    let evm = Evm::new(&[STOP, STOP, STOP]);
    let evm = evm.push(u256::from(5u64)).push(u256::from(6u64)).push(u256::from(7u64));
    assert_eq!(evm.stack().peek(0).to_u64(), Some(7));
    assert_eq!(evm.stack().peek(2).to_u64(), Some(5));
    let evm = evm.pop(2);
    assert_eq!(evm.stack().len().to_u64(), Some(1));
    assert_eq!(evm.stack().peek(0).to_u64(), Some(5));
    let evm = evm.next(2);
    assert_eq!(evm.position(), 2);
    // Popping more than there is empties the stack.
    let evm = evm.pop(9);
    assert_eq!(evm.stack().len().to_u64(), Some(0));
}

#[test]
fn test_stack_new_keeps_order() {
    let stack = Stack::new(&[u256::from(1u64), u256::from(2u64)]);
    assert_eq!(stack.peek(0).to_u64(), Some(2));
    assert_eq!(stack.peek(1).to_u64(), Some(1));
    assert_eq!(stack.len().to_u64(), Some(2));
}
