use evmil::analysis::disassembler::{Disassemble, Disassembly};
use evmil::analysis::{AbstractState, AbstractValue, Block, Reach};
use evmil::ll::Instruction;

const STOP: u8 = 0x00;
const ADD: u8 = 0x01;
const JUMP: u8 = 0x56;
const JUMPI: u8 = 0x57;
const JUMPDEST: u8 = 0x5b;
const PUSH1: u8 = 0x60;
const PUSH2: u8 = 0x61;
const RETURN: u8 = 0xf3;
const REVERT: u8 = 0xfd;
const INVALID: u8 = 0xfe;

/// Decode a whole buffer, one instruction after the other.
fn decode_all(bytes: &[u8]) -> Vec<Instruction> {
    let mut insns = Vec::new();
    let mut pc = 0;
    while pc < bytes.len() {
        let (insn, length) = Instruction::decode(pc, bytes);
        insns.push(insn);
        pc += length;
    }
    insns
}

fn scan(bytes: &[u8]) -> Vec<Block> {
    Disassembly::<()>::scan_blocks(bytes)
}

/// Check that `blocks` cut `[0, len)` into consecutive ranges, none empty.
fn assert_partition(blocks: &[Block], len: usize) {
    let mut at = 0;
    for block in blocks {
        assert_eq!(block.start, at);
        assert!(block.start < block.end);
        at = block.end;
    }
    assert_eq!(at, len);
}

// ----------------------------------------------------------------------
// Blocks
// ----------------------------------------------------------------------

#[test]
fn test_block_new_and_encloses() {
    let block = Block::new(2, 5);
    assert_eq!(block, Block { start: 2, end: 5 });
    assert!(!block.encloses(1));
    assert!(block.encloses(2));
    assert!(block.encloses(4));
    assert!(!block.encloses(5));
}

#[test]
fn test_scan_single_block() {
    let bytes = [PUSH1, 0x01, PUSH1, 0x02, ADD, STOP];
    assert_eq!(scan(&bytes), vec![Block::new(0, 6)]);
}

#[test]
fn test_scan_empty_buffer_has_no_blocks() {
    assert_eq!(scan(&[]), vec![]);
}

#[test]
fn test_scan_splits_after_each_terminator() {
    let bytes = [STOP, JUMP, RETURN, REVERT, INVALID, ADD];
    assert_eq!(
        scan(&bytes),
        vec![
            Block::new(0, 1),
            Block::new(1, 2),
            Block::new(2, 3),
            Block::new(3, 4),
            Block::new(4, 5),
            Block::new(5, 6),
        ]
    );
}

#[test]
fn test_scan_splits_before_jumpdest() {
    let bytes = [ADD, JUMPDEST, ADD, JUMPDEST, STOP];
    assert_eq!(scan(&bytes), vec![Block::new(0, 1), Block::new(1, 3), Block::new(3, 5)]);
}

#[test]
fn test_scan_jumpdest_at_block_start_makes_no_empty_block() {
    let bytes = [JUMPDEST, ADD, STOP, JUMPDEST, STOP];
    assert_eq!(scan(&bytes), vec![Block::new(0, 3), Block::new(3, 5)]);
}

#[test]
fn test_scan_jumpi_does_not_end_a_block() {
    let bytes = [PUSH1, 0x05, JUMPI, ADD, STOP];
    assert_eq!(scan(&bytes), vec![Block::new(0, 5)]);
}

#[test]
fn test_scan_trailing_block() {
    let bytes = [STOP, ADD, ADD];
    assert_eq!(scan(&bytes), vec![Block::new(0, 1), Block::new(1, 3)]);
}

#[test]
fn test_scan_push_operand_is_not_an_opcode() {
    // The operand bytes look like a jump destination and a stop.
    let bytes = [PUSH2, JUMPDEST, STOP, ADD];
    assert_eq!(scan(&bytes), vec![Block::new(0, 4)]);
}

#[test]
fn test_scan_truncated_push_ends_with_the_buffer() {
    let bytes = [ADD, PUSH2, 0x01];
    assert_eq!(scan(&bytes), vec![Block::new(0, 3)]);
}

#[test]
fn test_scan_covers_every_buffer() {
    let buffers: Vec<Vec<u8>> = vec![
        vec![STOP],
        vec![JUMPDEST],
        vec![0x7f],
        vec![0xef, 0x0c, JUMPDEST, 0x7f, 0x00],
        (0u8..=255).collect(),
        (0u8..=255).rev().collect(),
        vec![JUMPDEST; 9],
        vec![STOP; 9],
    ];
    for bytes in buffers {
        assert_partition(&scan(&bytes), bytes.len());
    }
}

// ----------------------------------------------------------------------
// Decoding
// ----------------------------------------------------------------------

#[test]
fn test_decode_plain_and_families() {
    let bytes = [ADD, 0x80, 0x8f, 0x90, 0x9f, 0xa0, 0xa4, JUMPDEST, 0xff];
    assert_eq!(Instruction::decode(0, &bytes), (Instruction::ADD, 1));
    assert_eq!(Instruction::decode(1, &bytes), (Instruction::DUP(1), 1));
    assert_eq!(Instruction::decode(2, &bytes), (Instruction::DUP(16), 1));
    assert_eq!(Instruction::decode(3, &bytes), (Instruction::SWAP(1), 1));
    assert_eq!(Instruction::decode(4, &bytes), (Instruction::SWAP(16), 1));
    assert_eq!(Instruction::decode(5, &bytes), (Instruction::LOG(0), 1));
    assert_eq!(Instruction::decode(6, &bytes), (Instruction::LOG(4), 1));
    assert_eq!(Instruction::decode(7, &bytes), (Instruction::JUMPDEST(7), 1));
    assert_eq!(Instruction::decode(8, &bytes), (Instruction::SELFDESTRUCT, 1));
}

#[test]
fn test_decode_push() {
    let bytes = [PUSH2, 0xab, 0xcd, STOP];
    assert_eq!(Instruction::decode(0, &bytes), (Instruction::PUSH(vec![0xab, 0xcd]), 3));
}

#[test]
fn test_decode_truncated_push_is_padded() {
    let bytes = [PUSH2, 0xab];
    assert_eq!(Instruction::decode(0, &bytes), (Instruction::PUSH(vec![0xab, 0x00]), 2));
    let bytes = [0x7f];
    assert_eq!(Instruction::decode(0, &bytes), (Instruction::PUSH(vec![0; 32]), 1));
}

#[test]
fn test_decode_unknown_opcode_is_data() {
    let bytes = [0x0c, 0xef];
    assert_eq!(Instruction::decode(0, &bytes), (Instruction::DATA(vec![0x0c]), 1));
    assert_eq!(Instruction::decode(1, &bytes), (Instruction::DATA(vec![0xef]), 1));
}

#[test]
fn test_decode_past_the_end_is_stop() {
    assert_eq!(Instruction::decode(3, &[ADD]), (Instruction::STOP, 1));
}

#[test]
fn test_instruction_kinds() {
    assert!(Instruction::JUMP.can_branch());
    assert!(Instruction::JUMPI.can_branch());
    assert!(!Instruction::ADD.can_branch());
    assert!(Instruction::JUMP.is_terminator());
    assert!(Instruction::STOP.is_terminator());
    assert!(Instruction::RETURN.is_terminator());
    assert!(Instruction::REVERT.is_terminator());
    assert!(Instruction::INVALID.is_terminator());
    assert!(!Instruction::JUMPI.is_terminator());
    assert!(Instruction::JUMPDEST(0).is_jump_dest());
    assert!(!Instruction::PUSH(vec![0x5b]).is_jump_dest());
}

// ----------------------------------------------------------------------
// Disassembly
// ----------------------------------------------------------------------

#[test]
fn test_single_block_is_reachable_and_flattens_unchanged() {
    let bytes = [PUSH1, 0x01, PUSH1, 0x02, ADD, STOP];
    let dis: Disassembly = Disassembly::new(&bytes);
    assert_eq!(*dis.get_enclosing_block(0), Block::new(0, 6));
    assert_eq!(*dis.get_enclosing_block(5), Block::new(0, 6));
    assert!(dis.is_block_reachable(0));
    assert_eq!(
        dis.to_vec(),
        vec![
            Instruction::PUSH(vec![0x01]),
            Instruction::PUSH(vec![0x02]),
            Instruction::ADD,
            Instruction::STOP,
        ]
    );
}

#[test]
fn test_new_enters_first_block_only() {
    let bytes = [STOP, JUMPDEST, STOP, ADD];
    let dis: Disassembly<Reach> = Disassembly::new(&bytes);
    // The first block starts in the origin state.
    assert_eq!(dis.get_state(0), Reach::origin());
    assert!(dis.is_block_reachable(0));
    // Every other block starts at bottom.
    assert_eq!(dis.get_state(1), Reach::bottom());
    assert_eq!(dis.get_state(3), Reach::bottom());
    assert!(!dis.is_block_reachable(1));
    assert!(!dis.is_block_reachable(2));
}

#[test]
fn test_first_block_counts_as_reachable_whatever_its_state() {
    let bytes = [STOP, STOP];
    let dis: Disassembly<Reach> = Disassembly::new(&bytes);
    assert!(dis.is_block_reachable(0));
    assert!(!dis.is_block_reachable(1));
}

#[test]
fn test_get_enclosing_block() {
    let bytes = [ADD, STOP, JUMPDEST, ADD, STOP, ADD];
    let dis: Disassembly = Disassembly::new(&bytes);
    assert_eq!(*dis.get_enclosing_block(0), Block::new(0, 2));
    assert_eq!(*dis.get_enclosing_block(1), Block::new(0, 2));
    assert_eq!(*dis.get_enclosing_block(2), Block::new(2, 5));
    assert_eq!(*dis.get_enclosing_block(4), Block::new(2, 5));
    assert_eq!(*dis.get_enclosing_block(5), Block::new(5, 6));
    assert_eq!(dis.get_enclosing_block_id(0), 0);
    assert_eq!(dis.get_enclosing_block_id(3), 1);
    assert_eq!(dis.get_enclosing_block_id(5), 2);
}

#[test]
fn test_read_bytes_inside() {
    let bytes = [1, 2, 3, 4];
    let dis: Disassembly = Disassembly::new(&bytes);
    assert_eq!(dis.read_bytes(1, 3), vec![2, 3]);
    assert_eq!(dis.read_bytes(0, 4), vec![1, 2, 3, 4]);
    assert_eq!(dis.read_bytes(2, 2), vec![]);
}

#[test]
fn test_read_bytes_pads_with_zeros() {
    let bytes = [1, 2, 3, 4];
    let dis: Disassembly = Disassembly::new(&bytes);
    // Partly past the end.
    assert_eq!(dis.read_bytes(2, 7), vec![3, 4, 0, 0, 0]);
    // Wholly past the end.
    assert_eq!(dis.read_bytes(4, 6), vec![0, 0]);
    assert_eq!(dis.read_bytes(9, 12), vec![0, 0, 0]);
}

#[test]
fn test_to_vec_of_reachable_code_is_sequential_decoding() {
    let buffers: Vec<Vec<u8>> = vec![
        vec![PUSH1, 0x01, PUSH1, 0x02, ADD, STOP],
        vec![JUMPDEST, PUSH1, 0x00, JUMP, JUMPDEST, STOP, 0xef, PUSH2, 0x01],
        (0u8..=255).collect(),
    ];
    for bytes in buffers {
        let dis: Disassembly = Disassembly::new(&bytes);
        assert_eq!(dis.to_vec(), decode_all(&bytes));
    }
}

#[test]
fn test_get_state_replays_the_block() {
    let bytes = [PUSH1, 0x04, ADD, STOP, JUMPDEST, PUSH2, 0x01, 0x00, STOP];
    let dis: Disassembly<Reach> = Disassembly::new(&bytes).build();
    // At the start of the first block nothing is known.
    assert_eq!(dis.get_state(0), Reach::Reached(AbstractValue::Unknown));
    // After the push the top of the stack is known.
    assert_eq!(dis.get_state(2), Reach::Reached(AbstractValue::Known(4)));
    // After the addition it no longer is.
    assert_eq!(dis.get_state(3), Reach::Reached(AbstractValue::Unknown));
    // Nothing leads to the second block.
    assert_eq!(dis.get_state(4), Reach::Unreached);
    assert_eq!(dis.get_state(8), Reach::Unreached);
}

#[test]
fn test_build_follows_a_jump() {
    // 0: PUSH1 4; JUMP         block 0
    // 3: STOP                  block 1, skipped
    // 4: JUMPDEST; STOP        block 2, the target
    let bytes = [PUSH1, 0x04, JUMP, STOP, JUMPDEST, STOP];
    let dis: Disassembly<Reach> = Disassembly::new(&bytes).build();
    assert!(dis.is_block_reachable(0));
    assert!(!dis.is_block_reachable(1));
    assert!(dis.is_block_reachable(2));
    assert_eq!(
        dis.to_vec(),
        vec![
            Instruction::PUSH(vec![0x04]),
            Instruction::JUMP,
            Instruction::DATA(vec![STOP]),
            Instruction::JUMPDEST(4),
            Instruction::STOP,
        ]
    );
}

#[test]
fn test_build_follows_both_sides_of_a_conditional_jump() {
    // 0: PUSH1 1; PUSH1 7; JUMPI; STOP    block 0
    // 6: INVALID                          block 1, not reached
    // 7: JUMPDEST; STOP                   block 2, the target
    let bytes = [PUSH1, 0x01, PUSH1, 0x07, JUMPI, STOP, INVALID, JUMPDEST, STOP];
    let dis: Disassembly<Reach> = Disassembly::new(&bytes).build();
    assert!(dis.is_block_reachable(0));
    assert!(!dis.is_block_reachable(1));
    assert!(dis.is_block_reachable(2));
    // The fall-through side goes on inside the first block.
    assert_eq!(dis.get_state(5), Reach::Reached(AbstractValue::Unknown));
}

#[test]
fn test_build_falls_through_into_the_next_block() {
    let bytes = [ADD, JUMPDEST, STOP, ADD];
    let dis: Disassembly<Reach> = Disassembly::new(&bytes).build();
    assert!(dis.is_block_reachable(0));
    assert!(dis.is_block_reachable(1));
    assert!(!dis.is_block_reachable(2));
}

#[test]
fn test_build_needs_a_second_pass_for_a_backward_jump() {
    // 0: PUSH1 6; JUMP               block 0
    // 3: JUMPDEST; STOP              block 1, reached from block 3 only
    // 5: STOP                        block 2, never reached
    // 6: JUMPDEST; PUSH1 3; JUMP     block 3
    let bytes = [PUSH1, 0x06, JUMP, JUMPDEST, STOP, STOP, JUMPDEST, PUSH1, 0x03, JUMP];
    let dis: Disassembly<Reach> = Disassembly::new(&bytes).build();
    assert!(dis.is_block_reachable(0));
    assert!(dis.is_block_reachable(1));
    assert!(!dis.is_block_reachable(2));
    assert!(dis.is_block_reachable(3));
}

#[test]
fn test_build_twice_changes_nothing_more() {
    let bytes = [PUSH1, 0x06, JUMP, JUMPDEST, STOP, STOP, JUMPDEST, PUSH1, 0x03, JUMP];
    let once: Disassembly<Reach> = Disassembly::new(&bytes).build();
    let states: Vec<Reach> = (0..bytes.len()).map(|pc| once.get_state(pc)).collect();
    let listing = once.to_vec();
    let twice = once.build();
    let again: Vec<Reach> = (0..bytes.len()).map(|pc| twice.get_state(pc)).collect();
    assert_eq!(states, again);
    assert_eq!(listing, twice.to_vec());
}

#[test]
fn test_build_never_loses_a_reachable_block() {
    let bytes = [PUSH1, 0x06, JUMP, JUMPDEST, STOP, STOP, JUMPDEST, PUSH1, 0x03, JUMP];
    // Start from a disassembly in which every block counts as reachable.
    let coarse: Disassembly = Disassembly::new(&bytes).build();
    let fine: Disassembly<Reach> = coarse.refine::<Reach>();
    for id in 0..4 {
        assert!(fine.is_block_reachable(id));
    }
    let built = fine.build();
    for id in 0..4 {
        assert!(built.is_block_reachable(id));
    }
}

#[test]
fn test_build_of_the_unit_analysis_keeps_everything_reachable() {
    let bytes = [STOP, ADD, STOP, 0xef];
    let dis: Disassembly = Disassembly::new(&bytes).build();
    for id in 0..3 {
        assert!(dis.is_block_reachable(id));
    }
    assert_eq!(dis.to_vec(), decode_all(&bytes));
}

#[test]
fn test_unreachable_block_is_flattened_to_padded_data() {
    // The last block ends inside a truncated push.
    let bytes = [STOP, 0xaa, PUSH2, 0x01];
    let dis: Disassembly<Reach> = Disassembly::new(&bytes).build();
    assert_eq!(
        dis.to_vec(),
        vec![Instruction::STOP, Instruction::DATA(vec![0xaa, PUSH2, 0x01])]
    );
}

#[test]
fn test_try_build_resolves() {
    let bytes = [PUSH1, 0x04, JUMP, STOP, JUMPDEST, STOP];
    let dis: Disassembly<Reach> = Disassembly::new(&bytes);
    let built = dis.try_build().expect("every target lies inside the code");
    assert!(built.is_block_reachable(2));
    assert!(!built.is_block_reachable(1));
}

#[test]
fn test_try_build_rejects_a_target_outside_the_code() {
    let bytes = [PUSH1, 0x09, JUMP, STOP];
    let dis: Disassembly<Reach> = Disassembly::new(&bytes);
    assert!(dis.try_build().is_none());
    // A target right at the end of the code is outside it too.
    let bytes = [PUSH1, 0x03, JUMP];
    let dis: Disassembly<Reach> = Disassembly::new(&bytes);
    assert!(dis.try_build().is_none());
}

#[test]
fn test_refine_converts_each_state() {
    let bytes = [STOP, ADD, STOP];
    let coarse: Disassembly = Disassembly::new(&bytes);
    let fine = coarse.refine::<Reach>();
    assert_eq!(fine.get_state(0), Reach::Reached(AbstractValue::Unknown));
    assert_eq!(fine.get_state(1), Reach::Reached(AbstractValue::Unknown));
    assert_eq!(*fine.get_enclosing_block(1), Block::new(1, 3));
    assert_eq!(fine.read_bytes(0, 3), vec![STOP, ADD, STOP]);
}

#[test]
fn test_refine_to_the_same_kind_of_state() {
    let bytes = [PUSH1, 0x04, JUMP, STOP, JUMPDEST, STOP];
    let built: Disassembly<Reach> = Disassembly::new(&bytes).build();
    let listing = built.to_vec();
    let same = built.refine::<Reach>();
    assert_eq!(same.to_vec(), listing);
}

#[test]
fn test_disassemble_standard_types() {
    let bytes = vec![PUSH1, 0x01, STOP];
    let expected = vec![Instruction::PUSH(vec![0x01]), Instruction::STOP];
    assert_eq!(bytes.disassemble().to_vec(), expected);
    assert_eq!(bytes.as_slice().disassemble().to_vec(), expected);
    // The text "`\x01\x00" holds the same three bytes.
    assert_eq!("\x60\x01\x00".disassemble().to_vec(), expected);
}

// ----------------------------------------------------------------------
// States
// ----------------------------------------------------------------------

#[test]
fn test_unit_state() {
    let mut unit = ();
    assert!(unit.is_reachable());
    assert_eq!(unit.peek(0), AbstractValue::Unknown);
    assert!(!unit.merge(()));
    assert_eq!(unit.transfer(&Instruction::STOP), ());
    assert_eq!(unit.branch(3, &Instruction::JUMP), ());
}

#[test]
fn test_abstract_value() {
    assert!(AbstractValue::Known(3).is_known());
    assert!(!AbstractValue::Unknown.is_known());
    assert_eq!(AbstractValue::Known(3).unwrap(), 3);
}

#[test]
fn test_reach_transfer() {
    let entry = Reach::origin();
    let pushed = entry.transfer(&Instruction::PUSH(vec![0x01, 0x00]));
    assert_eq!(pushed, Reach::Reached(AbstractValue::Known(256)));
    assert_eq!(pushed.peek(0), AbstractValue::Known(256));
    assert_eq!(pushed.peek(1), AbstractValue::Unknown);
    assert_eq!(pushed.transfer(&Instruction::ADD), Reach::Reached(AbstractValue::Unknown));
    assert_eq!(pushed.transfer(&Instruction::STOP), Reach::Unreached);
    assert_eq!(Reach::Unreached.transfer(&Instruction::ADD), Reach::Unreached);
    // A number too large for an offset is not known.
    assert_eq!(
        entry.transfer(&Instruction::PUSH(vec![0xff; 32])),
        Reach::Reached(AbstractValue::Unknown)
    );
}

#[test]
fn test_reach_merge() {
    let mut state = Reach::Unreached;
    assert!(!state.merge(Reach::Unreached));
    assert!(state.merge(Reach::Reached(AbstractValue::Known(1))));
    assert_eq!(state, Reach::Reached(AbstractValue::Known(1)));
    assert!(!state.merge(Reach::Reached(AbstractValue::Known(1))));
    assert!(!state.merge(Reach::Unreached));
    assert!(state.merge(Reach::Reached(AbstractValue::Known(2))));
    assert_eq!(state, Reach::Reached(AbstractValue::Unknown));
    assert!(!state.merge(Reach::Reached(AbstractValue::Known(2))));
    assert!(state.is_reachable());
}
