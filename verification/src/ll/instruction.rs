//! The instruction set: what an instruction is, and how one is read from raw
//! bytes.

use vstd::prelude::*;

verus! {

/// One instruction of the machine, or a run of raw bytes that is not code.
///
/// `B` is the type of the byte strings carried by `PUSH` and `DATA`. Executable
/// code works with `Instruction<Vec<u8>>`, written `Instruction`; contracts
/// speak of its view, [`Insn`], which carries mathematical sequences.
#[allow(non_camel_case_types)]
#[derive(Clone, Debug, PartialEq, Eq)]
pub enum Instruction<B = Vec<u8>> {
    /// `0x00`: halt execution.
    STOP,
    /// `0x01`: addition.
    ADD,
    /// `0x02`: multiplication.
    MUL,
    /// `0x03`: subtraction.
    SUB,
    /// `0x04`: unsigned division.
    DIV,
    /// `0x05`: signed division.
    SDIV,
    /// `0x06`: unsigned remainder.
    MOD,
    /// `0x07`: signed remainder.
    SMOD,
    /// `0x08`: modular addition.
    ADDMOD,
    /// `0x09`: modular multiplication.
    MULMOD,
    /// `0x0a`: exponentiation.
    EXP,
    /// `0x0b`: sign extension.
    SIGNEXTEND,
    /// `0x10`: unsigned less-than.
    LT,
    /// `0x11`: unsigned greater-than.
    GT,
    /// `0x12`: signed less-than.
    SLT,
    /// `0x13`: signed greater-than.
    SGT,
    /// `0x14`: equality.
    EQ,
    /// `0x15`: test for zero.
    ISZERO,
    /// `0x16`: bitwise and.
    AND,
    /// `0x17`: bitwise or.
    OR,
    /// `0x18`: bitwise exclusive or.
    XOR,
    /// `0x19`: bitwise complement.
    NOT,
    /// `0x1a`: extract one byte of a word.
    BYTE,
    /// `0x1b`: shift left.
    SHL,
    /// `0x1c`: logical shift right.
    SHR,
    /// `0x1d`: arithmetic shift right.
    SAR,
    /// `0x20`: hash a memory range.
    KECCAK256,
    /// `0x30`: address of the executing account.
    ADDRESS,
    /// `0x31`: balance of an account.
    BALANCE,
    /// `0x32`: address that started the transaction.
    ORIGIN,
    /// `0x33`: address of the caller.
    CALLER,
    /// `0x34`: value sent with the call.
    CALLVALUE,
    /// `0x35`: load a word of the call input.
    CALLDATALOAD,
    /// `0x36`: size of the call input.
    CALLDATASIZE,
    /// `0x37`: copy call input to memory.
    CALLDATACOPY,
    /// `0x38`: size of the running code.
    CODESIZE,
    /// `0x39`: copy running code to memory.
    CODECOPY,
    /// `0x3a`: gas price of the transaction.
    GASPRICE,
    /// `0x3b`: size of an account's code.
    EXTCODESIZE,
    /// `0x3c`: copy an account's code to memory.
    EXTCODECOPY,
    /// `0x3d`: size of the last call's output.
    RETURNDATASIZE,
    /// `0x3e`: copy the last call's output to memory.
    RETURNDATACOPY,
    /// `0x3f`: hash of an account's code.
    EXTCODEHASH,
    /// `0x40`: hash of a recent block.
    BLOCKHASH,
    /// `0x41`: beneficiary of the block.
    COINBASE,
    /// `0x42`: timestamp of the block.
    TIMESTAMP,
    /// `0x43`: number of the block.
    NUMBER,
    /// `0x44`: difficulty of the block.
    DIFFICULTY,
    /// `0x45`: gas limit of the block.
    GASLIMIT,
    /// `0x46`: identifier of the chain.
    CHAINID,
    /// `0x47`: balance of the executing account.
    SELFBALANCE,
    /// `0x50`: discard the top of the stack.
    POP,
    /// `0x51`: load a word from memory.
    MLOAD,
    /// `0x52`: store a word to memory.
    MSTORE,
    /// `0x53`: store a byte to memory.
    MSTORE8,
    /// `0x54`: load a word from storage.
    SLOAD,
    /// `0x55`: store a word to storage.
    SSTORE,
    /// `0x56`: unconditional jump.
    JUMP,
    /// `0x57`: jump if the condition is nonzero.
    JUMPI,
    /// `0x58`: offset of this instruction.
    PC,
    /// `0x59`: size of active memory.
    MSIZE,
    /// `0x5a`: gas still available.
    GAS,
    /// `0x5b`: a valid jump destination. It carries the byte offset at which it was
    /// read, or the label that it marks in code under construction.
    JUMPDEST(usize),
    /// `0x60` to `0x7f`: push the carried bytes (between 1 and 32 of them, most
    /// significant first) as one word.
    PUSH(B),
    /// Push the address of a label: a push whose operand is settled when labels
    /// are resolved to addresses.
    PUSHL(usize),
    /// `0x80` to `0x8f`: duplicate the `n`th stack item, counted from 1 at the top.
    DUP(u8),
    /// `0x90` to `0x9f`: swap the top of the stack with the `n`th item below it.
    SWAP(u8),
    /// `0xa0` to `0xa4`: emit a log record with `n` topics.
    LOG(u8),
    /// `0xf0`: create an account.
    CREATE,
    /// `0xf1`: call an account.
    CALL,
    /// `0xf2`: call with another account's code.
    CALLCODE,
    /// `0xf3`: halt and hand back a memory range.
    RETURN,
    /// `0xf4`: call keeping caller and value.
    DELEGATECALL,
    /// `0xf5`: create an account at a salted address.
    CREATE2,
    /// `0xfa`: call without state changes.
    STATICCALL,
    /// `0xfd`: halt, undo state changes and hand back a memory range.
    REVERT,
    /// `0xfe`: the designated invalid instruction.
    INVALID,
    /// `0xff`: halt and schedule the account for deletion.
    SELFDESTRUCT,
    /// Raw bytes that are not code.
    DATA(B),
}

/// An instruction as contracts see it: its byte strings are sequences.
pub type Insn = Instruction<Seq<u8>>;

impl View for Instruction<Vec<u8>> {
    type V = Insn;

    open spec fn view(&self) -> Insn {
        match self {
            Instruction::STOP => Instruction::STOP,
            Instruction::ADD => Instruction::ADD,
            Instruction::MUL => Instruction::MUL,
            Instruction::SUB => Instruction::SUB,
            Instruction::DIV => Instruction::DIV,
            Instruction::SDIV => Instruction::SDIV,
            Instruction::MOD => Instruction::MOD,
            Instruction::SMOD => Instruction::SMOD,
            Instruction::ADDMOD => Instruction::ADDMOD,
            Instruction::MULMOD => Instruction::MULMOD,
            Instruction::EXP => Instruction::EXP,
            Instruction::SIGNEXTEND => Instruction::SIGNEXTEND,
            Instruction::LT => Instruction::LT,
            Instruction::GT => Instruction::GT,
            Instruction::SLT => Instruction::SLT,
            Instruction::SGT => Instruction::SGT,
            Instruction::EQ => Instruction::EQ,
            Instruction::ISZERO => Instruction::ISZERO,
            Instruction::AND => Instruction::AND,
            Instruction::OR => Instruction::OR,
            Instruction::XOR => Instruction::XOR,
            Instruction::NOT => Instruction::NOT,
            Instruction::BYTE => Instruction::BYTE,
            Instruction::SHL => Instruction::SHL,
            Instruction::SHR => Instruction::SHR,
            Instruction::SAR => Instruction::SAR,
            Instruction::KECCAK256 => Instruction::KECCAK256,
            Instruction::ADDRESS => Instruction::ADDRESS,
            Instruction::BALANCE => Instruction::BALANCE,
            Instruction::ORIGIN => Instruction::ORIGIN,
            Instruction::CALLER => Instruction::CALLER,
            Instruction::CALLVALUE => Instruction::CALLVALUE,
            Instruction::CALLDATALOAD => Instruction::CALLDATALOAD,
            Instruction::CALLDATASIZE => Instruction::CALLDATASIZE,
            Instruction::CALLDATACOPY => Instruction::CALLDATACOPY,
            Instruction::CODESIZE => Instruction::CODESIZE,
            Instruction::CODECOPY => Instruction::CODECOPY,
            Instruction::GASPRICE => Instruction::GASPRICE,
            Instruction::EXTCODESIZE => Instruction::EXTCODESIZE,
            Instruction::EXTCODECOPY => Instruction::EXTCODECOPY,
            Instruction::RETURNDATASIZE => Instruction::RETURNDATASIZE,
            Instruction::RETURNDATACOPY => Instruction::RETURNDATACOPY,
            Instruction::EXTCODEHASH => Instruction::EXTCODEHASH,
            Instruction::BLOCKHASH => Instruction::BLOCKHASH,
            Instruction::COINBASE => Instruction::COINBASE,
            Instruction::TIMESTAMP => Instruction::TIMESTAMP,
            Instruction::NUMBER => Instruction::NUMBER,
            Instruction::DIFFICULTY => Instruction::DIFFICULTY,
            Instruction::GASLIMIT => Instruction::GASLIMIT,
            Instruction::CHAINID => Instruction::CHAINID,
            Instruction::SELFBALANCE => Instruction::SELFBALANCE,
            Instruction::POP => Instruction::POP,
            Instruction::MLOAD => Instruction::MLOAD,
            Instruction::MSTORE => Instruction::MSTORE,
            Instruction::MSTORE8 => Instruction::MSTORE8,
            Instruction::SLOAD => Instruction::SLOAD,
            Instruction::SSTORE => Instruction::SSTORE,
            Instruction::JUMP => Instruction::JUMP,
            Instruction::JUMPI => Instruction::JUMPI,
            Instruction::PC => Instruction::PC,
            Instruction::MSIZE => Instruction::MSIZE,
            Instruction::GAS => Instruction::GAS,
            Instruction::CREATE => Instruction::CREATE,
            Instruction::CALL => Instruction::CALL,
            Instruction::CALLCODE => Instruction::CALLCODE,
            Instruction::RETURN => Instruction::RETURN,
            Instruction::DELEGATECALL => Instruction::DELEGATECALL,
            Instruction::CREATE2 => Instruction::CREATE2,
            Instruction::STATICCALL => Instruction::STATICCALL,
            Instruction::REVERT => Instruction::REVERT,
            Instruction::INVALID => Instruction::INVALID,
            Instruction::SELFDESTRUCT => Instruction::SELFDESTRUCT,
            Instruction::JUMPDEST(at) => Instruction::JUMPDEST(*at),
            Instruction::PUSH(bytes) => Instruction::PUSH(bytes@),
            Instruction::PUSHL(label) => Instruction::PUSHL(*label),
            Instruction::DUP(n) => Instruction::DUP(*n),
            Instruction::SWAP(n) => Instruction::SWAP(*n),
            Instruction::LOG(n) => Instruction::LOG(*n),
            Instruction::DATA(bytes) => Instruction::DATA(bytes@),
        }
    }
}

impl DeepView for Instruction<Vec<u8>> {
    type V = Insn;

    open spec fn deep_view(&self) -> Insn {
        self@
    }
}

impl<B> Instruction<B> {
    /// The instruction that a single opcode byte stands for on its own, if it
    /// stands for one: every defined opcode but the jump destination and the
    /// push, duplicate, swap and log families.
    pub open spec fn plain(opcode: u8) -> Option<Instruction<B>> {
        match opcode {
            0x00 => Some(Instruction::STOP),
            0x01 => Some(Instruction::ADD),
            0x02 => Some(Instruction::MUL),
            0x03 => Some(Instruction::SUB),
            0x04 => Some(Instruction::DIV),
            0x05 => Some(Instruction::SDIV),
            0x06 => Some(Instruction::MOD),
            0x07 => Some(Instruction::SMOD),
            0x08 => Some(Instruction::ADDMOD),
            0x09 => Some(Instruction::MULMOD),
            0x0a => Some(Instruction::EXP),
            0x0b => Some(Instruction::SIGNEXTEND),
            0x10 => Some(Instruction::LT),
            0x11 => Some(Instruction::GT),
            0x12 => Some(Instruction::SLT),
            0x13 => Some(Instruction::SGT),
            0x14 => Some(Instruction::EQ),
            0x15 => Some(Instruction::ISZERO),
            0x16 => Some(Instruction::AND),
            0x17 => Some(Instruction::OR),
            0x18 => Some(Instruction::XOR),
            0x19 => Some(Instruction::NOT),
            0x1a => Some(Instruction::BYTE),
            0x1b => Some(Instruction::SHL),
            0x1c => Some(Instruction::SHR),
            0x1d => Some(Instruction::SAR),
            0x20 => Some(Instruction::KECCAK256),
            0x30 => Some(Instruction::ADDRESS),
            0x31 => Some(Instruction::BALANCE),
            0x32 => Some(Instruction::ORIGIN),
            0x33 => Some(Instruction::CALLER),
            0x34 => Some(Instruction::CALLVALUE),
            0x35 => Some(Instruction::CALLDATALOAD),
            0x36 => Some(Instruction::CALLDATASIZE),
            0x37 => Some(Instruction::CALLDATACOPY),
            0x38 => Some(Instruction::CODESIZE),
            0x39 => Some(Instruction::CODECOPY),
            0x3a => Some(Instruction::GASPRICE),
            0x3b => Some(Instruction::EXTCODESIZE),
            0x3c => Some(Instruction::EXTCODECOPY),
            0x3d => Some(Instruction::RETURNDATASIZE),
            0x3e => Some(Instruction::RETURNDATACOPY),
            0x3f => Some(Instruction::EXTCODEHASH),
            0x40 => Some(Instruction::BLOCKHASH),
            0x41 => Some(Instruction::COINBASE),
            0x42 => Some(Instruction::TIMESTAMP),
            0x43 => Some(Instruction::NUMBER),
            0x44 => Some(Instruction::DIFFICULTY),
            0x45 => Some(Instruction::GASLIMIT),
            0x46 => Some(Instruction::CHAINID),
            0x47 => Some(Instruction::SELFBALANCE),
            0x50 => Some(Instruction::POP),
            0x51 => Some(Instruction::MLOAD),
            0x52 => Some(Instruction::MSTORE),
            0x53 => Some(Instruction::MSTORE8),
            0x54 => Some(Instruction::SLOAD),
            0x55 => Some(Instruction::SSTORE),
            0x56 => Some(Instruction::JUMP),
            0x57 => Some(Instruction::JUMPI),
            0x58 => Some(Instruction::PC),
            0x59 => Some(Instruction::MSIZE),
            0x5a => Some(Instruction::GAS),
            0xf0 => Some(Instruction::CREATE),
            0xf1 => Some(Instruction::CALL),
            0xf2 => Some(Instruction::CALLCODE),
            0xf3 => Some(Instruction::RETURN),
            0xf4 => Some(Instruction::DELEGATECALL),
            0xf5 => Some(Instruction::CREATE2),
            0xfa => Some(Instruction::STATICCALL),
            0xfd => Some(Instruction::REVERT),
            0xfe => Some(Instruction::INVALID),
            0xff => Some(Instruction::SELFDESTRUCT),
            _ => None,
        }
    }

    /// Whether control may leave the instruction for an address taken from the
    /// stack.
    pub open spec fn branches(self) -> bool {
        self is JUMP || self is JUMPI
    }

    /// Whether control never falls through the instruction to the next one.
    pub open spec fn terminates(self) -> bool {
        self is INVALID || self is JUMP || self is RETURN || self is REVERT || self is STOP
    }
}

/// The bytes of `bytes` at offsets `[start, end)`, with a zero for every offset
/// that lies past the end of `bytes`.
pub open spec fn padded(bytes: Seq<u8>, start: int, end: int) -> Seq<u8> {
    Seq::new(
        (end - start) as nat,
        |i: int| if 0 <= start + i < bytes.len() { bytes[start + i] } else { 0u8 },
    )
}

/// The instruction that starts at offset `pc` of `bytes`. Past the end of the
/// code every byte reads as zero, which is `STOP`. A push whose operand runs
/// past the end has it filled up with zeros. A byte that is no opcode is
/// one byte of data.
pub open spec fn decode_at(bytes: Seq<u8>, pc: int) -> Insn {
    if !(0 <= pc < bytes.len()) {
        Instruction::STOP
    } else {
        let opcode = bytes[pc];
        if opcode == 0x5b {
            Instruction::JUMPDEST(pc as usize)
        } else if 0x60 <= opcode <= 0x7f {
            Instruction::PUSH(padded(bytes, pc + 1, pc + 1 + (opcode - 0x5f)))
        } else if 0x80 <= opcode <= 0x8f {
            Instruction::DUP((opcode - 0x7f) as u8)
        } else if 0x90 <= opcode <= 0x9f {
            Instruction::SWAP((opcode - 0x8f) as u8)
        } else if 0xa0 <= opcode <= 0xa4 {
            Instruction::LOG((opcode - 0xa0) as u8)
        } else {
            match Insn::plain(opcode) {
                Some(insn) => insn,
                None => Instruction::DATA(seq![opcode]),
            }
        }
    }
}

/// How many bytes of `bytes` the instruction at offset `pc` takes up: one for
/// its opcode and, for a push, as many of its operand bytes as the code holds.
pub open spec fn length_at(bytes: Seq<u8>, pc: int) -> int {
    if 0 <= pc < bytes.len() && 0x60 <= bytes[pc] <= 0x7f {
        let full = 1 + (bytes[pc] - 0x5f);
        if pc + full <= bytes.len() {
            full
        } else {
            bytes.len() - pc
        }
    } else {
        1
    }
}

/// An instruction inside the code takes up at least one byte and ends inside
/// the code.
pub proof fn lemma_length_bounds(bytes: Seq<u8>, pc: int)
    ensures
        1 <= length_at(bytes, pc) <= 33,
        0 <= pc < bytes.len() ==> pc + length_at(bytes, pc) <= bytes.len(),
{
}

impl Instruction<Vec<u8>> {
    /// Read the instruction that starts at offset `pc` of `bytes`, together
    /// with the number of bytes of `bytes` that it takes up.
    pub fn decode(pc: usize, bytes: &[u8]) -> (r: (Instruction, usize))
        ensures
            r.0@ == decode_at(bytes@, pc as int),
            r.1 == length_at(bytes@, pc as int),
    {
        if pc >= bytes.len() {
            return (Instruction::STOP, 1);
        }
        let opcode = bytes[pc];
        if opcode == 0x5b {
            (Instruction::JUMPDEST(pc), 1)
        } else if 0x60 <= opcode && opcode <= 0x7f {
            let width: usize = (opcode - 0x5f) as usize;
            let left: usize = bytes.len() - pc;
            let length: usize = if width < left { width + 1 } else { left };
            (Instruction::PUSH(read_padded(bytes, pc + 1, width)), length)
        } else if 0x80 <= opcode && opcode <= 0x8f {
            (Instruction::DUP(opcode - 0x7f), 1)
        } else if 0x90 <= opcode && opcode <= 0x9f {
            (Instruction::SWAP(opcode - 0x8f), 1)
        } else if 0xa0 <= opcode && opcode <= 0xa4 {
            (Instruction::LOG(opcode - 0xa0), 1)
        } else {
            match Instruction::of_opcode(opcode) {
                Some(insn) => (insn, 1),
                None => {
                    let mut data: Vec<u8> = Vec::new();
                    data.push(opcode);
                    (Instruction::DATA(data), 1)
                },
            }
        }
    }

    /// The instruction that the opcode byte stands for on its own, if any.
    pub fn of_opcode(opcode: u8) -> (r: Option<Instruction>)
        ensures
            r is Some <==> Insn::plain(opcode) is Some,
            r matches Some(insn) ==> Insn::plain(opcode) == Some(insn@),
    {
        match opcode {
            0x00 => Some(Instruction::STOP),
            0x01 => Some(Instruction::ADD),
            0x02 => Some(Instruction::MUL),
            0x03 => Some(Instruction::SUB),
            0x04 => Some(Instruction::DIV),
            0x05 => Some(Instruction::SDIV),
            0x06 => Some(Instruction::MOD),
            0x07 => Some(Instruction::SMOD),
            0x08 => Some(Instruction::ADDMOD),
            0x09 => Some(Instruction::MULMOD),
            0x0a => Some(Instruction::EXP),
            0x0b => Some(Instruction::SIGNEXTEND),
            0x10 => Some(Instruction::LT),
            0x11 => Some(Instruction::GT),
            0x12 => Some(Instruction::SLT),
            0x13 => Some(Instruction::SGT),
            0x14 => Some(Instruction::EQ),
            0x15 => Some(Instruction::ISZERO),
            0x16 => Some(Instruction::AND),
            0x17 => Some(Instruction::OR),
            0x18 => Some(Instruction::XOR),
            0x19 => Some(Instruction::NOT),
            0x1a => Some(Instruction::BYTE),
            0x1b => Some(Instruction::SHL),
            0x1c => Some(Instruction::SHR),
            0x1d => Some(Instruction::SAR),
            0x20 => Some(Instruction::KECCAK256),
            0x30 => Some(Instruction::ADDRESS),
            0x31 => Some(Instruction::BALANCE),
            0x32 => Some(Instruction::ORIGIN),
            0x33 => Some(Instruction::CALLER),
            0x34 => Some(Instruction::CALLVALUE),
            0x35 => Some(Instruction::CALLDATALOAD),
            0x36 => Some(Instruction::CALLDATASIZE),
            0x37 => Some(Instruction::CALLDATACOPY),
            0x38 => Some(Instruction::CODESIZE),
            0x39 => Some(Instruction::CODECOPY),
            0x3a => Some(Instruction::GASPRICE),
            0x3b => Some(Instruction::EXTCODESIZE),
            0x3c => Some(Instruction::EXTCODECOPY),
            0x3d => Some(Instruction::RETURNDATASIZE),
            0x3e => Some(Instruction::RETURNDATACOPY),
            0x3f => Some(Instruction::EXTCODEHASH),
            0x40 => Some(Instruction::BLOCKHASH),
            0x41 => Some(Instruction::COINBASE),
            0x42 => Some(Instruction::TIMESTAMP),
            0x43 => Some(Instruction::NUMBER),
            0x44 => Some(Instruction::DIFFICULTY),
            0x45 => Some(Instruction::GASLIMIT),
            0x46 => Some(Instruction::CHAINID),
            0x47 => Some(Instruction::SELFBALANCE),
            0x50 => Some(Instruction::POP),
            0x51 => Some(Instruction::MLOAD),
            0x52 => Some(Instruction::MSTORE),
            0x53 => Some(Instruction::MSTORE8),
            0x54 => Some(Instruction::SLOAD),
            0x55 => Some(Instruction::SSTORE),
            0x56 => Some(Instruction::JUMP),
            0x57 => Some(Instruction::JUMPI),
            0x58 => Some(Instruction::PC),
            0x59 => Some(Instruction::MSIZE),
            0x5a => Some(Instruction::GAS),
            0xf0 => Some(Instruction::CREATE),
            0xf1 => Some(Instruction::CALL),
            0xf2 => Some(Instruction::CALLCODE),
            0xf3 => Some(Instruction::RETURN),
            0xf4 => Some(Instruction::DELEGATECALL),
            0xf5 => Some(Instruction::CREATE2),
            0xfa => Some(Instruction::STATICCALL),
            0xfd => Some(Instruction::REVERT),
            0xfe => Some(Instruction::INVALID),
            0xff => Some(Instruction::SELFDESTRUCT),
            _ => None,
        }
    }

    /// Whether the instruction may transfer control to an address on the
    /// stack.
    pub fn can_branch(&self) -> (r: bool)
        ensures
            r == self@.branches(),
    {
        match self {
            Instruction::JUMP | Instruction::JUMPI => true,
            _ => false,
        }
    }

    /// Whether the instruction ends a straight-line run: control never falls
    /// through it.
    pub fn is_terminator(&self) -> (r: bool)
        ensures
            r == self@.terminates(),
    {
        match self {
            Instruction::INVALID
            | Instruction::JUMP
            | Instruction::RETURN
            | Instruction::REVERT
            | Instruction::STOP => true,
            _ => false,
        }
    }

    /// Whether the instruction marks a jump destination.
    pub fn is_jump_dest(&self) -> (r: bool)
        ensures
            r == (self@ is JUMPDEST),
    {
        match self {
            Instruction::JUMPDEST(_) => true,
            _ => false,
        }
    }
}

/// Copy `count` bytes of `bytes` from offset `start` on, reading a zero
/// wherever the offset lies past the end.
pub fn read_padded(bytes: &[u8], start: usize, count: usize) -> (r: Vec<u8>)
    requires
        start <= bytes.len(),
    ensures
        r@ == padded(bytes@, start as int, start + count),
{
    let present: usize = bytes.len() - start;
    let mut out: Vec<u8> = Vec::new();
    let mut i: usize = 0;
    while i < count
        invariant
            i <= count,
            start + present == bytes.len(),
            out@ == padded(bytes@, start as int, start + i),
        decreases count - i,
    {
        let byte: u8 = if i < present { bytes[start + i] } else { 0 };
        out.push(byte);
        i = i + 1;
    }
    out
}

} // verus!
