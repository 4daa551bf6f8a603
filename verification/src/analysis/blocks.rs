//! What the basic blocks of a piece of code are.
//!
//! Decoding the code from its first byte on, one instruction after the other,
//! fixes at which offsets instructions start. A block starts at offset zero, at
//! every jump destination, and right after every instruction that ends a run.
//! The blocks of the code are the ranges between one such offset and the next.

use crate::analysis::disassembler::Block;
use crate::ll::instruction::{decode_at, length_at};
use vstd::prelude::*;

verus! {

/// Whether decoding one instruction after the other from offset `from` on
/// arrives exactly at offset `to`.
pub open spec fn reaches(bytes: Seq<u8>, from: int, to: int) -> bool
    decreases (if from < to { to - from } else { 0 }),
{
    if from >= to {
        from == to
    } else {
        reaches(bytes, from + length_at(bytes, from), to)
    }
}

/// Whether an instruction starts at offset `pc` when the code is decoded from
/// its first byte on.
pub open spec fn is_boundary(bytes: Seq<u8>, pc: int) -> bool {
    reaches(bytes, 0, pc)
}

/// Whether the instruction that ends right before offset `pc` ends a run.
pub open spec fn follows_terminator(bytes: Seq<u8>, pc: int) -> bool {
    exists|at: int|
        0 <= at < pc && #[trigger] is_boundary(bytes, at) && at + length_at(bytes, at) == pc
            && decode_at(bytes, at).terminates()
}

/// Whether a block starts at offset `pc` of the code.
pub open spec fn starts_block(bytes: Seq<u8>, pc: int) -> bool {
    &&& 0 <= pc < bytes.len()
    &&& is_boundary(bytes, pc)
    &&& pc == 0 || decode_at(bytes, pc) is JUMPDEST || follows_terminator(bytes, pc)
}

/// Whether `blocks` cuts the offsets `[0, len)` into consecutive ranges, none
/// of them empty.
pub open spec fn partitions(blocks: Seq<Block>, len: int) -> bool {
    &&& forall|i: int| 0 <= i < blocks.len() ==> (#[trigger] blocks[i]).start < blocks[i].end
    &&& forall|i: int, j: int|
        0 <= i && j == i + 1 && j < blocks.len() ==> (#[trigger] blocks[i]).end == (
        #[trigger] blocks[j]).start
    &&& if blocks.len() == 0 {
        len == 0
    } else {
        blocks[0].start == 0 && blocks.last().end == len
    }
}

/// Whether `blocks` are the basic blocks of `bytes`: they cut the code into
/// consecutive ranges, each of which starts where a block starts and holds no
/// other such offset.
pub open spec fn is_scan(blocks: Seq<Block>, bytes: Seq<u8>) -> bool {
    &&& partitions(blocks, bytes.len() as int)
    &&& forall|i: int| 0 <= i < blocks.len() ==> starts_block(bytes, (#[trigger] blocks[i]).start as int)
    &&& forall|i: int, pc: int|
        0 <= i < blocks.len() && (#[trigger] blocks[i]).start < pc < blocks[i].end
            ==> !#[trigger] starts_block(bytes, pc)
}

/// Whether some block of `blocks` holds offset `pc`.
pub open spec fn enclosed(blocks: Seq<Block>, pc: int) -> bool {
    exists|id: int| 0 <= id < blocks.len() && (#[trigger] blocks[id]).contains(pc)
}

/// The index of a block of `blocks` that holds offset `pc`. Where the blocks
/// are consecutive there is at most one.
pub open spec fn block_of(blocks: Seq<Block>, pc: int) -> int {
    choose|id: int| 0 <= id < blocks.len() && (#[trigger] blocks[id]).contains(pc)
}

/// Consecutive blocks lie in the order of their indices, and no two of them
/// overlap.
pub proof fn lemma_blocks_ordered(blocks: Seq<Block>, len: int, i: int, j: int)
    requires
        partitions(blocks, len),
        0 <= i < j < blocks.len(),
    ensures
        blocks[i].end <= blocks[j].start,
    decreases j - i,
{
    if i + 1 < j {
        lemma_blocks_ordered(blocks, len, i, j - 1);
    }
}

/// Every block of a partition of `[0, len)` ends at or before `len`.
pub proof fn lemma_block_within(blocks: Seq<Block>, len: int, id: int)
    requires
        partitions(blocks, len),
        0 <= id < blocks.len(),
    ensures
        blocks[id].start < blocks[id].end <= len,
{
    let last = blocks.len() - 1;
    if id < last {
        lemma_blocks_ordered(blocks, len, id, last);
    }
}

/// Blocks that cut up `[0, len)` hold exactly the offsets below `len`, each in
/// one block only, and that block is the one `block_of` names.
pub proof fn lemma_blocks_cover(blocks: Seq<Block>, len: int)
    requires
        partitions(blocks, len),
    ensures
        forall|pc: int| enclosed(blocks, pc) <==> 0 <= pc < len,
        forall|id: int, pc: int|
            0 <= id < blocks.len() && (#[trigger] blocks[id]).contains(pc) ==> #[trigger] block_of(
                blocks,
                pc,
            ) == id,
{
    assert forall|pc: int| 0 <= pc < len implies enclosed(blocks, pc) by {
        lemma_offset_enclosed(blocks, len, pc, blocks.len() as int - 1);
    }
    assert forall|pc: int| enclosed(blocks, pc) implies 0 <= pc < len by {
        let id = choose|id: int| 0 <= id < blocks.len() && (#[trigger] blocks[id]).contains(pc);
        lemma_block_within(blocks, len, id);
    }
    assert forall|id: int, pc: int|
        0 <= id < blocks.len() && (#[trigger] blocks[id]).contains(pc) implies #[trigger] block_of(
        blocks,
        pc,
    ) == id by {
        let other = block_of(blocks, pc);
        if other < id {
            lemma_blocks_ordered(blocks, len, other, id);
        } else if id < other {
            lemma_blocks_ordered(blocks, len, id, other);
        }
    }
}

/// An offset below the end of block `last` lies in that block or in one
/// before it.
proof fn lemma_offset_enclosed(blocks: Seq<Block>, len: int, pc: int, last: int)
    requires
        partitions(blocks, len),
        0 <= last < blocks.len(),
        0 <= pc < blocks[last].end,
    ensures
        enclosed(blocks, pc),
    decreases last,
{
    if pc < blocks[last].start {
        lemma_offset_enclosed(blocks, len, pc, last - 1);
    }
}

/// The first `count` blocks of one scan of `bytes` are the first `count`
/// blocks of any other.
proof fn lemma_scan_agrees(bytes: Seq<u8>, a: Seq<Block>, b: Seq<Block>, count: int)
    requires
        is_scan(a, bytes),
        is_scan(b, bytes),
        0 <= count <= a.len(),
    ensures
        count <= b.len(),
        forall|id: int| 0 <= id < count ==> a[id] == b[id],
    decreases count,
{
    if count > 0 {
        let id = count - 1;
        let len = bytes.len() as int;
        lemma_scan_agrees(bytes, a, b, id);
        // The other scan has a block here too, with the same start.
        lemma_block_within(a, len, id);
        lemma_block_within(b, len, id);
        if id > 0 {
            assert(a[id - 1] == b[id - 1]);
        }
        // A block that ended first would put a block start inside the other.
        if a[id].end < b[id].end {
            assert(a[id].end == a[id + 1].start);
        } else if b[id].end < a[id].end {
            assert(b[id].end == b[id + 1].start);
        }
    }
}

/// A piece of code has one sequence of basic blocks only.
pub proof fn lemma_scan_unique(bytes: Seq<u8>, a: Seq<Block>, b: Seq<Block>)
    requires
        is_scan(a, bytes),
        is_scan(b, bytes),
    ensures
        a == b,
{
    lemma_scan_agrees(bytes, a, b, a.len() as int);
    lemma_scan_agrees(bytes, b, a, b.len() as int);
}

/// Decoding on from an offset that was reached arrives wherever decoding from
/// the first offset arrives later.
pub proof fn lemma_reaches_chain(bytes: Seq<u8>, from: int, mid: int, to: int)
    requires
        reaches(bytes, from, mid),
        reaches(bytes, from, to),
        mid <= to,
    ensures
        reaches(bytes, mid, to),
    decreases (if from < mid { mid - from } else { 0 }),
{
    if from < mid {
        lemma_reaches_chain(bytes, from + length_at(bytes, from), mid, to);
    }
}

/// Decoding arrives at the end of the instruction at which it has arrived.
pub proof fn lemma_reaches_step(bytes: Seq<u8>, from: int, at: int)
    requires
        reaches(bytes, from, at),
    ensures
        reaches(bytes, from, at + length_at(bytes, at)),
    decreases (if from < at { at - from } else { 0 }),
{
    if from < at {
        lemma_reaches_step(bytes, from + length_at(bytes, from), at);
    } else {
        let next = at + length_at(bytes, at);
        assert(reaches(bytes, next, next));
    }
}

/// No instruction starts inside another.
pub proof fn lemma_no_boundary_inside(bytes: Seq<u8>, at: int, pc: int)
    requires
        0 <= at,
        is_boundary(bytes, at),
        at < pc < at + length_at(bytes, at),
    ensures
        !is_boundary(bytes, pc),
{
    if is_boundary(bytes, pc) {
        lemma_reaches_chain(bytes, 0, at, pc);
        let next = at + length_at(bytes, at);
        assert(reaches(bytes, at, pc) == reaches(bytes, next, pc));
    }
}

/// The instruction that ends at a given offset is the only one that does.
pub proof fn lemma_one_predecessor(bytes: Seq<u8>, a: int, b: int)
    requires
        0 <= a,
        0 <= b,
        is_boundary(bytes, a),
        is_boundary(bytes, b),
        a + length_at(bytes, a) == b + length_at(bytes, b),
    ensures
        a == b,
{
    if a < b {
        lemma_no_boundary_inside(bytes, a, b);
    } else if b < a {
        lemma_no_boundary_inside(bytes, b, a);
    }
}

} // verus!
