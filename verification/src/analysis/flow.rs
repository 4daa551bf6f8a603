//! What the dataflow analysis computes.
//!
//! A pass visits the blocks in order. In a block that counts as reachable it
//! runs the block's entry state through the block's instructions. Before each
//! instruction that can branch, if the top of the stack is known, it merges
//! the branch state into the entry state of the block that holds the target.
//! At the end of the block it merges the state into the entry state of the
//! next block. Passes are repeated until one changes nothing.

use crate::analysis::blocks::{block_of, enclosed, is_scan, reaches};
use crate::analysis::disassembler::{AbstractState, Block};
use crate::ll::instruction::{decode_at, length_at, padded, Insn, Instruction};
use vstd::prelude::*;

verus! {

/// A pass in progress: the entry states as they stand, whether a merge has
/// changed one of them, and whether every branch target met so far lay inside
/// the code.
pub struct Pass<T> {
    pub contexts: Seq<T>,
    pub changed: bool,
    pub resolved: bool,
}

impl<T: AbstractState> Pass<T> {
    /// The start of a pass over `contexts`.
    pub open spec fn start(contexts: Seq<T>) -> Pass<T> {
        Pass { contexts, changed: false, resolved: true }
    }

    /// Merge `state` into the entry state of block `id`.
    pub open spec fn merge_into(self, id: int, state: T) -> Pass<T> {
        let merged = self.contexts[id].spec_merge(state);
        Pass {
            contexts: self.contexts.update(id, merged),
            changed: self.changed || merged != self.contexts[id],
            resolved: self.resolved,
        }
    }

    /// Merge `state` into the entry state of the block that holds `target`.
    /// A target outside the code cannot be resolved to a block.
    pub open spec fn branch_to(self, blocks: Seq<Block>, target: usize, state: T) -> Pass<T> {
        if enclosed(blocks, target as int) {
            self.merge_into(block_of(blocks, target as int), state)
        } else {
            Pass { contexts: self.contexts, changed: self.changed, resolved: false }
        }
    }
}

/// Whether block `id` counts as reachable: the first block always does, any
/// other when its entry state says so.
pub open spec fn block_reachable<T: AbstractState>(contexts: Seq<T>, id: int) -> bool {
    id == 0 || contexts[id].spec_is_reachable()
}

/// Run `state` through the instructions at `[pc, end)`, merging into the
/// targets of the branches on the way. It gives the pass and the state at the
/// end. A pass that met a branch target outside the code goes no further.
pub open spec fn walk<T: AbstractState>(
    bytes: Seq<u8>,
    blocks: Seq<Block>,
    pass: Pass<T>,
    state: T,
    pc: int,
    end: int,
) -> (Pass<T>, T)
    decreases (if pc < end { end - pc } else { 0 }),
{
    if pc >= end || !pass.resolved {
        (pass, state)
    } else {
        let insn = decode_at(bytes, pc);
        let top = state.spec_peek(0);
        let branched = if insn.branches() && top is Known {
            pass.branch_to(blocks, top->0, state.spec_branch(top->0, insn))
        } else {
            pass
        };
        walk(bytes, blocks, branched, state.spec_transfer(insn), pc + length_at(bytes, pc), end)
    }
}

/// Visit block `id`: if it counts as reachable, walk it from its entry state
/// and merge the state at its end into the next block.
pub open spec fn visit<T: AbstractState>(
    bytes: Seq<u8>,
    blocks: Seq<Block>,
    pass: Pass<T>,
    id: int,
) -> Pass<T> {
    if !block_reachable(pass.contexts, id) {
        pass
    } else {
        let (walked, state) = walk(
            bytes,
            blocks,
            pass,
            pass.contexts[id],
            blocks[id].start as int,
            blocks[id].end as int,
        );
        if walked.resolved && id + 1 < blocks.len() {
            walked.merge_into(id + 1, state)
        } else {
            walked
        }
    }
}

/// Visit the blocks from `id` on, in order.
pub open spec fn sweep<T: AbstractState>(
    bytes: Seq<u8>,
    blocks: Seq<Block>,
    pass: Pass<T>,
    id: int,
) -> Pass<T>
    decreases (if id < blocks.len() { blocks.len() - id } else { 0 }),
{
    if id >= blocks.len() || !pass.resolved {
        pass
    } else {
        sweep(bytes, blocks, visit(bytes, blocks, pass, id), id + 1)
    }
}

/// One pass over all blocks, from the entry states `contexts`.
pub open spec fn pass_over<T: AbstractState>(
    bytes: Seq<u8>,
    blocks: Seq<Block>,
    contexts: Seq<T>,
) -> Pass<T> {
    sweep(bytes, blocks, Pass::start(contexts), 0)
}

/// Run `state` through the instructions that start at `[pc, loc)`.
pub open spec fn replay<T: AbstractState>(bytes: Seq<u8>, state: T, pc: int, loc: int) -> T
    decreases (if pc < loc { loc - pc } else { 0 }),
{
    if pc >= loc {
        state
    } else {
        replay(bytes, state.spec_transfer(decode_at(bytes, pc)), pc + length_at(bytes, pc), loc)
    }
}

/// The instructions that start at `[pc, end)`, in order.
pub open spec fn decode_range(bytes: Seq<u8>, pc: int, end: int) -> Seq<Insn>
    decreases (if pc < end { end - pc } else { 0 }),
{
    if pc >= end {
        Seq::empty()
    } else {
        seq![decode_at(bytes, pc)] + decode_range(bytes, pc + length_at(bytes, pc), end)
    }
}

/// What block `id` shows as: its instructions if it counts as reachable, and
/// else its bytes as one item of data.
pub open spec fn listing<T: AbstractState>(
    bytes: Seq<u8>,
    blocks: Seq<Block>,
    contexts: Seq<T>,
    id: int,
) -> Seq<Insn> {
    if block_reachable(contexts, id) {
        decode_range(bytes, blocks[id].start as int, blocks[id].end as int)
    } else {
        seq![Instruction::DATA(padded(bytes, blocks[id].start as int, blocks[id].end as int))]
    }
}

/// The listings of the first `count` blocks, one after the other.
pub open spec fn flatten<T: AbstractState>(
    bytes: Seq<u8>,
    blocks: Seq<Block>,
    contexts: Seq<T>,
    count: int,
) -> Seq<Insn>
    decreases count,
{
    if count <= 0 {
        Seq::empty()
    } else {
        flatten(bytes, blocks, contexts, count - 1) + listing(bytes, blocks, contexts, count - 1)
    }
}

/// The instructions up to an offset at which one starts, followed by those
/// from there on, are all the instructions.
pub proof fn lemma_decode_range_split(bytes: Seq<u8>, pc: int, mid: int, end: int)
    requires
        reaches(bytes, pc, mid),
        mid <= end,
    ensures
        decode_range(bytes, pc, end) == decode_range(bytes, pc, mid) + decode_range(
            bytes,
            mid,
            end,
        ),
    decreases (if pc < mid { mid - pc } else { 0 }),
{
    if pc < mid {
        let next = pc + length_at(bytes, pc);
        lemma_decode_range_split(bytes, next, mid, end);
        assert(decode_range(bytes, pc, end) =~= decode_range(bytes, pc, mid) + decode_range(
            bytes,
            mid,
            end,
        ));
    } else {
        assert(decode_range(bytes, pc, end) =~= decode_range(bytes, pc, mid) + decode_range(
            bytes,
            mid,
            end,
        ));
    }
}

/// Flattening gives back the code as it decodes: where every block counts as
/// reachable, the listings of the blocks, one after the other, are the
/// instructions read from the first byte to the last.
pub proof fn lemma_flatten_reachable<T: AbstractState>(
    bytes: Seq<u8>,
    blocks: Seq<Block>,
    contexts: Seq<T>,
)
    requires
        is_scan(blocks, bytes),
        forall|id: int| 0 <= id < blocks.len() ==> block_reachable(contexts, id),
    ensures
        flatten(bytes, blocks, contexts, blocks.len() as int) == decode_range(
            bytes,
            0,
            bytes.len() as int,
        ),
{
    if blocks.len() > 0 {
        lemma_flatten_prefix(bytes, blocks, contexts, blocks.len() as int);
    }
}

/// Where the first `count` blocks count as reachable, their listings are the
/// instructions up to the end of the last of them.
proof fn lemma_flatten_prefix<T: AbstractState>(
    bytes: Seq<u8>,
    blocks: Seq<Block>,
    contexts: Seq<T>,
    count: int,
)
    requires
        is_scan(blocks, bytes),
        0 < count <= blocks.len(),
        forall|id: int| 0 <= id < count ==> block_reachable(contexts, id),
    ensures
        flatten(bytes, blocks, contexts, count) == decode_range(
            bytes,
            0,
            blocks[count - 1].end as int,
        ),
    decreases count,
{
    let last = blocks[count - 1];
    lemma_decode_range_split(bytes, 0, last.start as int, last.end as int);
    if count > 1 {
        lemma_flatten_prefix(bytes, blocks, contexts, count - 1);
    } else {
        assert(flatten(bytes, blocks, contexts, 0) =~= Seq::<Insn>::empty());
    }
}

/// The sum of the heights of `contexts`.
pub open spec fn total_height<T: AbstractState>(contexts: Seq<T>) -> nat
    decreases contexts.len(),
{
    if contexts.len() == 0 {
        0
    } else {
        total_height(contexts.drop_last()) + contexts.last().height()
    }
}

/// Passes repeated from `contexts` until one changes nothing, or meets a
/// branch target outside the code. It gives the last pass.
pub open spec fn fixpoint<T: AbstractState>(
    bytes: Seq<u8>,
    blocks: Seq<Block>,
    contexts: Seq<T>,
) -> Pass<T>
    decreases total_height(contexts),
{
    let pass = pass_over(bytes, blocks, contexts);
    if pass.resolved && pass.changed && total_height(pass.contexts) < total_height(contexts) {
        fixpoint(bytes, blocks, pass.contexts)
    } else {
        pass
    }
}

/// How a pass in progress stands to the entry states `origin` that it started
/// from: it holds as many states; while nothing has changed they are those of
/// `origin`, and once something has changed their heights sum to less; and
/// what was reachable is reachable.
pub open spec fn advances<T: AbstractState>(origin: Seq<T>, pass: Pass<T>) -> bool {
    &&& pass.contexts.len() == origin.len()
    &&& !pass.changed ==> pass.contexts == origin
    &&& pass.changed ==> total_height(pass.contexts) < total_height(origin)
    &&& total_height(pass.contexts) <= total_height(origin)
    &&& forall|id: int|
        0 <= id < origin.len() && (#[trigger] origin[id]).spec_is_reachable()
            ==> pass.contexts[id].spec_is_reachable()
}

/// Replacing one state changes the sum of the heights by the difference of
/// the two heights.
pub proof fn lemma_total_height_update<T: AbstractState>(contexts: Seq<T>, id: int, state: T)
    requires
        0 <= id < contexts.len(),
    ensures
        total_height(contexts.update(id, state)) == total_height(contexts) - contexts[id].height()
            + state.height(),
    decreases contexts.len(),
{
    let updated = contexts.update(id, state);
    if id == contexts.len() - 1 {
        assert(updated.drop_last() =~= contexts.drop_last());
    } else {
        assert(updated.drop_last() =~= contexts.drop_last().update(id, state));
        lemma_total_height_update(contexts.drop_last(), id, state);
    }
}

/// A merge into a block keeps a pass advancing.
pub proof fn lemma_merge_into_advances<T: AbstractState>(
    origin: Seq<T>,
    pass: Pass<T>,
    id: int,
    state: T,
)
    requires
        advances(origin, pass),
        0 <= id < origin.len(),
    ensures
        advances(origin, pass.merge_into(id, state)),
{
    let before = pass.contexts[id];
    let merged = before.spec_merge(state);
    before.lemma_merge_descends(state);
    before.lemma_merge_keeps_reachable(state);
    lemma_total_height_update(pass.contexts, id, merged);
    if merged == before {
        assert(pass.contexts.update(id, merged) =~= pass.contexts);
    }
}

/// A walk keeps a pass advancing.
pub proof fn lemma_walk_advances<T: AbstractState>(
    origin: Seq<T>,
    bytes: Seq<u8>,
    blocks: Seq<Block>,
    pass: Pass<T>,
    state: T,
    pc: int,
    end: int,
)
    requires
        advances(origin, pass),
        blocks.len() == origin.len(),
    ensures
        advances(origin, walk(bytes, blocks, pass, state, pc, end).0),
    decreases (if pc < end { end - pc } else { 0 }),
{
    if pc < end && pass.resolved {
        let insn = decode_at(bytes, pc);
        let top = state.spec_peek(0);
        let branched = if insn.branches() && top is Known {
            pass.branch_to(blocks, top->0, state.spec_branch(top->0, insn))
        } else {
            pass
        };
        if insn.branches() && top is Known && enclosed(blocks, top->0 as int) {
            lemma_merge_into_advances(
                origin,
                pass,
                block_of(blocks, top->0 as int),
                state.spec_branch(top->0, insn),
            );
        }
        lemma_walk_advances(
            origin,
            bytes,
            blocks,
            branched,
            state.spec_transfer(insn),
            pc + length_at(bytes, pc),
            end,
        );
    }
}

/// A visit to a block keeps a pass advancing.
pub proof fn lemma_visit_advances<T: AbstractState>(
    origin: Seq<T>,
    bytes: Seq<u8>,
    blocks: Seq<Block>,
    pass: Pass<T>,
    id: int,
)
    requires
        advances(origin, pass),
        blocks.len() == origin.len(),
        0 <= id < blocks.len(),
    ensures
        advances(origin, visit(bytes, blocks, pass, id)),
{
    if block_reachable(pass.contexts, id) {
        let start = blocks[id].start as int;
        let end = blocks[id].end as int;
        lemma_walk_advances(origin, bytes, blocks, pass, pass.contexts[id], start, end);
        let (walked, state) = walk(bytes, blocks, pass, pass.contexts[id], start, end);
        if walked.resolved && id + 1 < blocks.len() {
            lemma_merge_into_advances(origin, walked, id + 1, state);
        }
    }
}

/// A sweep keeps a pass advancing.
pub proof fn lemma_sweep_advances<T: AbstractState>(
    origin: Seq<T>,
    bytes: Seq<u8>,
    blocks: Seq<Block>,
    pass: Pass<T>,
    id: int,
)
    requires
        advances(origin, pass),
        blocks.len() == origin.len(),
        0 <= id,
    ensures
        advances(origin, sweep(bytes, blocks, pass, id)),
    decreases (if id < blocks.len() { blocks.len() - id } else { 0 }),
{
    if id < blocks.len() && pass.resolved {
        lemma_visit_advances(origin, bytes, blocks, pass, id);
        lemma_sweep_advances(origin, bytes, blocks, visit(bytes, blocks, pass, id), id + 1);
    }
}

/// A whole pass advances from the entry states that it started with.
pub proof fn lemma_pass_advances<T: AbstractState>(
    bytes: Seq<u8>,
    blocks: Seq<Block>,
    contexts: Seq<T>,
)
    requires
        blocks.len() == contexts.len(),
    ensures
        advances(contexts, pass_over(bytes, blocks, contexts)),
{
    lemma_sweep_advances(contexts, bytes, blocks, Pass::start(contexts), 0);
}

/// The analysis that knows nothing follows no branch: a walk leaves the pass
/// as it is.
proof fn lemma_unit_walk(
    bytes: Seq<u8>,
    blocks: Seq<Block>,
    pass: Pass<()>,
    pc: int,
    end: int,
)
    ensures
        walk(bytes, blocks, pass, (), pc, end).0 == pass,
    decreases (if pc < end { end - pc } else { 0 }),
{
    if pc < end && pass.resolved {
        lemma_unit_walk(bytes, blocks, pass, pc + length_at(bytes, pc), end);
    }
}

/// The analysis that knows nothing changes nothing: a sweep leaves the pass
/// as it is.
proof fn lemma_unit_sweep(bytes: Seq<u8>, blocks: Seq<Block>, pass: Pass<()>, id: int)
    requires
        0 <= id,
        pass.contexts.len() == blocks.len(),
    ensures
        sweep(bytes, blocks, pass, id) == pass,
    decreases (if id < blocks.len() { blocks.len() - id } else { 0 }),
{
    if id < blocks.len() && pass.resolved {
        lemma_unit_walk(bytes, blocks, pass, blocks[id].start as int, blocks[id].end as int);
        if id + 1 < blocks.len() {
            assert(pass.contexts.update(id + 1, ()) =~= pass.contexts);
        }
        lemma_unit_sweep(bytes, blocks, pass, id + 1);
    }
}

/// The analysis that knows nothing always comes to rest at once: it meets no
/// branch target at all, and its only pass changes nothing.
pub proof fn lemma_unit_resolves(bytes: Seq<u8>, blocks: Seq<Block>, contexts: Seq<()>)
    requires
        contexts.len() == blocks.len(),
    ensures
        fixpoint(bytes, blocks, contexts) == Pass::start(contexts),
{
    lemma_unit_sweep(bytes, blocks, Pass::start(contexts), 0);
}

/// A disassembly that has come to rest stays as it is: where the analysis
/// resolves every branch target, its last pass changes nothing, and the
/// analysis started again from its result ends with that same pass.
pub proof fn lemma_fixpoint_idempotent<T: AbstractState>(
    bytes: Seq<u8>,
    blocks: Seq<Block>,
    contexts: Seq<T>,
)
    requires
        blocks.len() == contexts.len(),
        fixpoint(bytes, blocks, contexts).resolved,
    ensures
        !fixpoint(bytes, blocks, contexts).changed,
        pass_over(bytes, blocks, fixpoint(bytes, blocks, contexts).contexts) == fixpoint(
            bytes,
            blocks,
            contexts,
        ),
        fixpoint(bytes, blocks, fixpoint(bytes, blocks, contexts).contexts) == fixpoint(
            bytes,
            blocks,
            contexts,
        ),
    decreases total_height(contexts),
{
    let pass = pass_over(bytes, blocks, contexts);
    lemma_pass_advances(bytes, blocks, contexts);
    if pass.resolved && pass.changed {
        lemma_fixpoint_idempotent(bytes, blocks, pass.contexts);
    }
}

/// No pass makes a reachable block unreachable: what counts as reachable
/// before the analysis counts as reachable after each of its passes, and at
/// its end.
pub proof fn lemma_fixpoint_keeps_reachable<T: AbstractState>(
    bytes: Seq<u8>,
    blocks: Seq<Block>,
    contexts: Seq<T>,
)
    requires
        blocks.len() == contexts.len(),
    ensures
        fixpoint(bytes, blocks, contexts).contexts.len() == contexts.len(),
        forall|id: int|
            0 <= id < contexts.len() && block_reachable(contexts, id) ==> block_reachable(
                pass_over(bytes, blocks, contexts).contexts,
                id,
            ),
        forall|id: int|
            0 <= id < contexts.len() && block_reachable(contexts, id) ==> block_reachable(
                fixpoint(bytes, blocks, contexts).contexts,
                id,
            ),
    decreases total_height(contexts),
{
    let pass = pass_over(bytes, blocks, contexts);
    lemma_pass_advances(bytes, blocks, contexts);
    assert forall|id: int|
        0 <= id < contexts.len() && block_reachable(contexts, id) implies block_reachable(
        pass.contexts,
        id,
    ) by {
        assert(id == 0 || contexts[id].spec_is_reachable());
    }
    if pass.resolved && pass.changed {
        lemma_fixpoint_keeps_reachable(bytes, blocks, pass.contexts);
        assert forall|id: int|
            0 <= id < contexts.len() && block_reachable(contexts, id) implies block_reachable(
            fixpoint(bytes, blocks, contexts).contexts,
            id,
        ) by {
            assert(block_reachable(pass.contexts, id));
        }
    }
}

} // verus!
