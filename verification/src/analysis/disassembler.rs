//! Disassembly of raw bytecode into basic blocks, and a dataflow analysis over
//! them.

use crate::analysis::blocks::{
    block_of, enclosed, follows_terminator, is_boundary, is_scan, lemma_block_within,
    lemma_blocks_cover, lemma_no_boundary_inside, lemma_one_predecessor, lemma_reaches_step,
    partitions, starts_block,
};
use crate::analysis::flow::{
    block_reachable, decode_range, fixpoint, flatten, lemma_fixpoint_idempotent,
    lemma_fixpoint_keeps_reachable, lemma_pass_advances, pass_over, replay, sweep, total_height,
    visit, walk, Pass,
};
use crate::analysis::value::AbstractValue;
use crate::ll::instruction::{
    decode_at, lemma_length_bounds, length_at, padded, read_padded, Insn, Instruction,
};
use vstd::prelude::*;
use vstd::std_specs::convert::FromSpec;
use vstd::string::StringSliceAdditionalSpecFns;

verus! {

/// A half-open range `[start, end)` of byte offsets that holds one
/// straight-line run of instructions: no jump destination but at its very
/// start, and no instruction that ends a run but at its very end.
#[derive(Copy, Clone, Debug, PartialEq, Eq, Structural)]
pub struct Block {
    /// Offset of the first byte of the block.
    pub start: usize,
    /// Offset of the first byte after the block.
    pub end: usize,
}

impl Block {
    /// Whether offset `pc` lies inside the block.
    pub open spec fn contains(self, pc: int) -> bool {
        self.start <= pc < self.end
    }

    /// The block `[start, end)`, which must hold at least one byte.
    pub fn new(start: usize, end: usize) -> (block: Block)
        requires
            start < end,
        ensures
            block == (Block { start, end }),
    {
        Block { start, end }
    }

    /// Check whether this block encloses (i.e. includes) the given bytecode
    /// address.
    pub fn encloses(&self, pc: usize) -> (r: bool)
        ensures
            r == self.contains(pc as int),
    {
        self.start <= pc && pc < self.end
    }
}

/// An abstract state says what an analysis knows of the machine at one point of
/// the code. The analysis keeps one per block, for the block's entry.
///
/// Each operation is a function of its arguments, which the `spec_` function
/// of the same name gives. Two laws make the analysis come to rest: a merge
/// that changes a state lowers its `height`, and a merge never takes a state
/// back to unreachable. A third says that a clone is a copy.
pub trait AbstractState: Sized {
    /// Whether any state has yet arrived here, other than the initial
    /// `bottom`.
    spec fn spec_is_reachable(&self) -> bool;

    /// The state after `insn` has run in this one.
    spec fn spec_transfer(self, insn: Insn) -> Self;

    /// The state in which `insn`, run in this state, arrives at `target`
    /// when it branches.
    spec fn spec_branch(&self, target: usize, insn: Insn) -> Self;

    /// The join of this state with `other`.
    spec fn spec_merge(self, other: Self) -> Self;

    /// What is known of the stack slot `n` places below the top.
    spec fn spec_peek(&self, n: usize) -> AbstractValue;

    /// The state of a block at which nothing has arrived.
    spec fn spec_bottom() -> Self;

    /// The state in which the code is entered.
    spec fn spec_origin() -> Self;

    /// How many times at most a merge can still change the state.
    spec fn height(&self) -> nat;

    /// Determines whether a given block is considered reachable or not.
    fn is_reachable(&self) -> (r: bool)
        ensures
            r == self.spec_is_reachable(),
    ;

    /// Apply a given instruction to this state, yielding an updated state.
    fn transfer(self, insn: &Instruction) -> (r: Self)
        ensures
            r == self.spec_transfer(insn@),
    ;

    /// Apply a given branch to this state, yielding the state at the target
    /// of the branch.
    fn branch(&self, target: usize, insn: &Instruction) -> (r: Self)
        ensures
            r == self.spec_branch(target, insn@),
    ;

    /// Merge this state with another, whilst returning a flag indicating
    /// whether anything changed.
    fn merge(&mut self, other: Self) -> (changed: bool)
        ensures
            *final(self) == old(self).spec_merge(other),
            changed == (*final(self) != *old(self)),
    ;

    /// Determine the value `n` places below the top of the stack.
    fn peek(&self, n: usize) -> (r: AbstractValue)
        ensures
            r == self.spec_peek(n),
    ;

    /// Identify bottom value.
    fn bottom() -> (r: Self)
        ensures
            r == Self::spec_bottom(),
    ;

    /// Identify origin value.
    fn origin() -> (r: Self)
        ensures
            r == Self::spec_origin(),
    ;

    /// A merge that changes a state lowers its height.
    proof fn lemma_merge_descends(self, other: Self)
        ensures
            self.spec_merge(other) != self ==> self.spec_merge(other).height() < self.height(),
    ;

    /// A merge leaves a reachable state reachable.
    proof fn lemma_merge_keeps_reachable(self, other: Self)
        ensures
            self.spec_is_reachable() ==> self.spec_merge(other).spec_is_reachable(),
    ;

    /// A clone of a state is that state.
    proof fn lemma_clone_is_copy(self, copy: Self) where Self: Clone
        requires
            cloned(self, copy),
        ensures
            copy == self,
    ;
}

/// The analysis that knows nothing: every block counts as reachable, and no
/// stack slot is known.
impl AbstractState for () {
    open spec fn spec_is_reachable(&self) -> bool {
        true
    }

    open spec fn spec_transfer(self, insn: Insn) -> Self {
        ()
    }

    open spec fn spec_branch(&self, target: usize, insn: Insn) -> Self {
        ()
    }

    open spec fn spec_merge(self, other: Self) -> Self {
        ()
    }

    open spec fn spec_peek(&self, n: usize) -> AbstractValue {
        AbstractValue::Unknown
    }

    open spec fn spec_bottom() -> Self {
        ()
    }

    open spec fn spec_origin() -> Self {
        ()
    }

    open spec fn height(&self) -> nat {
        0
    }

    fn is_reachable(&self) -> (r: bool) {
        true
    }

    fn transfer(self, _insn: &Instruction) -> (r: Self) {
        ()
    }

    fn branch(&self, _target: usize, _insn: &Instruction) -> (r: Self) {
        ()
    }

    fn merge(&mut self, _other: Self) -> (changed: bool) {
        false
    }

    fn peek(&self, _n: usize) -> (r: AbstractValue) {
        AbstractValue::Unknown
    }

    fn bottom() -> (r: Self) {
        ()
    }

    fn origin() -> (r: Self) {
        ()
    }

    proof fn lemma_merge_descends(self, other: Self) {
    }

    proof fn lemma_merge_keeps_reachable(self, other: Self) {
    }

    proof fn lemma_clone_is_copy(self, copy: Self) {
    }
}

/// The entry states of a fresh disassembly with `count` blocks: the first
/// block is entered in the origin state, and nothing has arrived at any other.
pub open spec fn initial_contexts<T: AbstractState>(count: nat) -> Seq<T> {
    Seq::new(
        count,
        |id: int| if id == 0 { T::spec_origin() } else { T::spec_bottom() },
    )
}

/// Identifies all contiguous code blocks within the bytecode program, and
/// holds for each the state in which an analysis enters it. Here, a block is a
/// sequence of bytecodes terminated by either `STOP`, `REVERT`, `RETURN`,
/// `INVALID` or `JUMP`. Observe that a `JUMPDEST` can only appear as the first
/// instruction of a block.
pub struct Disassembly<'a, T = ()> {
    /// The bytes we are disassembling.
    bytes: &'a [u8],
    /// The set of known blocks (in order).
    blocks: Vec<Block>,
    /// The (incoming) contexts for each block.
    contexts: Vec<T>,
}

impl<'a, T> Disassembly<'a, T> {
    /// The code that is disassembled.
    pub closed spec fn bytes(&self) -> Seq<u8> {
        self.bytes@
    }

    /// The blocks of the code, in order.
    pub closed spec fn blocks(&self) -> Seq<Block> {
        self.blocks@
    }

    /// The entry state of each block.
    pub closed spec fn contexts(&self) -> Seq<T> {
        self.contexts@
    }

    /// What holds of every disassembly: the code is not empty, the blocks are
    /// its basic blocks, and each has its entry state.
    #[verifier::type_invariant]
    pub open spec fn wf(&self) -> bool {
        &&& self.bytes().len() > 0
        &&& is_scan(self.blocks(), self.bytes())
        &&& self.contexts().len() == self.blocks().len()
    }
}

impl<'a, T: AbstractState + Clone> Disassembly<'a, T> {
    /// Whether the analysis of this disassembly meets no branch target outside
    /// the code.
    pub open spec fn resolves(&self) -> bool {
        fixpoint(self.bytes(), self.blocks(), self.contexts()).resolved
    }

    /// Disassemble `bytes`, which must not be empty: split them into blocks,
    /// and enter the first block in the origin state.
    pub fn new(bytes: &'a [u8]) -> (r: Self)
        requires
            bytes.len() > 0,
        ensures
            r.wf(),
            r.bytes() == bytes@,
            r.contexts() == initial_contexts::<T>(r.blocks().len()),
    {
        // Perform linear scan of blocks
        let blocks = Self::scan_blocks(bytes);
        // Construct default contexts
        let mut contexts: Vec<T> = Vec::new();
        let mut id: usize = 0;
        while id < blocks.len()
            invariant
                id <= blocks.len(),
                contexts.len() == id,
                forall|k: int| 0 <= k < id ==> contexts[k] == T::spec_bottom(),
            decreases blocks.len() - id,
        {
            contexts.push(T::bottom());
            id = id + 1;
        }
        // Update origin context
        contexts.set(0, T::origin());
        Disassembly { bytes, blocks, contexts }
    }

    /// Get the state at a given program location: the entry state of the
    /// block that holds it, run through the instructions of the block that
    /// start before the location.
    pub fn get_state(&self, loc: usize) -> (r: T)
        requires
            loc < self.bytes().len(),
        ensures
            r == replay(
                self.bytes(),
                self.contexts()[block_of(self.blocks(), loc as int)],
                self.blocks()[block_of(self.blocks(), loc as int)].start as int,
                loc as int,
            ),
    {
        proof {
            use_type_invariant(self);
        }
        // Determine enclosing block
        let bid = self.get_enclosing_block_id(loc);
        let mut ctx = self.contexts[bid].clone();
        proof {
            self.contexts[bid as int].lemma_clone_is_copy(ctx);
        }
        let mut pc: usize = self.blocks[bid].start;
        let ghost entry = ctx;
        let ghost start = pc as int;
        // Reconstruct state
        while pc < loc
            invariant
                loc < self.bytes.len(),
                replay(self.bytes@, ctx, pc as int, loc as int) == replay(
                    self.bytes@,
                    entry,
                    start,
                    loc as int,
                ),
            decreases (if pc < loc { loc - pc } else { 0 }),
        {
            // Decode instruction at the current position
            let (insn, length) = Instruction::decode(pc, self.bytes);
            proof {
                lemma_length_bounds(self.bytes@, pc as int);
            }
            // Apply the transfer function!
            ctx = ctx.transfer(&insn);
            // Next instruction
            pc = pc + length;
        }
        ctx
    }

    /// Get the enclosing block for a given bytecode location.
    pub fn get_enclosing_block(&self, pc: usize) -> (r: &Block)
        requires
            pc < self.bytes().len(),
        ensures
            r.contains(pc as int),
            *r == self.blocks()[block_of(self.blocks(), pc as int)],
    {
        let id = self.get_enclosing_block_id(pc);
        &self.blocks[id]
    }

    /// Determine whether a given block is currently considered reachable or
    /// not. Observe the root block (`id=0`) is _always_ considered reachable.
    pub fn is_block_reachable(&self, id: usize) -> (r: bool)
        requires
            id < self.blocks().len(),
        ensures
            r == block_reachable(self.contexts(), id as int),
    {
        proof {
            use_type_invariant(self);
        }
        id == 0 || self.contexts[id].is_reachable()
    }

    /// Read a slice of bytes from the bytecode program, padding with zeros
    /// as necessary.
    pub fn read_bytes(&self, start: usize, end: usize) -> (r: Vec<u8>)
        requires
            start <= end,
        ensures
            r@ == padded(self.bytes(), start as int, end as int),
            r.len() == end - start,
            forall|i: int|
                0 <= i < r.len() ==> r[i] == if start + i < self.bytes().len() {
                    self.bytes()[start + i]
                } else {
                    0u8
                },
    {
        let n = self.bytes.len();
        if start >= n {
            let mut zeros: Vec<u8> = Vec::new();
            let mut i: usize = start;
            while i < end
                invariant
                    start <= i <= end,
                    n <= start,
                    n == self.bytes@.len(),
                    zeros@ == padded(self.bytes@, start as int, i as int),
                decreases end - i,
            {
                zeros.push(0);
                i = i + 1;
            }
            zeros
        } else {
            read_padded(self.bytes, start, end - start)
        }
    }

    /// Refine this disassembly to one over another kind of state: each entry
    /// state is converted, the first one first. The disassembly that is
    /// refined is used up.
    pub fn refine<S>(self) -> (r: Disassembly<'a, S>) where S: AbstractState + Clone + From<T>
        ensures
            r.wf(),
            r.bytes() == self.bytes(),
            r.blocks() == self.blocks(),
            r.contexts().len() == self.contexts().len(),
            forall|id: int|
                0 <= id < self.contexts().len() ==> call_ensures(
                    S::from,
                    (self.contexts()[id],),
                    #[trigger] r.contexts()[id],
                ),
            S::obeys_from_spec() ==> r.contexts() == self.contexts().map_values(
                |state: T| S::from_spec(state),
            ),
    {
        proof {
            use_type_invariant(&self);
        }
        let Disassembly { bytes, blocks, contexts: mut states } = self;
        let ghost before = states@;
        // Turn the states around, so that they can be taken first to last.
        let mut pending: Vec<T> = Vec::new();
        while states.len() > 0
            invariant
                states.len() + pending.len() == before.len(),
                states@ == before.take(states.len() as int),
                forall|k: int|
                    0 <= k < pending.len() ==> #[trigger] pending[k] == before[before.len() - 1
                        - k],
            decreases states.len(),
        {
            let ctx = states.pop().unwrap();
            pending.push(ctx);
        }
        let mut contexts: Vec<S> = Vec::new();
        while pending.len() > 0
            invariant
                contexts.len() + pending.len() == before.len(),
                forall|k: int|
                    0 <= k < pending.len() ==> #[trigger] pending[k] == before[before.len() - 1
                        - k],
                forall|k: int|
                    0 <= k < contexts.len() ==> call_ensures(
                        S::from,
                        (before[k],),
                        #[trigger] contexts[k],
                    ),
            decreases pending.len(),
        {
            let ctx = pending.pop().unwrap();
            contexts.push(S::from(ctx));
        }
        assert(S::obeys_from_spec() ==> contexts@ =~= before.map_values(
            |state: T| S::from_spec(state),
        ));
        Disassembly { bytes, blocks, contexts }
    }

    /// Flatten the disassembly into a sequence of instructions: the
    /// instructions of each reachable block, and the bytes of each other block
    /// as one item of data.
    pub fn to_vec(&self) -> (r: Vec<Instruction>)
        ensures
            r.deep_view() == flatten(
                self.bytes(),
                self.blocks(),
                self.contexts(),
                self.blocks().len() as int,
            ),
    {
        proof {
            use_type_invariant(self);
        }
        let mut insns: Vec<Instruction> = Vec::new();
        // Iterate blocks in order
        let mut i: usize = 0;
        while i < self.blocks.len()
            invariant
                i <= self.blocks.len(),
                self.wf(),
                insns.deep_view() == flatten(self.bytes@, self.blocks@, self.contexts@, i as int),
            decreases self.blocks.len() - i,
        {
            let blk = &self.blocks[i];
            proof {
                lemma_block_within(self.blocks@, self.bytes@.len() as int, i as int);
            }
            // Check for reachability
            if i == 0 || self.contexts[i].is_reachable() {
                // Disassemble block
                self.disassemble_into(blk, &mut insns);
            } else {
                // Not reachable, so must be data.
                let data = self.read_bytes(blk.start, blk.end);
                let ghost before = insns.deep_view();
                insns.push(Instruction::DATA(data));
                assert(insns.deep_view() =~= before.push(
                    Instruction::DATA(padded(self.bytes@, blk.start as int, blk.end as int)),
                ));
            }
            i = i + 1;
        }
        insns
    }

    /// Disassemble a given block into a sequence of instructions, which are
    /// appended to `insns`.
    fn disassemble_into(&self, blk: &Block, insns: &mut Vec<Instruction>)
        requires
            blk.end <= self.bytes().len(),
        ensures
            final(insns).deep_view() == old(insns).deep_view() + decode_range(
                self.bytes(),
                blk.start as int,
                blk.end as int,
            ),
    {
        let ghost before = insns.deep_view();
        let mut pc: usize = blk.start;
        // Parse the block
        while pc < blk.end
            invariant
                blk.end <= self.bytes.len(),
                insns.deep_view() + decode_range(self.bytes@, pc as int, blk.end as int) == before
                    + decode_range(self.bytes@, blk.start as int, blk.end as int),
            decreases (if pc < blk.end { blk.end - pc } else { 0 }),
        {
            // Decode instruction at the current position
            let (insn, length) = Instruction::decode(pc, self.bytes);
            proof {
                lemma_length_bounds(self.bytes@, pc as int);
            }
            let ghost listed = insns.deep_view();
            let ghost rest = decode_range(self.bytes@, pc + length, blk.end as int);
            insns.push(insn);
            assert(listed.push(decode_at(self.bytes@, pc as int)) + rest =~= listed + (seq![
                decode_at(self.bytes@, pc as int),
            ] + rest));
            // Increment PC for next instruction
            pc = pc + length;
        }
    }

    /// Perform a linear scan splitting out the blocks. This is an over
    /// approximation of the truth, as some blocks may turn out to be unreachable
    /// (e.g. they are data).
    pub fn scan_blocks(bytes: &[u8]) -> (blocks: Vec<Block>)
        ensures
            is_scan(blocks@, bytes@),
    {
        let mut blocks: Vec<Block> = Vec::new();
        // Current position in the code.
        let mut pc: usize = 0;
        // Start of the current block.
        let mut start: usize = 0;
        while pc < bytes.len()
            invariant
                start <= pc <= bytes.len(),
                is_boundary(bytes@, pc as int),
                partitions(blocks@, start as int),
                forall|i: int|
                    0 <= i < blocks.len() ==> starts_block(bytes@, (#[trigger] blocks[i]).start as int),
                forall|i: int, at: int|
                    0 <= i < blocks.len() && (#[trigger] blocks[i]).start < at < blocks[i].end
                        ==> !#[trigger] starts_block(bytes@, at),
                forall|at: int| start < at < pc ==> !#[trigger] starts_block(bytes@, at),
                start < bytes.len() ==> starts_block(bytes@, start as int),
                start < pc ==> !follows_terminator(bytes@, pc as int),
            decreases bytes.len() - pc,
        {
            let (insn, length) = Instruction::decode(pc, bytes);
            let next: usize = pc + length;
            proof {
                lemma_length_bounds(bytes@, pc as int);
                lemma_reaches_step(bytes@, 0, pc as int);
                assert forall|at: int| pc < at < next implies !#[trigger] starts_block(bytes@, at) by {
                    lemma_no_boundary_inside(bytes@, pc as int, at);
                }
                assert forall|at: int|
                    0 <= at < next && #[trigger] is_boundary(bytes@, at) && at + length_at(bytes@, at)
                        == next implies at == pc by {
                    lemma_one_predecessor(bytes@, at, pc as int);
                }
            }
            if insn.is_jump_dest() {
                if pc != start {
                    blocks.push(Block::new(start, pc));
                    start = pc;
                }
            } else if insn.is_terminator() {
                blocks.push(Block::new(start, next));
                start = next;
            }
            pc = next;
        }
        if start != pc {
            blocks.push(Block::new(start, pc));
        }
        blocks
    }

    /// Apply flow analysis to refine the results of this disassembly: passes
    /// over the blocks are repeated until one changes no entry state. The
    /// analysis must meet no branch target outside the code.
    pub fn build(self) -> (r: Self)
        requires
            self.resolves(),
        ensures
            r.wf(),
            r.bytes() == self.bytes(),
            r.blocks() == self.blocks(),
            r.contexts() == fixpoint(self.bytes(), self.blocks(), self.contexts()).contexts,
            r.resolves(),
            fixpoint(r.bytes(), r.blocks(), r.contexts()).contexts == r.contexts(),
            forall|id: int|
                0 <= id < self.blocks().len() && block_reachable(self.contexts(), id)
                    ==> block_reachable(r.contexts(), id),
    {
        proof {
            use_type_invariant(&self);
            lemma_fixpoint_keeps_reachable(self.bytes(), self.blocks(), self.contexts());
            lemma_fixpoint_idempotent(self.bytes(), self.blocks(), self.contexts());
        }
        let (built, _resolved) = self.run();
        built
    }

    /// Apply flow analysis as `build` does, for any disassembly. The result
    /// is `None` if the analysis meets a branch target outside the code.
    pub fn try_build(self) -> (r: Option<Self>)
        ensures
            r is Some <==> self.resolves(),
            r matches Some(built) ==> {
                &&& built.wf()
                &&& built.bytes() == self.bytes()
                &&& built.blocks() == self.blocks()
                &&& built.contexts() == fixpoint(
                    self.bytes(),
                    self.blocks(),
                    self.contexts(),
                ).contexts
                &&& built.resolves()
                &&& fixpoint(built.bytes(), built.blocks(), built.contexts()).contexts
                    == built.contexts()
                &&& forall|id: int|
                    0 <= id < self.blocks().len() && block_reachable(self.contexts(), id)
                        ==> block_reachable(built.contexts(), id)
            },
    {
        proof {
            use_type_invariant(&self);
            lemma_fixpoint_keeps_reachable(self.bytes(), self.blocks(), self.contexts());
            if self.resolves() {
                lemma_fixpoint_idempotent(self.bytes(), self.blocks(), self.contexts());
            }
        }
        let (built, resolved) = self.run();
        if resolved {
            Some(built)
        } else {
            None
        }
    }

    /// Repeat passes until one changes nothing or fails to resolve a branch
    /// target. The flag tells whether every target was resolved.
    fn run(self) -> (r: (Self, bool))
        ensures
            r.0.wf(),
            r.0.bytes() == self.bytes(),
            r.0.blocks() == self.blocks(),
            r.0.contexts() == fixpoint(self.bytes(), self.blocks(), self.contexts()).contexts,
            r.1 == fixpoint(self.bytes(), self.blocks(), self.contexts()).resolved,
    {
        let ghost bytes = self.bytes@;
        let ghost blocks = self.blocks@;
        let ghost goal = fixpoint(bytes, blocks, self.contexts@);
        let mut dis = self;
        let mut changed = true;
        let mut resolved = true;
        while changed && resolved
            invariant
                dis.bytes@ == bytes,
                dis.blocks@ == blocks,
                changed && resolved ==> fixpoint(bytes, blocks, dis.contexts@) == goal,
                !(changed && resolved) ==> dis.contexts@ == goal.contexts && resolved
                    == goal.resolved,
            decreases total_height(dis.contexts@), (if changed && resolved { 1int } else { 0int }),
        {
            proof {
                use_type_invariant(&dis);
                lemma_pass_advances(bytes, blocks, dis.contexts@);
            }
            let (pass_changed, pass_resolved) = dis.pass();
            changed = pass_changed;
            resolved = pass_resolved;
        }
        proof {
            use_type_invariant(&dis);
        }
        (dis, resolved)
    }

    /// One pass over the blocks, in order. The flags tell whether an entry
    /// state changed and whether every branch target was resolved.
    fn pass(&mut self) -> (r: (bool, bool))
        ensures
            final(self).bytes() == old(self).bytes(),
            final(self).blocks() == old(self).blocks(),
            (Pass { contexts: final(self).contexts(), changed: r.0, resolved: r.1 }) == pass_over(
                old(self).bytes(),
                old(self).blocks(),
                old(self).contexts(),
            ),
    {
        let ghost bytes = self.bytes@;
        let ghost blocks = self.blocks@;
        let ghost goal = pass_over(bytes, blocks, self.contexts@);
        let mut changed = false;
        let mut i: usize = 0;
        while i < self.blocks.len()
            invariant
                self.bytes@ == bytes,
                self.blocks@ == blocks,
                bytes == old(self).bytes(),
                blocks == old(self).blocks(),
                goal == pass_over(bytes, blocks, old(self).contexts()),
                sweep(
                    bytes,
                    blocks,
                    Pass { contexts: self.contexts@, changed, resolved: true },
                    i as int,
                ) == goal,
            decreases self.blocks.len() - i,
        {
            proof {
                use_type_invariant(&*self);
                lemma_block_within(blocks, bytes.len() as int, i as int);
            }
            let ghost entered = Pass { contexts: self.contexts@, changed, resolved: true };
            if i == 0 || self.contexts[i].is_reachable() {
                let blk = self.blocks[i];
                let mut ctx = self.contexts[i].clone();
                proof {
                    self.contexts[i as int].lemma_clone_is_copy(ctx);
                }
                let ghost entry = ctx;
                let mut pc: usize = blk.start;
                while pc < blk.end
                    invariant
                        self.bytes@ == bytes,
                        self.blocks@ == blocks,
                        bytes == old(self).bytes(),
                        blocks == old(self).blocks(),
                        goal == pass_over(bytes, blocks, old(self).contexts()),
                        i < blocks.len(),
                        entered.contexts.len() == blocks.len(),
                        blk == blocks[i as int],
                        blk.end <= bytes.len(),
                        block_reachable(entered.contexts, i as int),
                        entered.resolved,
                        entry == entered.contexts[i as int],
                        sweep(bytes, blocks, entered, i as int) == goal,
                        walk(
                            bytes,
                            blocks,
                            Pass { contexts: self.contexts@, changed, resolved: true },
                            ctx,
                            pc as int,
                            blk.end as int,
                        ) == walk(bytes, blocks, entered, entry, blk.start as int, blk.end as int),
                    decreases (if pc < blk.end { blk.end - pc } else { 0 }),
                {
                    proof {
                        use_type_invariant(&*self);
                        lemma_length_bounds(bytes, pc as int);
                        lemma_blocks_cover(blocks, bytes.len() as int);
                    }
                    let ghost current = Pass { contexts: self.contexts@, changed, resolved: true };
                    // Decode instruction at the current position
                    let (insn, length) = Instruction::decode(pc, self.bytes);
                    // Check whether a branch is possible
                    if insn.can_branch() {
                        let top = ctx.peek(0);
                        if top.is_known() {
                            // Determine branch target
                            let target = top.unwrap();
                            if target >= self.bytes.len() {
                                proof {
                                    // The pass ends here, as it stands: the
                                    // rest of the walk and of the sweep leave
                                    // a pass alone that is not resolved.
                                    let stuck = current.branch_to(
                                        blocks,
                                        target,
                                        ctx.spec_branch(target, insn@),
                                    );
                                    let walked = walk(
                                        bytes,
                                        blocks,
                                        stuck,
                                        ctx.spec_transfer(insn@),
                                        pc + length,
                                        blk.end as int,
                                    );
                                    assert(walked.0 == stuck);
                                    assert(sweep(bytes, blocks, stuck, i + 1) == stuck);
                                }
                                return (changed, false);
                            }
                            // Determine branch context
                            let branch_ctx = ctx.branch(target, &insn);
                            // Convert target into block ID.
                            let block_id = self.get_enclosing_block_id(target);
                            // Merge in updated state
                            let merge_changed = self.merge_into(block_id, branch_ctx);
                            changed = changed || merge_changed;
                        }
                    }
                    // Apply the transfer function!
                    ctx = ctx.transfer(&insn);
                    // Next instruction
                    pc = pc + length;
                }
                // Merge state into following block.
                if i + 1 < self.blocks.len() {
                    let merge_changed = self.merge_into(i + 1, ctx);
                    changed = changed || merge_changed;
                }
            }
            i = i + 1;
        }
        (changed, true)
    }

    /// Merge `state` into the entry state of block `id`, and tell whether
    /// that changed it.
    fn merge_into(&mut self, id: usize, state: T) -> (changed: bool)
        requires
            id < old(self).blocks().len(),
        ensures
            final(self).bytes() == old(self).bytes(),
            final(self).blocks() == old(self).blocks(),
            (Pass { contexts: final(self).contexts(), changed, resolved: true }) == (Pass {
                contexts: old(self).contexts(),
                changed: false,
                resolved: true,
            }).merge_into(id as int, state),
    {
        proof {
            use_type_invariant(&*self);
        }
        self.contexts[id].merge(state)
    }

    /// Determine the enclosing block number for a given bytecode address.
    pub fn get_enclosing_block_id(&self, pc: usize) -> (id: usize)
        requires
            pc < self.bytes().len(),
        ensures
            id < self.blocks().len(),
            self.blocks()[id as int].contains(pc as int),
            id == block_of(self.blocks(), pc as int),
    {
        proof {
            use_type_invariant(self);
        }
        let mut i: usize = 0;
        while i < self.blocks.len()
            invariant
                i <= self.blocks.len(),
                pc < self.bytes@.len(),
                partitions(self.blocks@, self.bytes@.len() as int),
                forall|k: int| 0 <= k < i ==> !(#[trigger] self.blocks[k]).contains(pc as int),
            decreases self.blocks.len() - i,
        {
            if self.blocks[i].encloses(pc) {
                proof {
                    lemma_blocks_cover(self.blocks@, self.bytes@.len() as int);
                }
                return i;
            }
            i = i + 1;
        }
        proof {
            // Some block holds `pc`, so the search cannot have passed them all.
            lemma_blocks_cover(self.blocks@, self.bytes@.len() as int);
            assert(enclosed(self.blocks@, pc as int));
        }
        0
    }
}

/// Provides a default disassembly pipeline for standard types (e.g. byte
/// vectors, byte slices, etc).
pub trait Disassemble {
    /// The code that the value holds.
    spec fn code(&self) -> Seq<u8>;

    /// Disassemble the code, which must not be empty.
    fn disassemble<'a>(&'a self) -> (r: Disassembly<'a, ()>)
        requires
            self.code().len() > 0,
        ensures
            r.wf(),
            r.bytes() == self.code(),
            r.contexts() == initial_contexts::<()>(r.blocks().len()),
    ;
}

impl Disassemble for [u8] {
    open spec fn code(&self) -> Seq<u8> {
        self@
    }

    fn disassemble<'a>(&'a self) -> (r: Disassembly<'a, ()>) {
        Disassembly::new(self)
    }
}

impl Disassemble for Vec<u8> {
    open spec fn code(&self) -> Seq<u8> {
        self@
    }

    fn disassemble<'a>(&'a self) -> (r: Disassembly<'a, ()>) {
        Disassembly::new(self.as_slice())
    }
}

impl Disassemble for str {
    open spec fn code(&self) -> Seq<u8> {
        self.spec_bytes()
    }

    fn disassemble<'a>(&'a self) -> (r: Disassembly<'a, ()>) {
        Disassembly::new(self.as_bytes())
    }
}

} // verus!
