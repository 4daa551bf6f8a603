//! A small interpreter of bytecode.

pub mod concrete;
pub mod opcode;

use crate::evm::opcode::{ADD, PUSH1, PUSH32, STOP};
use crate::util::bytes::be_value;
use crate::util::word::u256;
use core::marker::PhantomData;
use core::ops::Add;
use vstd::prelude::*;
use vstd::slice::slice_subrange;
use vstd::std_specs::ops::AddSpec;

verus! {

/// Converting a value to its own type, which `core` implements for every
/// type, returns the value unchanged.
pub assume_specification<X>[ <X as core::convert::From<X>>::from ](x: X) -> (r: X)
    ensures
        r == x,
;

/// Represents the fundamental unit of computation within the EVM, namely a
/// word.
///
/// A word is made from a 256-bit integer, and two words are added, as the
/// `spec` functions of the conversion and of the addition say.
pub trait Word: Sized + Copy + From<u256> + Add<Output = Self> {
    /// The word that stands for the integer `w`.
    spec fn spec_word(w: u256) -> Self;

    /// Converting an integer gives the word that stands for it.
    proof fn lemma_from(w: u256, word: Self)
        requires
            call_ensures(<Self as From<u256>>::from, (w,), word),
        ensures
            word == Self::spec_word(w),
    ;

    /// Adding two words gives their sum as `add_spec` has it.
    proof fn lemma_add()
        ensures
            Self::obeys_add_spec(),
    ;
}

/// Default implementation for `u256`
impl Word for u256 {
    open spec fn spec_word(w: u256) -> Self {
        w
    }

    proof fn lemma_from(w: u256, word: Self) {
    }

    proof fn lemma_add() {
    }
}

/// Represents the EVM stack.
pub trait Stack<T: Word>: Default {
    /// The items on the stack, the top one last.
    spec fn items(&self) -> Seq<T>;

    /// Peek `nth` item from stack (where `n==0` is top element).
    fn peek(&self, n: usize) -> (r: T)
        requires
            n < self.items().len(),
        ensures
            r == self.items()[self.items().len() - 1 - n],
    ;

    /// Determine number of items on stack, as a word.
    fn len(&self) -> (r: T)
        ensures
            r == T::spec_word(u256::of(self.items().len())),
    ;

    /// Push an item onto the stack.
    fn push(&mut self, item: T)
        ensures
            final(self).items() == old(self).items().push(item),
    ;

    /// Pop `n` items from the stack, or all of them if it holds fewer.
    fn pop(&mut self, n: usize)
        ensures
            final(self).items() == old(self).items().take(
                if n < old(self).items().len() {
                    old(self).items().len() - n
                } else {
                    0
                },
            ),
    ;

    /// The default stack is empty.
    proof fn lemma_default_is_empty(stack: Self)
        requires
            call_ensures(Self::default, (), stack),
        ensures
            stack.items().len() == 0,
    ;
}

/// A machine at one point of a run: the code, the offset of the instruction
/// that runs next, and the stack.
pub struct Evm<'a, W: Word, S: Stack<W>> {
    // Ties the machine to its kind of word.
    phantom: PhantomData<W>,
    /// Program Counter
    pc: usize,
    /// Bytecode being executed
    code: &'a [u8],
    // Stack
    stack: S,
}

/// The number of operand bytes of the push with opcode `opcode`.
pub open spec fn push_width(opcode: u8) -> int {
    opcode - PUSH1 + 1
}

/// Whether a machine with `code`, at offset `pc` and with the stack `items`,
/// can take a step: it stands at a `STOP`, at an `ADD` with two items on the
/// stack whose sum is defined, or at a push whose operand lies inside the
/// code.
pub open spec fn can_step<W: Word>(code: Seq<u8>, pc: int, items: Seq<W>) -> bool {
    &&& 0 <= pc < code.len()
    &&& {
        let opcode = code[pc];
        ||| opcode == STOP
        ||| opcode == ADD && items.len() >= 2 && items[items.len() - 2].add_req(items.last())
        ||| PUSH1 <= opcode <= PUSH32 && pc + 1 + push_width(opcode) <= code.len()
    }
}

/// The stack that a step leaves, taken at offset `pc` with the stack
/// `items`: an `ADD` replaces the two top items by their sum, and a push adds
/// the word that its operand bytes write, most significant first.
pub open spec fn next_items<W: Word>(code: Seq<u8>, pc: int, items: Seq<W>) -> Seq<W> {
    let opcode = code[pc];
    if opcode == ADD {
        items.take(items.len() - 2).push(items[items.len() - 2].add_spec(items.last()))
    } else {
        items.push(
            W::spec_word(u256::of(be_value(code.subrange(pc + 1, pc + 1 + push_width(opcode))))),
        )
    }
}

/// The offset at which the run goes on after the instruction at `pc`, which
/// is not a `STOP`.
pub open spec fn next_pc(code: Seq<u8>, pc: int) -> int {
    if code[pc] == ADD {
        pc + 1
    } else {
        pc + 1 + push_width(code[pc])
    }
}

/// Whether a run from offset `pc` with the stack `items` comes to a `STOP`
/// without ever being unable to take a step.
pub open spec fn halts<W: Word>(code: Seq<u8>, pc: int, items: Seq<W>) -> bool
    decreases (if pc < code.len() { code.len() - pc } else { 0 }),
{
    &&& can_step(code, pc, items)
    &&& code[pc] != STOP ==> halts(code, next_pc(code, pc), next_items(code, pc, items))
}

impl<'a, W: Word, S> Evm<'a, W, S> where S: Stack<W> {
    /// The offset of the instruction that runs next.
    pub closed spec fn pc(&self) -> usize {
        self.pc
    }

    /// The code that runs.
    pub closed spec fn code(&self) -> Seq<u8> {
        self.code@
    }

    /// The items on the stack, the top one last.
    pub closed spec fn items(&self) -> Seq<W> {
        self.stack.items()
    }

    /// The offset of the instruction that runs next.
    pub fn position(&self) -> (r: usize)
        ensures
            r == self.pc(),
    {
        self.pc
    }

    /// The stack.
    pub fn stack(&self) -> (r: &S)
        ensures
            r.items() == self.items(),
    {
        &self.stack
    }

    /// Construct a new EVM: at the start of `code`, with an empty stack.
    pub fn new(code: &'a [u8]) -> (r: Self)
        ensures
            r.pc() == 0,
            r.code() == code@,
            r.items().len() == 0,
    {
        // Create default stack
        let stack = S::default();
        proof {
            S::lemma_default_is_empty(stack);
        }
        // Create EVM!
        Evm { phantom: PhantomData, pc: 0, code, stack }
    }

    /// Pop `n` items of the stack, or all of them if it holds fewer.
    pub fn pop(self, n: usize) -> (r: Self)
        ensures
            r.pc() == self.pc(),
            r.code() == self.code(),
            r.items() == self.items().take(
                if n < self.items().len() {
                    self.items().len() - n
                } else {
                    0
                },
            ),
    {
        let mut evm = self;
        evm.stack.pop(n);
        evm
    }

    /// Push a word onto the stack.
    pub fn push(self, word: W) -> (r: Self)
        ensures
            r.pc() == self.pc(),
            r.code() == self.code(),
            r.items() == self.items().push(word),
    {
        let mut evm = self;
        evm.stack.push(word);
        evm
    }

    /// Shift the `pc` by `n` bytes.
    pub fn next(self, n: usize) -> (r: Self)
        requires
            self.pc() + n <= usize::MAX,
        ensures
            r.pc() == self.pc() + n,
            r.code() == self.code(),
            r.items() == self.items(),
    {
        let mut evm = self;
        evm.pc = evm.pc + n;
        evm
    }

    /// Execute the contract to completion.
    pub fn run(self)
        requires
            halts(self.code(), self.pc() as int, self.items()),
    {
        let mut evm = self;
        loop
            invariant
                halts(evm.code(), evm.pc() as int, evm.items()),
            decreases evm.code().len() - evm.pc(),
        {
            match evm.step() {
                None => {
                    return ;
                },
                Some(next) => {
                    evm = next;
                },
            }
        }
    }

    /// Execute instruction at the current `pc`. The result is `None` when
    /// the machine stands at a `STOP`.
    pub fn step(self) -> (r: Option<Self>)
        requires
            can_step(self.code(), self.pc() as int, self.items()),
        ensures
            r is None <==> self.code()[self.pc() as int] == STOP,
            r matches Some(next) ==> {
                &&& next.code() == self.code()
                &&& next.pc() == next_pc(self.code(), self.pc() as int)
                &&& next.items() == next_items(self.code(), self.pc() as int, self.items())
            },
    {
        let opcode = self.code[self.pc];
        if opcode == STOP {
            None
        } else if opcode == ADD {
            let lhs = self.stack.peek(1);
            let rhs = self.stack.peek(0);
            proof {
                W::lemma_add();
            }
            Some(self.pop(2).push(lhs + rhs).next(1))
        } else {
            // Determine push size
            let n: usize = ((opcode - PUSH1) + 1) as usize;
            let pc = self.pc + 1;
            // Extract bytes
            let bytes = slice_subrange(self.code, pc, pc + n);
            // Convert bytes into u256 word
            let w: u256 = u256::from(bytes);
            let word = W::from(w);
            proof {
                W::lemma_from(w, word);
            }
            // Done
            Some(self.push(word).next(n + 1))
        }
    }
}

} // verus!
