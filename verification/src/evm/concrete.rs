//! A stack held in a vector.

use crate::evm::Word;
use crate::util::word::u256;
use vstd::prelude::*;
use vstd::slice::slice_to_vec;


verus! {

/// A concrete stack implementation backed by a `Vec`.
pub struct Stack<T> {
    /// The items on the stack, the top one last.
    items: Vec<T>,
}

impl<T: Word> Stack<T> {
    /// The stack that holds `items`, the last of them on top.
    pub fn new(items: &[T]) -> (r: Self)
        ensures
            crate::evm::Stack::items(&r) == items@,
    {
        Stack { items: slice_to_vec(items) }
    }
}

impl<T: Word> Default for Stack<T> {
    /// The empty stack.
    fn default() -> (r: Self)
        ensures
            crate::evm::Stack::items(&r) == Seq::<T>::empty(),
    {
        Stack { items: Vec::new() }
    }
}

impl<T: Word> crate::evm::Stack<T> for Stack<T> {
    closed spec fn items(&self) -> Seq<T> {
        self.items@
    }

    fn peek(&self, n: usize) -> (r: T) {
        let i = self.items.len() - n;
        self.items[i - 1]
    }

    fn len(&self) -> (r: T) {
        // A vector holds no more items than 64 bits can count.
        let w: u256 = u256::from(self.items.len() as u64);
        // Convert into word
        let word = T::from(w);
        proof {
            T::lemma_from(w, word);
        }
        word
    }

    fn push(&mut self, item: T) {
        self.items.push(item);
    }

    fn pop(&mut self, n: usize) {
        let ghost before = self.items@;
        let mut i: usize = 0;
        while i < n && self.items.len() > 0
            invariant
                i <= n,
                self.items@.len() + i == before.len(),
                self.items@ == before.take(before.len() - i),
            decreases n - i,
        {
            self.items.pop();
            i = i + 1;
        }
    }

    proof fn lemma_default_is_empty(stack: Self) {
    }
}

} // verus!
