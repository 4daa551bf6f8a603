//! A stream of instructions under construction.

use crate::ll::instruction::{Insn, Instruction};
use vstd::prelude::*;

verus! {

/// A stream of instructions under construction, and the labels issued for
/// it. Instructions are only ever appended; a label, once issued, is never
/// issued again.
pub struct Bytecode {
    /// The instructions appended so far.
    insns: Vec<Instruction>,
    /// One entry for each label issued so far. A label is the index of its
    /// entry: the next label is the length of this list, and issuing it
    /// lengthens the list by one.
    labels: Vec<()>,
}

/// What a stream under construction holds.
pub struct BytecodeView {
    /// The instructions appended so far, in order.
    pub insns: Seq<Insn>,
    /// The number of labels issued so far: these are the labels below it.
    pub labels: nat,
}

impl View for Bytecode {
    type V = BytecodeView;

    closed spec fn view(&self) -> BytecodeView {
        BytecodeView { insns: self.insns.deep_view(), labels: self.labels@.len() }
    }
}

impl Bytecode {
    /// An empty stream, for which no label has been issued.
    pub fn new() -> (r: Bytecode)
        ensures
            r@.insns == Seq::<Insn>::empty(),
            r@.labels == 0,
    {
        let r = Bytecode { insns: Vec::new(), labels: Vec::new() };
        r
    }

    /// Issue a label that has not been issued before.
    pub fn fresh_label(&mut self) -> (label: usize)
        ensures
            label == old(self)@.labels,
            final(self)@.labels == old(self)@.labels + 1,
            final(self)@.insns == old(self)@.insns,
    {
        let label = self.labels.len();
        self.labels.push(());
        label
    }

    /// Append an instruction to the stream.
    pub fn push(&mut self, insn: Instruction)
        ensures
            final(self)@.insns == old(self)@.insns.push(insn@),
            final(self)@.labels == old(self)@.labels,
    {
        self.insns.push(insn);
    }

    /// The instructions appended so far.
    pub fn instructions(&self) -> (r: &Vec<Instruction>)
        ensures
            r.deep_view() == self@.insns,
    {
        &self.insns
    }

    /// The number of labels issued so far.
    pub fn labels(&self) -> (r: usize)
        ensures
            r == self@.labels,
    {
        self.labels.len()
    }
}

} // verus!
