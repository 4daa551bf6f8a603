//! The compiler from terms to instructions.

use crate::il::lowering::{
    distinct, lemma_conditional_extends, lemma_lower_extends, lemma_steps_extend, lookup, lower,
    lower_conditional, lower_return, lower_stores, names_issued, Output, WORD_BYTES,
};
use crate::il::term::{BinOp, Region, Term};
use crate::ll::bytecode::Bytecode;
use crate::ll::instruction::Instruction;
use crate::util::bytes::{
    be_bytes, from_be_digits, lemma_magnitude_len, lemma_span_16, to_be_bytes,
};
use vstd::prelude::*;

verus! {

// ============================================================================
// Errors
// ============================================================================

/// Why a term cannot be compiled.
#[derive(Copy, Clone, Debug, PartialEq, Eq, Structural)]
pub enum CompilerError {
    /// An integer (or hex) literal is too large: it does not fit a machine
    /// word of 32 bytes.
    LiteralOverflow,
    /// Attempt to read from, or write to, an invalid memory region.
    InvalidMemoryAccess,
    /// Attempt to write something which doesn't exist, or is not an lval.
    InvalidLVal,
}

// ============================================================================
// Compiler
// ============================================================================

/// A compiler of terms into a stream of instructions that it has borrowed.
pub struct Compiler<'a> {
    /// Access to the bytecode stream being constructed.
    pub bytecode: &'a mut Bytecode,
    /// Mapping from label names to their allocated labels in the underlying
    /// bytecode, in the order in which the names were first met.
    pub labels: Vec<(String, usize)>,
}

/// The names of `labels` as sequences of characters, each with its label.
pub open spec fn names_of(labels: Seq<(String, usize)>) -> Seq<(Seq<char>, usize)> {
    labels.map_values(|entry: (String, usize)| (entry.0@, entry.1))
}

impl<'a> Compiler<'a> {
    /// The state of the compilation: what the stream holds, and the names
    /// that have a label.
    pub open spec fn model(&self) -> Output {
        Output {
            code: self.bytecode@.insns,
            labels: self.bytecode@.labels,
            names: names_of(self.labels@),
            failure: None,
        }
    }

    /// What the compiler keeps to: no name is entered twice, and the label
    /// of every name is one that the stream has issued.
    pub open spec fn wf(&self) -> bool {
        &&& distinct(self.model().names)
        &&& names_issued(self.model())
    }

    /// A compiler that appends to `bytecode`, with no name known yet.
    pub fn new(bytecode: &'a mut Bytecode) -> (r: Self)
        ensures
            *r.bytecode == *old(bytecode),
            *final(r.bytecode) == *final(bytecode),
            r.labels@.len() == 0,
            r.wf(),
    {
        Self { bytecode, labels: Vec::new() }
    }

    /// Get the underlying bytecode label for a given label identifier. If
    /// necessary, this allocates that label in the `Bytecode` object.
    pub fn label(&mut self, l: &str) -> (r: usize)
        ensures
            r == old(self).model().label_of(l@),
            final(self).model() == old(self).model().resolve(l@),
            *final(final(self).bytecode) == *final(old(self).bytecode),
            old(self).wf() ==> final(self).wf(),
    {
        proof {
            lemma_steps_extend(old(self).model());
        }
        let name = l.to_owned();
        let ghost names = names_of(self.labels@);
        let mut i: usize = 0;
        assert(names.skip(0) =~= names);
        while i < self.labels.len()
            invariant
                i <= self.labels.len(),
                names == names_of(self.labels@),
                name@ == l@,
                lookup(names.skip(i as int), l@) == lookup(names, l@),
                *self == *old(self),
            decreases self.labels.len() - i,
        {
            assert(names.skip(i as int).drop_first() =~= names.skip(i + 1));
            if self.labels[i].0 == name {
                return self.labels[i].1;
            }
            i = i + 1;
        }
        // Allocate underlying index
        let idx = self.bytecode.fresh_label();
        // Cache it for later
        self.labels.push((name, idx));
        assert(names_of(self.labels@) =~= names.push((l@, idx)));
        idx
    }

    /// Compile `term`: append its instructions to the stream.
    pub fn translate(&mut self, term: &Term) -> (r: Result<(), CompilerError>)
        ensures
            final(self).model().ended(r) == lower(old(self).model(), *term),
            *final(final(self).bytecode) == *final(old(self).bytecode),
            old(self).wf() ==> final(self).wf(),
        decreases *term, 3int,
    {
        proof {
            lemma_lower_extends(old(self).model(), *term);
        }
        match term {
            // Statements
            Term::Assert(e) => self.translate_assert(e),
            Term::Assignment(e1, e2) => self.translate_assignment(e1, e2),
            Term::Fail => self.translate_fail(),
            Term::Goto(l) => self.translate_goto(l.as_str()),
            Term::IfGoto(e, l) => self.translate_ifgoto(e, l.as_str()),
            Term::Label(l) => self.translate_label(l.as_str()),
            Term::Revert(es) => self.translate_revert(es),
            Term::Succeed(es) => self.translate_succeed(es),
            Term::Stop => self.translate_stop(),
            // Expressions
            Term::Binary(bop, e1, e2) => self.translate_binary(*bop, e1, e2),
            Term::ArrayAccess(src, index) => self.translate_array_access(src, index),
            Term::MemoryAccess(_) => Err(CompilerError::InvalidMemoryAccess),
            // Values
            Term::Int(digits) => self.translate_literal(digits.as_slice(), 10),
            Term::Hex(digits) => self.translate_literal(digits.as_slice(), 16),
        }
    }

    // ============================================================================
    // Statements
    // ============================================================================
    fn translate_assert(&mut self, expr: &Term) -> (r: Result<(), CompilerError>)
        ensures
            final(self).model().ended(r) == lower(
                old(self).model(),
                Term::Assert(Box::new(*expr)),
            ),
            *final(final(self).bytecode) == *final(old(self).bytecode),
        decreases Term::Assert(Box::new(*expr)), 2int,
    {
        // Allocate labels for true/false outcomes
        let lab = self.bytecode.fresh_label();
        // Translate conditional branch
        self.translate_conditional(expr, Some(lab), None)?;
        // False branch
        self.bytecode.push(Instruction::INVALID);
        // True branch
        self.bytecode.push(Instruction::JUMPDEST(lab));
        Ok(())
    }

    fn translate_assignment(&mut self, lhs: &Term, rhs: &Term) -> (r: Result<(), CompilerError>)
        ensures
            final(self).model().ended(r) == lower(
                old(self).model(),
                Term::Assignment(Box::new(*lhs), Box::new(*rhs)),
            ),
            *final(final(self).bytecode) == *final(old(self).bytecode),
        decreases Term::Assignment(Box::new(*lhs), Box::new(*rhs)), 2int,
    {
        proof {
            reveal_with_fuel(lower, 3);
        }
        // Translate value being assigned
        self.translate(rhs)?;
        // Translate assignment itself
        match lhs {
            Term::ArrayAccess(src, idx) => self.translate_assignment_array(src, idx),
            _ => Err(CompilerError::InvalidLVal),
        }
    }

    fn translate_assignment_array(&mut self, src: &Term, index: &Term) -> (r: Result<
        (),
        CompilerError,
    >)
        ensures
            final(self).model().ended(r) == match *src {
                Term::MemoryAccess(region) => lower(old(self).model(), *index).store(region),
                _ => old(self).model().fail(CompilerError::InvalidMemoryAccess),
            },
            *final(final(self).bytecode) == *final(old(self).bytecode),
        decreases Term::ArrayAccess(Box::new(*src), Box::new(*index)), 1int,
    {
        proof {
            // The index is a part of the access.
            let access = Term::ArrayAccess(Box::new(*src), Box::new(*index));
            assert(access matches Term::ArrayAccess(_, part) && *part == *index);
        }
        match src {
            Term::MemoryAccess(r) => self.translate_assignment_memory(*r, index),
            _ => Err(CompilerError::InvalidMemoryAccess),
        }
    }

    fn translate_assignment_memory(&mut self, region: Region, address: &Term) -> (r: Result<
        (),
        CompilerError,
    >)
        ensures
            final(self).model().ended(r) == lower(old(self).model(), *address).store(region),
            *final(final(self).bytecode) == *final(old(self).bytecode),
        decreases *address, 4int,
    {
        // Translate index expression
        self.translate(address)?;
        // Dispatch based on region
        match region {
            Region::Memory => self.bytecode.push(Instruction::MSTORE),
            Region::Storage => self.bytecode.push(Instruction::SSTORE),
            _ => {
                return Err(CompilerError::InvalidMemoryAccess);
            },
        };
        Ok(())
    }

    fn translate_fail(&mut self) -> (r: Result<(), CompilerError>)
        ensures
            final(self).model().ended(r) == old(self).model().emit(Instruction::INVALID),
            *final(final(self).bytecode) == *final(old(self).bytecode),
    {
        self.bytecode.push(Instruction::INVALID);
        Ok(())
    }

    fn translate_goto(&mut self, label: &str) -> (r: Result<(), CompilerError>)
        ensures
            final(self).model().ended(r) == old(self).model().resolve(label@).emit(
                Instruction::PUSHL(old(self).model().label_of(label@)),
            ).emit(Instruction::JUMP),
            *final(final(self).bytecode) == *final(old(self).bytecode),
    {
        // Allocate labels branch target
        let lab = self.label(label);
        // Translate unconditional branch
        self.bytecode.push(Instruction::PUSHL(lab));
        self.bytecode.push(Instruction::JUMP);
        Ok(())
    }

    fn translate_ifgoto(&mut self, expr: &Term, label: &str) -> (r: Result<(), CompilerError>)
        ensures
            final(self).model().ended(r) == lower_conditional(
                old(self).model().resolve(label@),
                *expr,
                Some(old(self).model().label_of(label@)),
                None,
            ),
            *final(final(self).bytecode) == *final(old(self).bytecode),
        decreases *expr, 6int,
    {
        // Allocate labels for true/false outcomes
        let lab = self.label(label);
        // Translate conditional branch
        self.translate_conditional(expr, Some(lab), None)
    }

    fn translate_label(&mut self, label: &str) -> (r: Result<(), CompilerError>)
        ensures
            final(self).model().ended(r) == old(self).model().resolve(label@).emit(
                Instruction::JUMPDEST(old(self).model().label_of(label@)),
            ),
            *final(final(self).bytecode) == *final(old(self).bytecode),
    {
        // Determine underlying index of label
        let lab = self.label(label);
        // Construct corresponding JumpDest
        self.bytecode.push(Instruction::JUMPDEST(lab));
        Ok(())
    }

    fn translate_revert(&mut self, exprs: &Vec<Term>) -> (r: Result<(), CompilerError>)
        ensures
            final(self).model().ended(r) == lower_return(
                old(self).model(),
                Instruction::REVERT,
                exprs@,
            ),
            *final(final(self).bytecode) == *final(old(self).bytecode),
        decreases *exprs, 2int,
    {
        self.translate_succeed_revert(Instruction::REVERT, exprs)
    }

    fn translate_succeed(&mut self, exprs: &Vec<Term>) -> (r: Result<(), CompilerError>)
        ensures
            final(self).model().ended(r) == if exprs@.len() == 0 {
                old(self).model().emit(Instruction::STOP)
            } else {
                lower_return(old(self).model(), Instruction::RETURN, exprs@)
            },
            *final(final(self).bytecode) == *final(old(self).bytecode),
        decreases *exprs, 2int,
    {
        if exprs.len() == 0 {
            self.bytecode.push(Instruction::STOP);
            Ok(())
        } else {
            self.translate_succeed_revert(Instruction::RETURN, exprs)
        }
    }

    fn translate_succeed_revert(&mut self, insn: Instruction, exprs: &Vec<Term>) -> (r: Result<
        (),
        CompilerError,
    >)
        ensures
            final(self).model().ended(r) == lower_return(old(self).model(), insn@, exprs@),
            *final(final(self).bytecode) == *final(old(self).bytecode),
        decreases *exprs, 1int,
    {
        if exprs.len() == 0 {
            self.bytecode.push(zero_push());
            self.bytecode.push(zero_push());
        } else {
            let mut i: usize = 0;
            while i < exprs.len()
                invariant
                    i <= exprs.len(),
                    self.model() == lower_stores(old(self).model(), exprs@, i as nat),
                    *final(self.bytecode) == *final(old(self).bytecode),
                decreases exprs.len() - i,
            {
                let addr: u128 = (i as u128) * 0x20;
                match self.translate(&exprs[i]) {
                    Ok(_) => {},
                    Err(error) => {
                        proof {
                            lemma_stores_stuck(
                                old(self).model(),
                                exprs@,
                                (i + 1) as nat,
                                exprs@.len(),
                            );
                        }
                        return Err(error);
                    },
                }
                let push = make_push(to_be_bytes(addr));
                proof {
                    lemma_offset_fits(addr as nat);
                }
                match push {
                    Ok(insn) => self.bytecode.push(insn),
                    Err(error) => {
                        return Err(error);
                    },
                }
                self.bytecode.push(Instruction::MSTORE);
                i = i + 1;
            }
            // The length of the range first, then its offset on top.
            let len: u128 = (exprs.len() as u128) * 0x20;
            let push = make_push(to_be_bytes(len));
            proof {
                lemma_offset_fits(len as nat);
            }
            match push {
                Ok(insn) => self.bytecode.push(insn),
                Err(error) => {
                    return Err(error);
                },
            }
            self.bytecode.push(zero_push());
        }
        self.bytecode.push(insn);
        Ok(())
    }

    fn translate_stop(&mut self) -> (r: Result<(), CompilerError>)
        ensures
            final(self).model().ended(r) == old(self).model().emit(Instruction::STOP),
            *final(final(self).bytecode) == *final(old(self).bytecode),
    {
        self.bytecode.push(Instruction::STOP);
        Ok(())
    }

    // ============================================================================
    // Conditional Expressions
    // ============================================================================
    /// Translate a conditional expression using _short circuiting_ semantics.
    /// Since implementing short circuiting requires branching, we can exploit
    /// this to optimise other translations and reduce the number of branches
    /// required. To do that, this method requires either a `true` target or a
    /// `false` target, and not both. If a `true` target is provided then, if
    /// the condition evaluates to something other than `0` (i.e. is `true`),
    /// control is transferred to this target. Likewise, if the condition
    /// evaluates to `0` (i.e. `false`) the control is transferred to the
    /// `false` target.
    pub fn translate_conditional(
        &mut self,
        expr: &Term,
        true_lab: Option<usize>,
        false_lab: Option<usize>,
    ) -> (r: Result<(), CompilerError>)
        requires
            (true_lab is Some) != (false_lab is Some),
        ensures
            final(self).model().ended(r) == lower_conditional(
                old(self).model(),
                *expr,
                true_lab,
                false_lab,
            ),
            *final(final(self).bytecode) == *final(old(self).bytecode),
            old(self).wf() ==> final(self).wf(),
        decreases *expr, 5int,
    {
        proof {
            lemma_conditional_extends(old(self).model(), *expr, true_lab, false_lab);
        }
        match expr {
            Term::Binary(BinOp::LogicalAnd, l, r) => self.translate_conditional_conjunct(
                l,
                r,
                true_lab,
                false_lab,
            ),
            Term::Binary(BinOp::LogicalOr, l, r) => self.translate_conditional_disjunct(
                l,
                r,
                true_lab,
                false_lab,
            ),
            _ => self.translate_conditional_other(expr, true_lab, false_lab),
        }
    }

    /// Translate a logical conjunction as a conditional. Since such
    /// connectives require short circuiting, these must be implemented using
    /// branches.
    fn translate_conditional_conjunct(
        &mut self,
        lhs: &Term,
        rhs: &Term,
        true_lab: Option<usize>,
        false_lab: Option<usize>,
    ) -> (r: Result<(), CompilerError>)
        requires
            (true_lab is Some) != (false_lab is Some),
        ensures
            final(self).model().ended(r) == lower_conditional(
                old(self).model(),
                Term::Binary(BinOp::LogicalAnd, Box::new(*lhs), Box::new(*rhs)),
                true_lab,
                false_lab,
            ),
            *final(final(self).bytecode) == *final(old(self).bytecode),
        decreases Term::Binary(BinOp::LogicalAnd, Box::new(*lhs), Box::new(*rhs)), 4int,
    {
        proof {
            reveal_with_fuel(lower_conditional, 3);
        }
        if true_lab.is_some() {
            // Harder case
            let lab = self.bytecode.fresh_label();
            self.translate_conditional(lhs, None, Some(lab))?;
            self.translate_conditional(rhs, true_lab, None)?;
            self.bytecode.push(Instruction::JUMPDEST(lab));
        } else {
            // Easy case
            self.translate_conditional(lhs, None, false_lab)?;
            self.translate_conditional(rhs, true_lab, false_lab)?;
        }
        Ok(())
    }

    /// Translate a logical disjunction as a conditional. Since such
    /// connectives require short circuiting, these must be implemented using
    /// branches.
    fn translate_conditional_disjunct(
        &mut self,
        lhs: &Term,
        rhs: &Term,
        true_lab: Option<usize>,
        false_lab: Option<usize>,
    ) -> (r: Result<(), CompilerError>)
        requires
            (true_lab is Some) != (false_lab is Some),
        ensures
            final(self).model().ended(r) == lower_conditional(
                old(self).model(),
                Term::Binary(BinOp::LogicalOr, Box::new(*lhs), Box::new(*rhs)),
                true_lab,
                false_lab,
            ),
            *final(final(self).bytecode) == *final(old(self).bytecode),
        decreases Term::Binary(BinOp::LogicalOr, Box::new(*lhs), Box::new(*rhs)), 4int,
    {
        proof {
            reveal_with_fuel(lower_conditional, 3);
        }
        if false_lab.is_some() {
            // Harder case
            let lab = self.bytecode.fresh_label();
            self.translate_conditional(lhs, Some(lab), None)?;
            self.translate_conditional(rhs, None, false_lab)?;
            self.bytecode.push(Instruction::JUMPDEST(lab));
        } else {
            // Easy case
            self.translate_conditional(lhs, true_lab, None)?;
            self.translate_conditional(rhs, true_lab, false_lab)?;
        }
        Ok(())
    }

    /// Translate a conditional expression which cannot be translated by
    /// exploiting branches. In such case, we have to generate the boolean
    /// value and dispatch based on that.
    fn translate_conditional_other(
        &mut self,
        expr: &Term,
        true_lab: Option<usize>,
        false_lab: Option<usize>,
    ) -> (r: Result<(), CompilerError>)
        requires
            (true_lab is Some) != (false_lab is Some),
        ensures
            final(self).model().ended(r) == match (true_lab, false_lab) {
                (Some(label), _) => lower(old(self).model(), *expr).jump_if(true, label),
                (None, Some(label)) => lower(old(self).model(), *expr).jump_if(false, label),
                (None, None) => lower(old(self).model(), *expr),
            },
            *final(final(self).bytecode) == *final(old(self).bytecode),
        decreases *expr, 4int,
    {
        // Translate conditional expression
        self.translate(expr)?;
        match true_lab {
            Some(lab) => {
                self.bytecode.push(Instruction::PUSHL(lab));
                self.bytecode.push(Instruction::JUMPI);
            },
            None => {
                if let Some(lab) = false_lab {
                    self.bytecode.push(Instruction::ISZERO);
                    self.bytecode.push(Instruction::PUSHL(lab));
                    self.bytecode.push(Instruction::JUMPI);
                }
            },
        }
        Ok(())
    }

    // ============================================================================
    // Binary Expressions
    // ============================================================================
    /// Translate a binary operation. Observe that logical operations exhibit
    /// _short-circuit behaviour_.
    fn translate_binary(&mut self, bop: BinOp, lhs: &Term, rhs: &Term) -> (r: Result<
        (),
        CompilerError,
    >)
        ensures
            final(self).model().ended(r) == lower(
                old(self).model(),
                Term::Binary(bop, Box::new(*lhs), Box::new(*rhs)),
            ),
            *final(final(self).bytecode) == *final(old(self).bytecode),
        decreases Term::Binary(bop, Box::new(*lhs), Box::new(*rhs)), 2int,
    {
        match bop {
            BinOp::LogicalAnd | BinOp::LogicalOr => self.translate_logical_connective(
                bop,
                lhs,
                rhs,
            ),
            _ => self.translate_binary_arithmetic(bop, lhs, rhs),
        }
    }

    /// Translate one of the logical connectives (e.g. `&&` or `||`). These
    /// are more challenging than standard binary operators because they
    /// exhibit _short circuiting behaviour_.
    fn translate_logical_connective(&mut self, bop: BinOp, lhs: &Term, rhs: &Term) -> (r: Result<
        (),
        CompilerError,
    >)
        requires
            bop == BinOp::LogicalAnd || bop == BinOp::LogicalOr,
        ensures
            final(self).model().ended(r) == lower(
                old(self).model(),
                Term::Binary(bop, Box::new(*lhs), Box::new(*rhs)),
            ),
            *final(final(self).bytecode) == *final(old(self).bytecode),
        decreases Term::Binary(bop, Box::new(*lhs), Box::new(*rhs)), 1int,
    {
        proof {
            reveal_with_fuel(lower, 3);
        }
        self.translate(lhs)?;
        self.bytecode.push(Instruction::DUP(1));
        if bop == BinOp::LogicalAnd {
            self.bytecode.push(Instruction::ISZERO);
        }
        // Allocate fresh label
        let lab = self.bytecode.fresh_label();
        self.bytecode.push(Instruction::PUSHL(lab));
        self.bytecode.push(Instruction::JUMPI);
        self.bytecode.push(Instruction::POP);
        self.translate(rhs)?;
        self.bytecode.push(Instruction::JUMPDEST(lab));
        Ok(())
    }

    /// Translate a binary arithmetic operation or comparison. This is pretty
    /// straightforward, as we just load items on the stack and perform the
    /// op. Observe that the right-hand side is loaded onto the stack first.
    fn translate_binary_arithmetic(&mut self, bop: BinOp, lhs: &Term, rhs: &Term) -> (r: Result<
        (),
        CompilerError,
    >)
        requires
            bop != BinOp::LogicalAnd && bop != BinOp::LogicalOr,
        ensures
            final(self).model().ended(r) == lower(
                old(self).model(),
                Term::Binary(bop, Box::new(*lhs), Box::new(*rhs)),
            ),
            *final(final(self).bytecode) == *final(old(self).bytecode),
        decreases Term::Binary(bop, Box::new(*lhs), Box::new(*rhs)), 1int,
    {
        proof {
            reveal_with_fuel(lower, 3);
        }
        self.translate(rhs)?;
        self.translate(lhs)?;
        match bop {
            // standard
            BinOp::Add => self.bytecode.push(Instruction::ADD),
            BinOp::Subtract => self.bytecode.push(Instruction::SUB),
            BinOp::Divide => self.bytecode.push(Instruction::DIV),
            BinOp::Multiply => self.bytecode.push(Instruction::MUL),
            BinOp::Remainder => self.bytecode.push(Instruction::MOD),
            BinOp::Equals => self.bytecode.push(Instruction::EQ),
            BinOp::LessThan => self.bytecode.push(Instruction::LT),
            BinOp::GreaterThan => self.bytecode.push(Instruction::GT),
            // non-standard
            BinOp::NotEquals => {
                self.bytecode.push(Instruction::EQ);
                self.bytecode.push(Instruction::ISZERO);
            },
            BinOp::LessThanOrEquals => {
                self.bytecode.push(Instruction::GT);
                self.bytecode.push(Instruction::ISZERO);
            },
            BinOp::GreaterThanOrEquals => {
                self.bytecode.push(Instruction::LT);
                self.bytecode.push(Instruction::ISZERO);
            },
            BinOp::LogicalAnd | BinOp::LogicalOr => {},
        }
        Ok(())
    }

    // ============================================================================
    // Array Access Expressions
    // ============================================================================
    /// Translate an array access of the form `src[index]`. The actual form
    /// of the translation depends on whether it is a direct access (e.g. to
    /// storage or memory), or indirect (e.g. via a pointer to memory).
    fn translate_array_access(&mut self, src: &Term, index: &Term) -> (r: Result<
        (),
        CompilerError,
    >)
        ensures
            final(self).model().ended(r) == lower(
                old(self).model(),
                Term::ArrayAccess(Box::new(*src), Box::new(*index)),
            ),
            *final(final(self).bytecode) == *final(old(self).bytecode),
        decreases Term::ArrayAccess(Box::new(*src), Box::new(*index)), 2int,
    {
        match src {
            Term::MemoryAccess(r) => self.translate_memory_access(*r, index),
            _ => Err(CompilerError::InvalidMemoryAccess),
        }
    }

    fn translate_memory_access(&mut self, region: Region, index: &Term) -> (r: Result<
        (),
        CompilerError,
    >)
        ensures
            final(self).model().ended(r) == lower(old(self).model(), *index).load(region),
            *final(final(self).bytecode) == *final(old(self).bytecode),
        decreases *index, 4int,
    {
        // Translate index expression
        self.translate(index)?;
        // Dispatch based on region
        match region {
            Region::Memory => {
                self.bytecode.push(Instruction::MLOAD);
            },
            Region::Storage => {
                self.bytecode.push(Instruction::SLOAD);
            },
            Region::CallData => {
                self.bytecode.push(Instruction::CALLDATALOAD);
            },
        }
        Ok(())
    }

    // ============================================================================
    // Values
    // ============================================================================
    fn translate_literal(&mut self, digits: &[u8], radix: u32) -> (r: Result<(), CompilerError>)
        ensures
            final(self).model().ended(r) == old(self).model().literal(digits@, radix as nat),
            *final(final(self).bytecode) == *final(old(self).bytecode),
    {
        let insn = make_push(from_be_digits(digits, radix))?;
        self.bytecode.push(insn);
        Ok(())
    }
}

/// Construct a push instruction from the bytes of a value, which must fit a
/// machine word.
pub fn make_push(bytes: Vec<u8>) -> (r: Result<Instruction, CompilerError>)
    ensures
        bytes.len() > WORD_BYTES ==> r == Err::<Instruction, CompilerError>(
            CompilerError::LiteralOverflow,
        ),
        bytes.len() <= WORD_BYTES ==> r is Ok && r->Ok_0@ == Instruction::PUSH(bytes@),
{
    // Sanity check size of literal
    if bytes.len() > WORD_BYTES {
        // Too big!!
        Err(CompilerError::LiteralOverflow)
    } else {
        Ok(Instruction::PUSH(bytes))
    }
}

/// The instruction that pushes zero.
fn zero_push() -> (r: Instruction)
    ensures
        r@ == Instruction::PUSH(seq![0u8]),
{
    let mut bytes: Vec<u8> = Vec::new();
    bytes.push(0);
    Instruction::PUSH(bytes)
}

/// A memory offset of up to 128 bits fits a machine word.
proof fn lemma_offset_fits(offset: nat)
    requires
        offset <= u128::MAX,
    ensures
        be_bytes(offset).len() <= WORD_BYTES,
{
    lemma_magnitude_len(offset, 16);
    lemma_span_16();
}

/// Once storing values has failed, storing more changes nothing.
proof fn lemma_stores_stuck(s: Output, exprs: Seq<Term>, from: nat, to: nat)
    requires
        lower_stores(s, exprs, from).failed(),
        from <= to <= exprs.len(),
    ensures
        lower_stores(s, exprs, to) == lower_stores(s, exprs, from),
    decreases to,
{
    if from < to {
        lemma_stores_stuck(s, exprs, from, (to - 1) as nat);
        let stuck = lower_stores(s, exprs, (to - 1) as nat);
        assert(lower(stuck, exprs[to - 1]) == stuck);
    }
}

} // verus!
