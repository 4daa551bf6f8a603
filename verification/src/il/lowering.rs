//! What the compiler makes of a term.
//!
//! Compiling threads one state through the term, from left to right: the
//! instructions emitted so far, the number of labels issued, and the names
//! that have been given a label. The first failure stops everything: a state
//! that has failed stays as it is, whatever is compiled after it.

use crate::il::compiler::CompilerError;
use crate::il::term::{BinOp, Region, Term};
use crate::ll::instruction::{Insn, Instruction};
use crate::util::bytes::{be_bytes, digits_value, lemma_magnitude_len, lemma_span_32, span};
use vstd::prelude::*;

verus! {

/// The number of bytes in a machine word.
pub const WORD_BYTES: usize = 32;

/// The state of a compilation.
pub struct Output {
    /// The instructions emitted so far.
    pub code: Seq<Insn>,
    /// The number of labels issued so far.
    pub labels: nat,
    /// The names that have a label, each with its label, in the order in
    /// which they were first met.
    pub names: Seq<(Seq<char>, usize)>,
    /// The failure that stopped the compilation, if one did.
    pub failure: Option<CompilerError>,
}

/// The label that the first entry for `name` in `names` gives it.
pub open spec fn lookup(names: Seq<(Seq<char>, usize)>, name: Seq<char>) -> Option<usize>
    decreases names.len(),
{
    if names.len() == 0 {
        None
    } else if names[0].0 == name {
        Some(names[0].1)
    } else {
        lookup(names.drop_first(), name)
    }
}

impl Output {
    /// Whether the compilation has failed.
    pub open spec fn failed(self) -> bool {
        self.failure is Some
    }

    /// The state after `insn` has been emitted.
    pub open spec fn emit(self, insn: Insn) -> Output {
        if self.failed() {
            self
        } else {
            Output { code: self.code.push(insn), ..self }
        }
    }

    /// The state after the compilation has failed with `error`.
    pub open spec fn fail(self, error: CompilerError) -> Output {
        if self.failed() {
            self
        } else {
            Output { failure: Some(error), ..self }
        }
    }

    /// The state with the outcome `result` of a step: a failure if the step
    /// failed.
    pub open spec fn ended(self, result: Result<(), CompilerError>) -> Output {
        match result {
            Ok(_) => self,
            Err(error) => self.fail(error),
        }
    }

    /// The label that is issued next.
    pub open spec fn fresh(self) -> usize {
        self.labels as usize
    }

    /// The state after the next label has been issued.
    pub open spec fn issue(self) -> Output {
        if self.failed() {
            self
        } else {
            Output { labels: self.labels + 1, ..self }
        }
    }

    /// The label of `name`: the one it was given when it was first met, or
    /// else the label that is issued next.
    pub open spec fn label_of(self, name: Seq<char>) -> usize {
        match lookup(self.names, name) {
            Some(label) => label,
            None => self.fresh(),
        }
    }

    /// The state after `name` has been resolved to its label: a name that is
    /// new is given the next label.
    pub open spec fn resolve(self, name: Seq<char>) -> Output {
        if self.failed() || lookup(self.names, name) is Some {
            self
        } else {
            Output {
                labels: self.labels + 1,
                names: self.names.push((name, self.fresh())),
                ..self
            }
        }
    }

    /// The state after the instructions of `code` have been emitted, in
    /// order.
    pub open spec fn append(self, code: Seq<Insn>) -> Output {
        if self.failed() {
            self
        } else {
            Output { code: self.code + code, ..self }
        }
    }

    /// The state after a number has been compiled that is written by `digits`
    /// in base `radix`: it is pushed as the shortest string of bytes that
    /// writes it, unless that is longer than a machine word.
    pub open spec fn literal(self, digits: Seq<u8>, radix: nat) -> Output {
        let bytes = be_bytes(digits_value(digits, radix));
        if bytes.len() > WORD_BYTES {
            self.fail(CompilerError::LiteralOverflow)
        } else {
            self.emit(Instruction::PUSH(bytes))
        }
    }

    /// The state after a jump to `label` has been emitted that is taken when
    /// the word on top of the stack is, for `on_true`, other than zero, or
    /// else zero.
    pub open spec fn jump_if(self, on_true: bool, label: usize) -> Output {
        if on_true {
            self.emit(Instruction::PUSHL(label)).emit(Instruction::JUMPI)
        } else {
            self.emit(Instruction::ISZERO).emit(Instruction::PUSHL(label)).emit(Instruction::JUMPI)
        }
    }

    /// The state after the operation `op` has been emitted, which must be
    /// neither of the logical connectives. An operation that the machine lacks
    /// is its opposite followed by a negation.
    pub open spec fn operate(self, op: BinOp) -> Output {
        match op {
            BinOp::Add => self.emit(Instruction::ADD),
            BinOp::Subtract => self.emit(Instruction::SUB),
            BinOp::Divide => self.emit(Instruction::DIV),
            BinOp::Multiply => self.emit(Instruction::MUL),
            BinOp::Remainder => self.emit(Instruction::MOD),
            BinOp::Equals => self.emit(Instruction::EQ),
            BinOp::LessThan => self.emit(Instruction::LT),
            BinOp::GreaterThan => self.emit(Instruction::GT),
            BinOp::NotEquals => self.emit(Instruction::EQ).emit(Instruction::ISZERO),
            BinOp::LessThanOrEquals => self.emit(Instruction::GT).emit(Instruction::ISZERO),
            BinOp::GreaterThanOrEquals => self.emit(Instruction::LT).emit(Instruction::ISZERO),
            BinOp::LogicalAnd | BinOp::LogicalOr => self,
        }
    }

    /// The state after a load from `region` has been emitted.
    pub open spec fn load(self, region: Region) -> Output {
        match region {
            Region::Memory => self.emit(Instruction::MLOAD),
            Region::Storage => self.emit(Instruction::SLOAD),
            Region::CallData => self.emit(Instruction::CALLDATALOAD),
        }
    }

    /// The state after a store to `region` has been emitted. The call input
    /// cannot be stored to.
    pub open spec fn store(self, region: Region) -> Output {
        match region {
            Region::Memory => self.emit(Instruction::MSTORE),
            Region::Storage => self.emit(Instruction::SSTORE),
            Region::CallData => self.fail(CompilerError::InvalidMemoryAccess),
        }
    }
}

/// The state after `term` has been compiled in state `s`.
///
/// An operation on two values has its right operand compiled first, so that
/// the left one ends on top of the stack, where the machine looks for it. A
/// logical connective as a value compiles its left operand, tests a copy of
/// it and, where that settles the outcome, jumps past the right operand.
pub open spec fn lower(s: Output, term: Term) -> Output
    decreases term, 0int,
{
    if s.failed() {
        s
    } else {
        match term {
            Term::Assert(expr) => {
                let label = s.fresh();
                lower_conditional(s.issue(), *expr, Some(label), None).emit(
                    Instruction::INVALID,
                ).emit(Instruction::JUMPDEST(label))
            },
            Term::Assignment(lhs, rhs) => {
                let valued = lower(s, *rhs);
                match *lhs {
                    Term::ArrayAccess(src, index) => match *src {
                        Term::MemoryAccess(region) => lower(valued, *index).store(region),
                        _ => valued.fail(CompilerError::InvalidMemoryAccess),
                    },
                    _ => valued.fail(CompilerError::InvalidLVal),
                }
            },
            Term::Fail => s.emit(Instruction::INVALID),
            Term::Goto(name) => s.resolve(name@).emit(Instruction::PUSHL(s.label_of(name@))).emit(
                Instruction::JUMP,
            ),
            Term::IfGoto(expr, name) => lower_conditional(
                s.resolve(name@),
                *expr,
                Some(s.label_of(name@)),
                None,
            ),
            Term::Label(name) => s.resolve(name@).emit(Instruction::JUMPDEST(s.label_of(name@))),
            Term::Revert(exprs) => lower_return(s, Instruction::REVERT, exprs@),
            Term::Succeed(exprs) => if exprs@.len() == 0 {
                s.emit(Instruction::STOP)
            } else {
                lower_return(s, Instruction::RETURN, exprs@)
            },
            Term::Stop => s.emit(Instruction::STOP),
            Term::Binary(op, lhs, rhs) => match op {
                BinOp::LogicalAnd | BinOp::LogicalOr => {
                    let copied = lower(s, *lhs).emit(Instruction::DUP(1));
                    let tested = if op == BinOp::LogicalAnd {
                        copied.emit(Instruction::ISZERO)
                    } else {
                        copied
                    };
                    let label = tested.fresh();
                    lower(
                        tested.issue().emit(Instruction::PUSHL(label)).emit(Instruction::JUMPI).emit(
                            Instruction::POP,
                        ),
                        *rhs,
                    ).emit(Instruction::JUMPDEST(label))
                },
                _ => lower(lower(s, *rhs), *lhs).operate(op),
            },
            Term::ArrayAccess(src, index) => match *src {
                Term::MemoryAccess(region) => lower(s, *index).load(region),
                _ => s.fail(CompilerError::InvalidMemoryAccess),
            },
            Term::MemoryAccess(_) => s.fail(CompilerError::InvalidMemoryAccess),
            Term::Int(digits) => s.literal(digits@, 10),
            Term::Hex(digits) => s.literal(digits@, 16),
        }
    }
}

/// The state after `expr` has been compiled in state `s` as a condition:
/// control goes to `true_label` if one is given and the condition holds, to
/// `false_label` if one is given and the condition does not hold, and
/// otherwise on to what follows. Exactly one of the two is to be given.
///
/// A conjunction that falls through when false tests its left operand for a
/// jump to the false label and then its right operand likewise. A conjunction
/// that jumps when true tests its left operand for a jump past the right
/// operand, to a label of its own. A disjunction is the mirror image. Any
/// other condition is compiled as a value and tested.
pub open spec fn lower_conditional(
    s: Output,
    expr: Term,
    true_label: Option<usize>,
    false_label: Option<usize>,
) -> Output
    decreases expr, 1int,
{
    if s.failed() {
        s
    } else {
        match expr {
            Term::Binary(BinOp::LogicalAnd, lhs, rhs) => match (true_label, false_label) {
                (Some(_), None) => {
                    let skip = s.fresh();
                    lower_conditional(
                        lower_conditional(s.issue(), *lhs, None, Some(skip)),
                        *rhs,
                        true_label,
                        None,
                    ).emit(Instruction::JUMPDEST(skip))
                },
                (None, Some(_)) => lower_conditional(
                    lower_conditional(s, *lhs, None, false_label),
                    *rhs,
                    true_label,
                    false_label,
                ),
                _ => s,
            },
            Term::Binary(BinOp::LogicalOr, lhs, rhs) => match (true_label, false_label) {
                (None, Some(_)) => {
                    let skip = s.fresh();
                    lower_conditional(
                        lower_conditional(s.issue(), *lhs, Some(skip), None),
                        *rhs,
                        None,
                        false_label,
                    ).emit(Instruction::JUMPDEST(skip))
                },
                (Some(_), None) => lower_conditional(
                    lower_conditional(s, *lhs, true_label, None),
                    *rhs,
                    true_label,
                    false_label,
                ),
                _ => s,
            },
            _ => match (true_label, false_label) {
                (Some(label), None) => lower(s, expr).jump_if(true, label),
                (None, Some(label)) => lower(s, expr).jump_if(false, label),
                _ => lower(s, expr),
            },
        }
    }
}

/// The state after the first `count` of `exprs` have been compiled in state
/// `s`, each followed by a store of its value to memory: the value of the
/// `i`th goes to the 32 bytes at offset `32 * i`.
pub open spec fn lower_stores(s: Output, exprs: Seq<Term>, count: nat) -> Output
    decreases exprs, count,
{
    if count == 0 || count > exprs.len() {
        s
    } else {
        lower(lower_stores(s, exprs, (count - 1) as nat), exprs[count - 1]).emit(
            Instruction::PUSH(be_bytes(((count - 1) * WORD_BYTES) as nat)),
        ).emit(Instruction::MSTORE)
    }
}

/// The state after a halt by `insn` has been compiled in state `s` that
/// hands back the values of `exprs`: they are stored to memory one after the
/// other, and `insn` is given the range of memory that they take up. The
/// length of the range is pushed first and its offset, which is zero, last:
/// the machine looks for the offset on top of the stack and for the length
/// below it.
pub open spec fn lower_return(s: Output, insn: Insn, exprs: Seq<Term>) -> Output
    decreases exprs, exprs.len() + 1,
{
    if exprs.len() == 0 {
        s.emit(Instruction::PUSH(seq![0u8])).emit(Instruction::PUSH(seq![0u8])).emit(insn)
    } else {
        lower_stores(s, exprs, exprs.len()).emit(
            Instruction::PUSH(be_bytes((exprs.len() * WORD_BYTES) as nat)),
        ).emit(Instruction::PUSH(seq![0u8])).emit(insn)
    }
}

/// Whether no name occurs twice in `names`.
pub open spec fn distinct(names: Seq<(Seq<char>, usize)>) -> bool {
    forall|i: int, j: int|
        0 <= i < j < names.len() ==> (#[trigger] names[i]).0 != (#[trigger] names[j]).0
}

/// Whether every name of `s` has a label that has been issued: one below
/// the number of labels issued. A label that is issued later then differs
/// from the label of every name.
pub open spec fn names_issued(s: Output) -> bool {
    forall|i: int| 0 <= i < s.names.len() ==> (#[trigger] s.names[i]).1 < s.labels
}

/// Whether the state `after` can come after the state `before` in a
/// compilation: instructions are only appended, labels are only issued,
/// names keep their labels, no name is entered twice, and the label of every
/// name is one that has been issued.
pub open spec fn extends(before: Output, after: Output) -> bool {
    &&& before.code.is_prefix_of(after.code)
    &&& before.labels <= after.labels
    &&& before.names.is_prefix_of(after.names)
    &&& distinct(before.names) ==> distinct(after.names)
    &&& names_issued(before) ==> names_issued(after)
}

/// A name that has no label is in no entry.
pub proof fn lemma_lookup_none(names: Seq<(Seq<char>, usize)>, name: Seq<char>)
    requires
        lookup(names, name) is None,
    ensures
        forall|i: int| 0 <= i < names.len() ==> (#[trigger] names[i]).0 != name,
    decreases names.len(),
{
    if names.len() > 0 {
        lemma_lookup_none(names.drop_first(), name);
        assert forall|i: int| 0 <= i < names.len() implies (#[trigger] names[i]).0 != name by {
            if i > 0 {
                assert(names[i] == names.drop_first()[i - 1]);
            }
        }
    }
}

/// The steps of a compilation only ever add to its state.
pub proof fn lemma_steps_extend(s: Output)
    ensures
        forall|insn: Insn| extends(s, #[trigger] s.emit(insn)),
        forall|error: CompilerError| extends(s, #[trigger] s.fail(error)),
        extends(s, s.issue()),
        forall|name: Seq<char>| extends(s, #[trigger] s.resolve(name)),
        forall|digits: Seq<u8>, radix: nat| extends(s, #[trigger] s.literal(digits, radix)),
        forall|on_true: bool, label: usize| extends(s, #[trigger] s.jump_if(on_true, label)),
        forall|op: BinOp| extends(s, #[trigger] s.operate(op)),
        forall|region: Region| extends(s, #[trigger] s.load(region)),
        forall|region: Region| extends(s, #[trigger] s.store(region)),
{
    assert forall|name: Seq<char>| extends(s, #[trigger] s.resolve(name)) by {
        if lookup(s.names, name) is None {
            lemma_lookup_none(s.names, name);
        }
    }
}

/// Compiling only ever adds to the state: the instructions emitted before
/// stay, no label is issued twice, every name keeps the label that it was
/// given, and no name is given a second one.
pub proof fn lemma_lower_extends(s: Output, term: Term)
    ensures
        extends(s, lower(s, term)),
    decreases term, 0int,
{
    lemma_steps_extend(s);
    if !s.failed() {
        match term {
            Term::Assert(expr) => {
                lemma_conditional_extends(s.issue(), *expr, Some(s.fresh()), None);
            },
            Term::Assignment(lhs, rhs) => {
                let valued = lower(s, *rhs);
                lemma_lower_extends(s, *rhs);
                match *lhs {
                    Term::ArrayAccess(src, index) => match *src {
                        Term::MemoryAccess(region) => {
                            lemma_lower_extends(valued, *index);
                        },
                        _ => {},
                    },
                    _ => {},
                }
            },
            Term::IfGoto(expr, name) => {
                lemma_conditional_extends(s.resolve(name@), *expr, Some(s.label_of(name@)), None);
            },
            Term::Revert(exprs) => {
                lemma_return_extends(s, Instruction::REVERT, exprs@);
            },
            Term::Succeed(exprs) => {
                if exprs@.len() > 0 {
                    lemma_return_extends(s, Instruction::RETURN, exprs@);
                }
            },
            Term::Binary(op, lhs, rhs) => match op {
                BinOp::LogicalAnd | BinOp::LogicalOr => {
                    lemma_lower_extends(s, *lhs);
                    let copied = lower(s, *lhs).emit(Instruction::DUP(1));
                    let tested = if op == BinOp::LogicalAnd {
                        copied.emit(Instruction::ISZERO)
                    } else {
                        copied
                    };
                    let entered = tested.issue().emit(Instruction::PUSHL(tested.fresh())).emit(
                        Instruction::JUMPI,
                    ).emit(Instruction::POP);
                    assert(extends(s, entered));
                    lemma_lower_extends(entered, *rhs);
                },
                _ => {
                    lemma_lower_extends(s, *rhs);
                    lemma_lower_extends(lower(s, *rhs), *lhs);
                },
            },
            Term::ArrayAccess(src, index) => match *src {
                Term::MemoryAccess(region) => {
                    lemma_lower_extends(s, *index);
                },
                _ => {},
            },
            _ => {},
        }
    }
}

/// Compiling a condition only ever adds to the state.
pub proof fn lemma_conditional_extends(
    s: Output,
    expr: Term,
    true_label: Option<usize>,
    false_label: Option<usize>,
)
    ensures
        extends(s, lower_conditional(s, expr, true_label, false_label)),
    decreases expr, 1int,
{
    if !s.failed() {
        match expr {
            Term::Binary(BinOp::LogicalAnd, lhs, rhs) => match (true_label, false_label) {
                (Some(_), None) => {
                    let skip = s.fresh();
                    let left = lower_conditional(s.issue(), *lhs, None, Some(skip));
                    lemma_conditional_extends(s.issue(), *lhs, None, Some(skip));
                    lemma_conditional_extends(left, *rhs, true_label, None);
                },
                (None, Some(_)) => {
                    let left = lower_conditional(s, *lhs, None, false_label);
                    lemma_conditional_extends(s, *lhs, None, false_label);
                    lemma_conditional_extends(left, *rhs, true_label, false_label);
                },
                _ => {},
            },
            Term::Binary(BinOp::LogicalOr, lhs, rhs) => match (true_label, false_label) {
                (None, Some(_)) => {
                    let skip = s.fresh();
                    let left = lower_conditional(s.issue(), *lhs, Some(skip), None);
                    lemma_conditional_extends(s.issue(), *lhs, Some(skip), None);
                    lemma_conditional_extends(left, *rhs, None, false_label);
                },
                (Some(_), None) => {
                    let left = lower_conditional(s, *lhs, true_label, None);
                    lemma_conditional_extends(s, *lhs, true_label, None);
                    lemma_conditional_extends(left, *rhs, true_label, false_label);
                },
                _ => {},
            },
            _ => {
                lemma_lower_extends(s, expr);
            },
        }
    }
}

/// Compiling stores only ever adds to the state.
pub proof fn lemma_stores_extend(s: Output, exprs: Seq<Term>, count: nat)
    ensures
        extends(s, lower_stores(s, exprs, count)),
    decreases exprs, count,
{
    if count > 0 && count <= exprs.len() {
        let before = lower_stores(s, exprs, (count - 1) as nat);
        lemma_stores_extend(s, exprs, (count - 1) as nat);
        lemma_lower_extends(before, exprs[count - 1]);
    }
}

/// Compiling a halt that hands back values only ever adds to the state.
pub proof fn lemma_return_extends(s: Output, insn: Insn, exprs: Seq<Term>)
    ensures
        extends(s, lower_return(s, insn, exprs)),
    decreases exprs, exprs.len() + 1,
{
    if exprs.len() > 0 {
        lemma_stores_extend(s, exprs, exprs.len());
    }
}

/// A label that is issued now is the label of no name.
pub proof fn lemma_fresh_label_is_new(s: Output, i: int)
    requires
        names_issued(s),
        s.labels <= usize::MAX,
        0 <= i < s.names.len(),
    ensures
        s.names[i].1 != s.fresh(),
{
}

/// Whether `expr`, compiled as a condition, is compiled as a value and
/// tested: it is neither a conjunction nor a disjunction.
pub open spec fn is_simple_condition(expr: Term) -> bool {
    !(expr matches Term::Binary(op, _, _) && (op == BinOp::LogicalAnd || op == BinOp::LogicalOr))
}

/// A conjunction of two simple conditions that is to jump to `target` when it
/// holds issues one label, to skip the right operand. It compiles the left
/// operand with a jump to that label if it is false, then the right operand
/// with a jump to `target` if it is true, and then marks the skip label.
/// A target that was issued before is not the skip label.
pub proof fn lemma_conjunction_when_true(s: Output, lhs: Term, rhs: Term, target: usize)
    requires
        !s.failed(),
        s.labels <= usize::MAX,
        is_simple_condition(lhs),
        is_simple_condition(rhs),
    ensures
        target < s.labels ==> s.fresh() != target,
        lower_conditional(
            s,
            Term::Binary(BinOp::LogicalAnd, Box::new(lhs), Box::new(rhs)),
            Some(target),
            None,
        ) == lower(lower(s.issue(), lhs).jump_if(false, s.fresh()), rhs).jump_if(
            true,
            target,
        ).emit(Instruction::JUMPDEST(s.fresh())),
{
    reveal_with_fuel(lower_conditional, 3);
}

/// The instructions of a conjunction of two simple conditions that is to
/// jump to `target` when it holds. Where the left operand compiles to the
/// instructions `left` and the right operand to the instructions `right`, the
/// conjunction compiles to `left`, a jump to the skip label if the word on top
/// is zero, `right`, a jump to `target` if the word on top is not zero, and the
/// mark of the skip label: one conditional jump for each operand, and no
/// other jump. It issues the skip label and no other.
pub proof fn lemma_conjunction_stream(
    s: Output,
    lhs: Term,
    rhs: Term,
    target: usize,
    left: Seq<Insn>,
    right: Seq<Insn>,
)
    requires
        !s.failed(),
        s.labels <= usize::MAX,
        is_simple_condition(lhs),
        is_simple_condition(rhs),
        lower(s.issue(), lhs) == s.issue().append(left),
        lower(s.issue().append(left).jump_if(false, s.fresh()), rhs) == s.issue().append(
            left,
        ).jump_if(false, s.fresh()).append(right),
    ensures
        lower_conditional(
            s,
            Term::Binary(BinOp::LogicalAnd, Box::new(lhs), Box::new(rhs)),
            Some(target),
            None,
        ) == s.issue().append(
            left + seq![
                Instruction::ISZERO,
                Instruction::PUSHL(s.fresh()),
                Instruction::JUMPI,
            ] + right + seq![
                Instruction::PUSHL(target),
                Instruction::JUMPI,
                Instruction::JUMPDEST(s.fresh()),
            ],
        ),
{
    lemma_conjunction_when_true(s, lhs, rhs, target);
    let skip = s.fresh();
    let tested = s.issue().append(left).jump_if(false, skip);
    let out = tested.append(right).jump_if(true, target).emit(Instruction::JUMPDEST(skip));
    assert(out.code =~= s.code + (left + seq![
        Instruction::ISZERO,
        Instruction::PUSHL(skip),
        Instruction::JUMPI,
    ] + right + seq![
        Instruction::PUSHL(target),
        Instruction::JUMPI,
        Instruction::JUMPDEST(skip),
    ]));
}

/// A number overflows exactly when it does not fit a machine word: in a state
/// that has not failed, compiling a literal fails if the number that its
/// digits write is two to the power of 256 or more, and else pushes it.
pub proof fn lemma_literal_overflow(s: Output, digits: Seq<u8>, radix: nat)
    requires
        !s.failed(),
    ensures
        digits_value(digits, radix) >= span(WORD_BYTES as nat) ==> s.literal(digits, radix)
            == s.fail(CompilerError::LiteralOverflow),
        digits_value(digits, radix) < span(WORD_BYTES as nat) ==> s.literal(digits, radix)
            == s.emit(Instruction::PUSH(be_bytes(digits_value(digits, radix)))),
        span(WORD_BYTES as nat)
            == 0x1_0000_0000_0000_0000_0000_0000_0000_0000_0000_0000_0000_0000_0000_0000_0000_0000nat,
{
    lemma_magnitude_len(digits_value(digits, radix), WORD_BYTES as nat);
    lemma_span_32();
}

/// The right operand comes first: compiling an operation on two values (one
/// that is no logical connective) compiles its right operand, then its left
/// operand, and then the operation, so that the operation finds its left
/// operand on top of the stack.
pub proof fn lemma_right_operand_first(s: Output, op: BinOp, lhs: Term, rhs: Term)
    requires
        op != BinOp::LogicalAnd,
        op != BinOp::LogicalOr,
    ensures
        lower(s, Term::Binary(op, Box::new(lhs), Box::new(rhs))) == lower(
            lower(s, rhs),
            lhs,
        ).operate(op),
{
}

} // verus!
