//! The form of a program module: one function, one block of typed integer
//! operations in single-assignment form, and what the block returns.

use vstd::prelude::*;
use crate::eval::{quotient, truth};

verus! {

/// The predicate of a signed integer comparison.
#[derive(Debug, Clone, Copy, PartialEq, Eq)]
pub enum Predicate {
    Eq,
    Ne,
    Slt,
    Sle,
}

/// One typed integer operation of a basic block. Each operation defines one
/// value; an operand is the position, in the block, of the operation that
/// defines it.
#[derive(Debug, Clone, Copy, PartialEq, Eq)]
pub enum Operation {
    /// A 32-bit constant.
    Const(i32),
    /// The 32-bit negation of a value.
    Neg(usize),
    /// The 32-bit sum of two values.
    Add(usize, usize),
    /// The 32-bit difference of two values.
    Sub(usize, usize),
    /// The 32-bit product of two values.
    Mul(usize, usize),
    /// The signed 32-bit quotient of two values.
    SDiv(usize, usize),
    /// The one-bit outcome of a signed comparison of two 32-bit values.
    Compare(Predicate, usize, usize),
    /// A one-bit value widened to 32 bits by zero extension.
    ZExt(usize),
}

/// A basic block: operations in program order, and the value that the
/// terminating return hands back.
#[derive(Debug, PartialEq, Eq)]
pub struct IrBlock {
    pub label: String,
    pub operations: Vec<Operation>,
    pub result: usize,
}

/// A function without parameters that returns a signed 32-bit integer and
/// consists of one basic block.
#[derive(Debug, PartialEq, Eq)]
pub struct IrFunction {
    pub name: String,
    pub entry: IrBlock,
}

/// A program module that holds one function.
#[derive(Debug, PartialEq, Eq)]
pub struct IrModule {
    pub name: String,
    pub function: IrFunction,
}

impl Operation {
    /// Whether the value that this operation defines is one bit wide; every
    /// other value is 32 bits wide.
    pub open spec fn is_bit(self) -> bool {
        self is Compare
    }
}

/// Whether the operation at position `i` takes its operands from positions
/// before its own, each of the width that the operation is defined for.
pub open spec fn well_typed(operations: Seq<Operation>, i: int) -> bool {
    match operations[i] {
        Operation::Const(_) => true,
        Operation::Neg(a) => a < i && !operations[a as int].is_bit(),
        Operation::Add(a, b)
        | Operation::Sub(a, b)
        | Operation::Mul(a, b)
        | Operation::SDiv(a, b)
        | Operation::Compare(_, a, b) => {
            &&& a < i
            &&& b < i
            &&& !operations[a as int].is_bit()
            &&& !operations[b as int].is_bit()
        },
        Operation::ZExt(a) => a < i && operations[a as int].is_bit(),
    }
}

/// Whether every operation of the sequence is well typed.
pub open spec fn well_formed(operations: Seq<Operation>) -> bool {
    forall|i: int| 0 <= i < operations.len() ==> well_typed(operations, i)
}

impl IrBlock {
    /// Whether the block's operations are well typed and it returns one of
    /// their 32-bit values.
    pub open spec fn well_formed(&self) -> bool {
        &&& well_formed(self.operations@)
        &&& self.result < self.operations@.len()
        &&& !self.operations@[self.result as int].is_bit()
    }
}

impl IrModule {
    /// Whether the entry block of the module's function is well formed.
    pub open spec fn well_formed(&self) -> bool {
        self.function.entry.well_formed()
    }

    /// Whether the entry block of the module's function is well formed.
    pub fn is_well_formed(&self) -> (yes: bool)
        ensures
            yes == self.well_formed(),
    {
        self.function.entry.is_well_formed()
    }
}

/// Whether the value at position `a` is defined before position `i` and is
/// one bit wide, where `bit` holds, or 32 bits wide, where it does not.
fn operand_fits(operations: &Vec<Operation>, i: usize, a: usize, bit: bool) -> (fits: bool)
    requires
        i < operations@.len(),
    ensures
        fits == (a < i && operations@[a as int].is_bit() == bit),
{
    if a >= i {
        return false;
    }
    match operations[a] {
        Operation::Compare(_, _, _) => bit,
        _ => !bit,
    }
}

/// Whether the operation at position `i` is well typed.
fn is_well_typed(operations: &Vec<Operation>, i: usize) -> (yes: bool)
    requires
        i < operations@.len(),
    ensures
        yes == well_typed(operations@, i as int),
{
    match operations[i] {
        Operation::Const(_) => true,
        Operation::Neg(a) => operand_fits(operations, i, a, false),
        Operation::Add(a, b)
        | Operation::Sub(a, b)
        | Operation::Mul(a, b)
        | Operation::SDiv(a, b)
        | Operation::Compare(_, a, b) => operand_fits(operations, i, a, false) && operand_fits(
            operations,
            i,
            b,
            false,
        ),
        Operation::ZExt(a) => operand_fits(operations, i, a, true),
    }
}

impl IrBlock {
    /// Whether the block's operations are well typed and it returns one of
    /// their 32-bit values.
    pub fn is_well_formed(&self) -> (yes: bool)
        ensures
            yes == self.well_formed(),
    {
        let mut i: usize = 0;
        while i < self.operations.len()
            invariant
                i <= self.operations@.len(),
                forall|j: int| 0 <= j < i ==> well_typed(self.operations@, j),
            decreases self.operations@.len() - i,
        {
            if !is_well_typed(&self.operations, i) {
                return false;
            }
            i += 1;
        }
        if self.result >= self.operations.len() {
            return false;
        }
        match self.operations[self.result] {
            Operation::Compare(_, _, _) => false,
            _ => true,
        }
    }
}

/// Operations appended to a sequence leave the ones before them well typed.
pub proof fn lemma_well_formed_extend(operations: Seq<Operation>, more: Seq<Operation>, i: int)
    requires
        0 <= i < operations.len(),
        well_typed(operations, i),
    ensures
        well_typed(operations + more, i),
{
    let all = operations + more;
    assert(all[i] == operations[i]);
    assert(forall|a: int| 0 <= a < i ==> all[a] == operations[a]);
}

/// One operation appended to a well-formed sequence gives a well-formed
/// sequence, if the operation is well typed where it then stands.
pub proof fn lemma_well_formed_push(operations: Seq<Operation>, last: Operation)
    requires
        well_formed(operations),
        well_typed(operations.push(last), operations.len() as int),
    ensures
        well_formed(operations.push(last)),
{
    let all = operations.push(last);
    assert forall|i: int| 0 <= i < all.len() implies well_typed(all, i) by {
        if i < operations.len() {
            lemma_well_formed_extend(operations, seq![last], i);
            assert(operations + seq![last] =~= all);
        }
    }
}

/// Whether `x` is a signed 32-bit number.
pub open spec fn is_i32(x: int) -> bool {
    -0x8000_0000 <= x < 0x8000_0000
}

/// The signed 32-bit number that the low 32 bits of `x` write.
pub open spec fn wrap32(x: int) -> int {
    let low = x % 0x1_0000_0000;
    if low >= 0x8000_0000 {
        low - 0x1_0000_0000
    } else {
        low
    }
}

/// Whether the signed comparison of `x` with `y` holds.
pub open spec fn holds(predicate: Predicate, x: int, y: int) -> bool {
    match predicate {
        Predicate::Eq => x == y,
        Predicate::Ne => x != y,
        Predicate::Slt => x < y,
        Predicate::Sle => x <= y,
    }
}

/// The value that an operation defines, from the values defined before it.
/// Sums, differences and products wrap around. A division has no defined
/// value where the divisor is zero or the quotient does not fit in 32 bits.
pub open spec fn value_of(operation: Operation, values: Seq<int>) -> Option<int> {
    match operation {
        Operation::Const(v) => Some(v as int),
        Operation::Neg(a) => Some(wrap32(-values[a as int])),
        Operation::Add(a, b) => Some(wrap32(values[a as int] + values[b as int])),
        Operation::Sub(a, b) => Some(wrap32(values[a as int] - values[b as int])),
        Operation::Mul(a, b) => Some(wrap32(values[a as int] * values[b as int])),
        Operation::SDiv(a, b) => if values[b as int] != 0 && is_i32(
            quotient(values[a as int], values[b as int]),
        ) {
            Some(quotient(values[a as int], values[b as int]))
        } else {
            None
        },
        Operation::Compare(predicate, a, b) => Some(
            truth(holds(predicate, values[a as int], values[b as int])),
        ),
        Operation::ZExt(a) => Some(values[a as int]),
    }
}

/// The values that the operations of a sequence define, in their order, or
/// `None` where one of them has no defined value.
pub open spec fn values_of(operations: Seq<Operation>) -> Option<Seq<int>>
    decreases operations.len(),
{
    if operations.len() == 0 {
        Some(Seq::empty())
    } else {
        match values_of(operations.drop_last()) {
            Some(values) => match value_of(operations.last(), values) {
                Some(v) => Some(values.push(v)),
                None => None,
            },
            None => None,
        }
    }
}

impl IrBlock {
    /// The value that the block returns, or `None` where one of its
    /// operations has no defined value.
    pub open spec fn returned(&self) -> Option<int> {
        match values_of(self.operations@) {
            Some(values) => Some(values[self.result as int]),
            None => None,
        }
    }
}

/// A signed 32-bit number is what its low 32 bits write.
pub proof fn lemma_wrap32(x: int)
    requires
        is_i32(x),
    ensures
        wrap32(x) == x,
{
}

/// The values of a sequence extended by one operation.
pub proof fn lemma_values_push(operations: Seq<Operation>, last: Operation)
    ensures
        values_of(operations.push(last)) == match values_of(operations) {
            Some(values) => match value_of(last, values) {
                Some(v) => Some(values.push(v)),
                None => None,
            },
            None => None,
        },
{
    assert(operations.push(last).drop_last() =~= operations);
}

/// There is one value for each operation.
pub proof fn lemma_values_len(operations: Seq<Operation>)
    ensures
        values_of(operations) matches Some(values) ==> values.len() == operations.len(),
    decreases operations.len(),
{
    if operations.len() > 0 {
        lemma_values_len(operations.drop_last());
    }
}

} // verus!
