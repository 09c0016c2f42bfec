//! The module backend: from the tree to a program module, and from the
//! module to bitcode by way of the instruction builder of LLVM.

use vstd::prelude::*;
use vstd::string::*;
use crate::eval::apply;
use crate::eval::lemma_eval_within_is_value;
use crate::ir::{
    is_i32, lemma_values_len, lemma_values_push, lemma_well_formed_push, lemma_wrap32, values_of,
    well_formed, well_typed, IrBlock, IrFunction, IrModule, Operation, Predicate,
};
use crate::llvm::{
    add_function, append_basic_block, bit_width, buffer_bytes, build_int_add, build_int_compare,
    build_int_mul, build_int_neg, build_int_signed_div, build_int_sub, build_int_z_extend,
    build_return, const_int, create_builder, create_context, create_module, fn_type, i32_type,
    position_at_end, type_of, write_bitcode_to_memory, Built, Kind,
};
use crate::parser::AstNode;
use inkwell::builder::Builder;
use inkwell::values::IntValue;

verus! {

/// The position of the value of an operand whose operations start at
/// `base`: that of the last of them.
pub open spec fn value_at(base: nat, operations: Seq<Operation>) -> usize {
    (base + operations.len() - 1) as usize
}

/// The operations that combine the values at the positions `a` and `b`
/// into the value of the node `t`. The value at `b` is the last one
/// defined before them.
///
/// A comparison is followed by the widening of its one-bit outcome, which
/// stands right after `b`.
pub open spec fn combining(t: AstNode, a: usize, b: usize) -> Seq<Operation> {
    match t {
        AstNode::Add(_, _) => seq![Operation::Add(a, b)],
        AstNode::Sub(_, _) => seq![Operation::Sub(a, b)],
        AstNode::Mul(_, _) => seq![Operation::Mul(a, b)],
        AstNode::Div(_, _) => seq![Operation::SDiv(a, b)],
        AstNode::Eq(_, _) => seq![
            Operation::Compare(Predicate::Eq, a, b),
            Operation::ZExt((b + 1) as usize),
        ],
        AstNode::Ne(_, _) => seq![
            Operation::Compare(Predicate::Ne, a, b),
            Operation::ZExt((b + 1) as usize),
        ],
        AstNode::Lt(_, _) => seq![
            Operation::Compare(Predicate::Slt, a, b),
            Operation::ZExt((b + 1) as usize),
        ],
        AstNode::Le(_, _) => seq![
            Operation::Compare(Predicate::Sle, a, b),
            Operation::ZExt((b + 1) as usize),
        ],
        _ => Seq::empty(),
    }
}

/// The operations that compute the value of `t`, when the first of them
/// stands at position `base` of its block. The last operation defines the
/// value of `t`.
///
/// The operations of the left operand come first, then those of the right
/// operand, then the ones that combine the two values.
pub open spec fn operations_of(t: AstNode, base: nat) -> Seq<Operation>
    decreases t,
{
    match t {
        AstNode::Num(v) => seq![Operation::Const(v)],
        AstNode::Neg(a) => {
            let first = operations_of(*a, base);
            first.push(Operation::Neg(value_at(base, first)))
        },
        AstNode::Add(a, b)
        | AstNode::Sub(a, b)
        | AstNode::Mul(a, b)
        | AstNode::Div(a, b)
        | AstNode::Eq(a, b)
        | AstNode::Ne(a, b)
        | AstNode::Lt(a, b)
        | AstNode::Le(a, b) => {
            let first = operations_of(*a, base);
            let second = operations_of(*b, base + first.len());
            first + second + combining(
                t,
                value_at(base, first),
                value_at(base + first.len(), second),
            )
        },
    }
}

/// The operations of the two operands `a` and `b` of a node, when the
/// first of them stands at position `base`.
pub open spec fn operations_of_both(a: AstNode, b: AstNode, base: nat) -> Seq<Operation> {
    operations_of(a, base) + operations_of(b, base + operations_of(a, base).len())
}

/// Appends the operations of both operands of a node, the left operand's
/// first, and returns the positions of their values.
fn gen_operands(a: &AstNode, b: &AstNode, operations: &mut Vec<Operation>) -> (values: (
    usize,
    usize,
))
    ensures
        final(operations)@ == old(operations)@ + operations_of_both(
            *a,
            *b,
            old(operations)@.len(),
        ),
        values.0 == value_at(old(operations)@.len(), operations_of(*a, old(operations)@.len())),
        values.1 == value_at(
            old(operations)@.len() + operations_of(*a, old(operations)@.len()).len(),
            operations_of(
                *b,
                old(operations)@.len() + operations_of(*a, old(operations)@.len()).len(),
            ),
        ),
        values.0 < values.1,
        values.1 == final(operations)@.len() - 1,
    decreases
        if a.height() >= b.height() {
            a.height()
        } else {
            b.height()
        },
        1nat,
{
    let ghost base = operations@.len();
    let lhs = gen_expr(a, operations);
    let rhs = gen_expr(b, operations);
    assert(operations@ =~= old(operations)@ + operations_of_both(*a, *b, base));
    (lhs, rhs)
}

/// Appends the operations that combine the values at `lhs` and `rhs` into
/// the value of `node`, which has two operands.
fn gen_combining(node: &AstNode, lhs: usize, rhs: usize, operations: &mut Vec<Operation>)
    requires
        *node !is Num,
        *node !is Neg,
        rhs == old(operations)@.len() - 1,
    ensures
        final(operations)@ == old(operations)@ + combining(*node, lhs, rhs),
{
    match node {
        AstNode::Add(_, _) => operations.push(Operation::Add(lhs, rhs)),
        AstNode::Sub(_, _) => operations.push(Operation::Sub(lhs, rhs)),
        AstNode::Mul(_, _) => operations.push(Operation::Mul(lhs, rhs)),
        AstNode::Div(_, _) => operations.push(Operation::SDiv(lhs, rhs)),
        AstNode::Eq(_, _) => {
            operations.push(Operation::Compare(Predicate::Eq, lhs, rhs));
            operations.push(Operation::ZExt(operations.len() - 1));
        },
        AstNode::Ne(_, _) => {
            operations.push(Operation::Compare(Predicate::Ne, lhs, rhs));
            operations.push(Operation::ZExt(operations.len() - 1));
        },
        AstNode::Lt(_, _) => {
            operations.push(Operation::Compare(Predicate::Slt, lhs, rhs));
            operations.push(Operation::ZExt(operations.len() - 1));
        },
        AstNode::Le(_, _) => {
            operations.push(Operation::Compare(Predicate::Sle, lhs, rhs));
            operations.push(Operation::ZExt(operations.len() - 1));
        },
        _ => {},
    }
    assert(operations@ =~= old(operations)@ + combining(*node, lhs, rhs));
}

/// Appends to `operations` those that compute the value of `node`, and
/// returns the position of the operation that defines that value.
///
/// Each operand of an appended operation is the position of an operation
/// that stands before it: the values are referred to directly, and none is
/// kept in a register or on a stack.
pub fn gen_expr(node: &AstNode, operations: &mut Vec<Operation>) -> (result: usize)
    ensures
        final(operations)@ == old(operations)@ + operations_of(*node, old(operations)@.len()),
        result == final(operations)@.len() - 1,
        result == value_at(old(operations)@.len(), operations_of(*node, old(operations)@.len())),
        final(operations)@.len() <= usize::MAX,
    decreases node.height(), 0nat,
{
    let ghost base = operations@.len();
    match node {
        AstNode::Num(v) => {
            operations.push(Operation::Const(*v));
        },
        AstNode::Neg(a) => {
            let value = gen_expr(a, operations);
            operations.push(Operation::Neg(value));
        },
        AstNode::Add(a, b)
        | AstNode::Sub(a, b)
        | AstNode::Mul(a, b)
        | AstNode::Div(a, b)
        | AstNode::Eq(a, b)
        | AstNode::Ne(a, b)
        | AstNode::Lt(a, b)
        | AstNode::Le(a, b) => {
            let (lhs, rhs) = gen_operands(a, b, operations);
            gen_combining(node, lhs, rhs, operations);
        },
    }
    assert(operations@ =~= old(operations)@ + operations_of(*node, base));
    operations.len() - 1
}

/// The operations that combine two 32-bit values, of which the second is
/// the last one defined, leave a well-formed sequence well formed, and the
/// value that they define is 32 bits wide.
proof fn lemma_combining_well_formed(t: AstNode, operations: Seq<Operation>, a: usize, b: usize)
    requires
        t !is Num,
        t !is Neg,
        well_formed(operations),
        a < b,
        b == operations.len() - 1,
        b + 2 <= usize::MAX,
        !operations[a as int].is_bit(),
        !operations[b as int].is_bit(),
    ensures
        well_formed(operations + combining(t, a, b)),
        !(operations + combining(t, a, b)).last().is_bit(),
{
    let first = combining(t, a, b)[0];
    lemma_well_formed_push(operations, first);
    if t is Eq || t is Ne || t is Lt || t is Le {
        let widening = Operation::ZExt((b + 1) as usize);
        lemma_well_formed_push(operations.push(first), widening);
        assert(operations.push(first).push(widening) =~= operations + combining(t, a, b));
    } else {
        assert(operations.push(first) =~= operations + combining(t, a, b));
    }
}

/// The operations of a tree, appended to a well-formed sequence, give a
/// well-formed sequence whose last value is 32 bits wide: every operand
/// refers to a value that was defined before its use, so the values depend
/// on one another without a cycle.
pub proof fn lemma_operations_well_formed(t: AstNode, before: Seq<Operation>)
    requires
        well_formed(before),
        before.len() + operations_of(t, before.len()).len() <= usize::MAX,
    ensures
        well_formed(before + operations_of(t, before.len())),
        operations_of(t, before.len()).len() >= 1,
        !operations_of(t, before.len()).last().is_bit(),
    decreases t,
{
    let base = before.len();
    match t {
        AstNode::Num(v) => {
            lemma_well_formed_push(before, Operation::Const(v));
            assert(before.push(Operation::Const(v)) =~= before + operations_of(t, base));
        },
        AstNode::Neg(a) => {
            let first = operations_of(*a, base);
            lemma_operations_well_formed(*a, before);
            let last = Operation::Neg(value_at(base, first));
            assert((before + first)[value_at(base, first) as int] == first.last());
            lemma_well_formed_push(before + first, last);
            assert((before + first).push(last) =~= before + operations_of(t, base));
        },
        AstNode::Add(a, b)
        | AstNode::Sub(a, b)
        | AstNode::Mul(a, b)
        | AstNode::Div(a, b)
        | AstNode::Eq(a, b)
        | AstNode::Ne(a, b)
        | AstNode::Lt(a, b)
        | AstNode::Le(a, b) => {
            let first = operations_of(*a, base);
            let second = operations_of(*b, base + first.len());
            lemma_operations_well_formed(*a, before);
            assert((before + first).len() == base + first.len());
            lemma_operations_well_formed(*b, before + first);
            let both = before + first + second;
            let lhs = value_at(base, first);
            let rhs = value_at(base + first.len(), second);
            assert(both[lhs as int] == first.last());
            assert(both[rhs as int] == second.last());
            lemma_combining_well_formed(t, both, lhs, rhs);
            assert(both + combining(t, lhs, rhs) =~= before + operations_of(t, base));
        },
    }
}

/// The operations that combine two 32-bit values, of which the second is
/// the last one defined, define the value of their node, where that is a
/// 32-bit value, and leave the values before them as they were.
proof fn lemma_combining_computes(t: AstNode, operations: Seq<Operation>, a: usize, b: usize)
    requires
        t !is Num,
        t !is Neg,
        values_of(operations) is Some,
        a < b,
        b == operations.len() - 1,
        b + 2 <= usize::MAX,
        apply(t, values_of(operations)->0[a as int], values_of(operations)->0[b as int])
            matches Some(v) && is_i32(v),
    ensures
        values_of(operations + combining(t, a, b)) matches Some(all) && Some(all.last()) == apply(
            t,
            values_of(operations)->0[a as int],
            values_of(operations)->0[b as int],
        ) && all.len() == operations.len() + combining(t, a, b).len() && all.take(
            operations.len() as int,
        ) == values_of(operations)->0,
{
    let values = values_of(operations)->0;
    let v = apply(t, values[a as int], values[b as int])->0;
    lemma_values_len(operations);
    lemma_wrap32(v);
    let first = combining(t, a, b)[0];
    lemma_values_push(operations, first);
    if t is Eq || t is Ne || t is Lt || t is Le {
        let widening = Operation::ZExt((b + 1) as usize);
        lemma_values_push(operations.push(first), widening);
        assert(operations.push(first).push(widening) =~= operations + combining(t, a, b));
        assert(values.push(v).push(v).take(operations.len() as int) =~= values);
    } else {
        assert(operations.push(first) =~= operations + combining(t, a, b));
        assert(values.push(v).take(operations.len() as int) =~= values);
    }
}

/// The operations of a tree define the value of the tree.
///
/// Appended to operations that all have defined values, the operations of
/// an expression that has a value in signed 32-bit arithmetic without
/// overflow all have defined values, the last of them that of the
/// expression, which is its value in the integers, and they leave the
/// values before them as they were.
pub proof fn lemma_operations_compute(t: AstNode, before: Seq<Operation>)
    requires
        values_of(before) is Some,
        t.eval() is Some,
        before.len() + operations_of(t, before.len()).len() <= usize::MAX,
    ensures
        values_of(before + operations_of(t, before.len())) matches Some(all) && all.len()
            == before.len() + operations_of(t, before.len()).len() && operations_of(
            t,
            before.len(),
        ).len() >= 1 && Some(all.last()) == t.eval() && all.take(before.len() as int) == values_of(
            before,
        )->0,
        t.eval() == t.value(),
    decreases t,
{
    let base = before.len();
    let values = values_of(before)->0;
    lemma_values_len(before);
    lemma_eval_within_is_value(t, i32::MIN as int, i32::MAX as int);
    match t {
        AstNode::Num(v) => {
            lemma_values_push(before, Operation::Const(v));
            assert(before.push(Operation::Const(v)) =~= before + operations_of(t, base));
            assert(values.push(v as int).take(base as int) =~= values);
        },
        AstNode::Neg(a) => {
            let first = operations_of(*a, base);
            lemma_operations_compute(*a, before);
            let upto = values_of(before + first)->0;
            let last = Operation::Neg(value_at(base, first));
            lemma_values_push(before + first, last);
            lemma_wrap32(-upto.last());
            assert((before + first).push(last) =~= before + operations_of(t, base));
            assert(upto.push(-upto.last()).take(base as int) =~= upto.take(base as int));
        },
        AstNode::Add(a, b)
        | AstNode::Sub(a, b)
        | AstNode::Mul(a, b)
        | AstNode::Div(a, b)
        | AstNode::Eq(a, b)
        | AstNode::Ne(a, b)
        | AstNode::Lt(a, b)
        | AstNode::Le(a, b) => {
            let first = operations_of(*a, base);
            let second = operations_of(*b, base + first.len());
            lemma_operations_compute(*a, before);
            let left = values_of(before + first)->0;
            assert((before + first).len() == base + first.len());
            lemma_operations_compute(*b, before + first);
            let both = before + first + second;
            let right = values_of(both)->0;
            let lhs = value_at(base, first);
            let rhs = value_at(base + first.len(), second);
            assert(right[lhs as int] == right.take((base + first.len()) as int)[lhs as int]);
            lemma_combining_computes(t, both, lhs, rhs);
            assert(both + combining(t, lhs, rhs) =~= before + operations_of(t, base));
            let all = values_of(both + combining(t, lhs, rhs))->0;
            assert(all.take(base as int) =~= all.take(both.len() as int).take(base as int));
            assert(right.take(base as int) =~= right.take((base + first.len()) as int).take(
                base as int,
            ));
        },
    }
}

/// Lowers an expression tree to a module: one function `main` without
/// parameters, whose single block `entry` computes the tree's value and
/// returns it.
///
/// Where the expression has a value in signed 32-bit arithmetic without
/// overflow, the block returns that value, which is the value of the
/// expression in the integers.
pub fn codegen(node: &AstNode) -> (module: IrModule)
    ensures
        module.name@ == "main"@,
        module.function.name@ == "main"@,
        module.function.entry.label@ == "entry"@,
        module.function.entry.operations@ == operations_of(*node, 0),
        module.function.entry.result == operations_of(*node, 0).len() - 1,
        module.well_formed(),
        node.eval() is Some ==> module.function.entry.returned() == node.value(),
{
    let mut operations: Vec<Operation> = Vec::new();
    let result = gen_expr(node, &mut operations);
    assert(operations@ =~= operations_of(*node, 0));
    proof {
        lemma_operations_well_formed(*node, Seq::<Operation>::empty());
        assert(Seq::<Operation>::empty() + operations_of(*node, 0) =~= operations_of(*node, 0));
        if node.eval() is Some {
            lemma_operations_compute(*node, Seq::<Operation>::empty());
        }
    }
    IrModule {
        name: String::from_str("main"),
        function: IrFunction {
            name: String::from_str("main"),
            entry: IrBlock { label: String::from_str("entry"), operations, result },
        },
    }
}

/// The width in bits of the value that an operation defines: 1 for the
/// outcome of a comparison, 32 for every other value.
pub open spec fn width_of(operation: Operation) -> u32 {
    if operation.is_bit() {
        1
    } else {
        32
    }
}

/// Whether each of the values is as wide as the operation at its position
/// defines it.
spec fn widths_fit(operations: Seq<Operation>, values: Seq<Built>) -> bool {
    forall|j: int| 0 <= j < values.len() ==> (#[trigger] values[j]).width == width_of(operations[j])
}

/// The width in bits of the value that an operation defines.
fn expected_width(operation: &Operation) -> (width: u32)
    ensures
        width == width_of(*operation),
{
    match operation {
        Operation::Compare(_, _, _) => 1,
        _ => 32,
    }
}

/// The value with the width that the library reported of it, where that is
/// the width `expected`, and nothing where it is another.
fn measured<'ctx>(value: IntValue<'ctx>, width: u32, expected: u32) -> (built: Option<Built<'ctx>>)
    ensures
        built == if width == expected {
            Some((Built { value, width }))
        } else {
            None
        },
{
    if width == expected {
        Some(Built { value, width })
    } else {
        None
    }
}

/// Builds the value of one operation from the values built for the
/// operations before it. Every value is given the name `main`, which the
/// builder makes unique.
///
/// Each operand is handed to the builder with a width that fits: the
/// values before are as wide as their operations define them, and the
/// operation is well typed. What comes back is asked for its width, and is
/// handed on only where that is the width that the operation defines, so
/// that the next operation finds its operands as wide as it needs them.
/// Of the value itself nothing is stated: it is the builder's.
fn build_operation<'ctx>(
    builder: &Builder<'ctx>,
    ty: &Kind<'ctx>,
    operations: &Vec<Operation>,
    values: &Vec<Built<'ctx>>,
) -> (built: Option<Built<'ctx>>)
    requires
        values@.len() < operations@.len(),
        well_typed(operations@, values@.len() as int),
        widths_fit(operations@, values@),
        ty.width == 32,
    ensures
        built matches Some(value) ==> value.width == width_of(operations@[values@.len() as int]),
{
    let name = "main";
    let operation = &operations[values.len()];
    let value = match operation {
        Operation::Const(v) => const_int(ty, *v, false),
        Operation::Neg(a) => build_int_neg(builder, &values[*a], name),
        Operation::Add(a, b) => build_int_add(builder, &values[*a], &values[*b], name),
        Operation::Sub(a, b) => build_int_sub(builder, &values[*a], &values[*b], name),
        Operation::Mul(a, b) => build_int_mul(builder, &values[*a], &values[*b], name),
        Operation::SDiv(a, b) => build_int_signed_div(builder, &values[*a], &values[*b], name),
        Operation::Compare(predicate, a, b) => build_int_compare(
            builder,
            *predicate,
            &values[*a],
            &values[*b],
            name,
        ),
        Operation::ZExt(a) => build_int_z_extend(builder, &values[*a], ty, name),
    };
    measured(value, bit_width(type_of(value)), expected_width(operation))
}

/// Builds `module` with the instruction builder of a fresh context and
/// returns it in bitcode form.
///
/// The builder is handed the module's name, its function, which takes no
/// parameters and returns a 32-bit integer, the block and the operations in
/// their order, each with the values that its operands name, and last the
/// return of the block's result. What the builder makes of them is its own
/// affair (it computes an operation on constants on the spot), and nothing
/// is stated of the bytes.
///
/// Nothing is returned where the library reports a width other than 32 of
/// its 32-bit type, or a width of a value other than the one that the
/// value's operation defines.
pub fn bitcode(module: &IrModule) -> (bytes: Option<Vec<u8>>)
    requires
        module.well_formed(),
{
    let context = create_context();
    let target = create_module(&context, module.name.as_str());
    let word = i32_type(&context);
    let ty = Kind { ty: word, width: bit_width(word) };
    if ty.width != 32 {
        return None;
    }
    let function = add_function(&target, module.function.name.as_str(), fn_type(word, false));
    let block = append_basic_block(&context, function, module.function.entry.label.as_str());
    let builder = create_builder(&context);
    position_at_end(&builder, block);
    let operations = &module.function.entry.operations;
    let mut values: Vec<Built<'_>> = Vec::new();
    while values.len() < operations.len()
        invariant
            well_formed(operations@),
            values@.len() <= operations@.len(),
            widths_fit(operations@, values@),
            ty.width == 32,
        decreases operations@.len() - values@.len(),
    {
        match build_operation(&builder, &ty, operations, &values) {
            Some(value) => values.push(value),
            None => {
                return None;
            },
        }
    }
    build_return(&builder, &values[module.function.entry.result]);
    let buffer = write_bitcode_to_memory(&target);
    Some(buffer_bytes(&buffer))
}

} // verus!
