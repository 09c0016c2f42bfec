//! The calls into inkwell, each behind a function whose body holds the call
//! and nothing else. None of them promises anything of what the call
//! returns: the values are handles into the state of the LLVM library.
//!
//! An operation of the builder is defined for operands of fitting widths
//! only. So a value travels with the width that the library reported of it
//! (`Built`), a type with the width that the library reported of it
//! (`Kind`), and the functions that build from operands ask for fitting
//! widths. They also expect the builder to stand at the end of a block,
//! and the returned value to be of the function's return type; their one
//! caller, `codegen_llvm::bitcode`, positions the builder first and returns
//! a value of the type that it made the function with.

use vstd::prelude::*;
use crate::ir::Predicate;
use inkwell::basic_block::BasicBlock;
use inkwell::builder::Builder;
use inkwell::context::Context;
use inkwell::memory_buffer::MemoryBuffer;
use inkwell::types::{FunctionType, IntType};
use inkwell::values::{FunctionValue, IntValue};
use inkwell::IntPredicate;

verus! {

#[verifier::external_type_specification]
#[verifier::external_body]
pub struct ExContext(inkwell::context::Context);

#[verifier::external_type_specification]
#[verifier::external_body]
pub struct ExModule<'ctx>(inkwell::module::Module<'ctx>);

#[verifier::external_type_specification]
#[verifier::external_body]
pub struct ExBuilder<'ctx>(inkwell::builder::Builder<'ctx>);

#[verifier::external_type_specification]
#[verifier::external_body]
pub struct ExIntType<'ctx>(inkwell::types::IntType<'ctx>);

#[verifier::external_type_specification]
#[verifier::external_body]
pub struct ExFunctionType<'ctx>(inkwell::types::FunctionType<'ctx>);

#[verifier::external_type_specification]
#[verifier::external_body]
pub struct ExFunctionValue<'ctx>(inkwell::values::FunctionValue<'ctx>);

#[verifier::external_type_specification]
#[verifier::external_body]
pub struct ExBasicBlock<'ctx>(inkwell::basic_block::BasicBlock<'ctx>);

#[verifier::external_type_specification]
#[verifier::external_body]
pub struct ExIntValue<'ctx>(inkwell::values::IntValue<'ctx>);

#[verifier::external_type_specification]
#[verifier::external_body]
pub struct ExMemoryBuffer(inkwell::memory_buffer::MemoryBuffer);

/// An integer type of the context, with the width in bits that the library
/// reported of it.
pub struct Kind<'ctx> {
    pub(crate) ty: IntType<'ctx>,
    pub(crate) width: u32,
}

/// A value that the builder handed out, with the width in bits that the
/// library reported of its type.
pub struct Built<'ctx> {
    pub(crate) value: IntValue<'ctx>,
    pub(crate) width: u32,
}

/// `Context::create`: a fresh context. Nothing is claimed of it.
#[verifier::external_body]
pub(crate) fn create_context() -> (context: Context) {
    Context::create()
}

/// `Context::create_module`: an empty module of the context. Nothing is
/// claimed of it.
#[verifier::external_body]
pub(crate) fn create_module<'ctx>(
    context: &'ctx Context,
    name: &str,
) -> (module: inkwell::module::Module<'ctx>) {
    context.create_module(name)
}

/// `Context::create_builder`: an instruction builder of the context. Nothing
/// is claimed of it.
#[verifier::external_body]
pub(crate) fn create_builder<'ctx>(context: &'ctx Context) -> (builder: Builder<'ctx>) {
    context.create_builder()
}

/// `Context::i32_type`: the context's 32-bit integer type. Nothing is
/// claimed of it.
#[verifier::external_body]
pub(crate) fn i32_type<'ctx>(context: &'ctx Context) -> (ty: IntType<'ctx>) {
    context.i32_type()
}

/// `IntType::fn_type`, without parameter types: the type of a function that
/// returns `ty`. Nothing is claimed of it.
#[verifier::external_body]
pub(crate) fn fn_type<'ctx>(
    ty: IntType<'ctx>,
    is_var_args: bool,
) -> (function_type: FunctionType<'ctx>) {
    ty.fn_type(&[], is_var_args)
}

/// `Module::add_function`, with the default linkage: a new function of the
/// module. Nothing is claimed of it.
#[verifier::external_body]
pub(crate) fn add_function<'ctx>(
    module: &inkwell::module::Module<'ctx>,
    name: &str,
    ty: FunctionType<'ctx>,
) -> (function: FunctionValue<'ctx>) {
    module.add_function(name, ty, None)
}

/// `Context::append_basic_block`: a new block at the end of `function`.
/// Nothing is claimed of it.
#[verifier::external_body]
pub(crate) fn append_basic_block<'ctx>(
    context: &'ctx Context,
    function: FunctionValue<'ctx>,
    name: &str,
) -> (block: BasicBlock<'ctx>) {
    context.append_basic_block(function, name)
}

/// `Builder::position_at_end`: the builder inserts at the end of `block`
/// from now on.
#[verifier::external_body]
pub(crate) fn position_at_end<'ctx>(builder: &Builder<'ctx>, block: BasicBlock<'ctx>) {
    builder.position_at_end(block)
}

/// `IntType::const_int`: a constant of the type `ty`, from the bits of
/// `value` widened to 64 bits. Nothing is claimed of it.
#[verifier::external_body]
pub(crate) fn const_int<'ctx>(
    ty: &Kind<'ctx>,
    value: i32,
    sign_extend: bool,
) -> (constant: IntValue<'ctx>) {
    ty.ty.const_int(value as u64, sign_extend)
}

/// `IntValue::get_type`: the type of a value. Nothing is claimed of it.
#[verifier::external_body]
pub(crate) fn type_of<'ctx>(value: IntValue<'ctx>) -> (ty: IntType<'ctx>) {
    value.get_type()
}

/// `IntType::get_bit_width`: the width of a type in bits. Nothing is claimed
/// of it.
#[verifier::external_body]
pub(crate) fn bit_width<'ctx>(ty: IntType<'ctx>) -> (width: u32) {
    ty.get_bit_width()
}

/// `Builder::build_int_neg`: the negation of a value. Nothing is claimed of
/// the value it returns.
#[verifier::external_body]
pub(crate) fn build_int_neg<'ctx>(
    builder: &Builder<'ctx>,
    value: &Built<'ctx>,
    name: &str,
) -> (negated: IntValue<'ctx>) {
    builder.build_int_neg(value.value, name)
}

/// `Builder::build_int_add`: the sum of two values of one type. Nothing is
/// claimed of the value it returns.
#[verifier::external_body]
pub(crate) fn build_int_add<'ctx>(
    builder: &Builder<'ctx>,
    lhs: &Built<'ctx>,
    rhs: &Built<'ctx>,
    name: &str,
) -> (sum: IntValue<'ctx>)
    requires
        lhs.width == rhs.width,
{
    builder.build_int_add(lhs.value, rhs.value, name)
}

/// `Builder::build_int_sub`: the difference of two values of one type.
/// Nothing is claimed of the value it returns.
#[verifier::external_body]
pub(crate) fn build_int_sub<'ctx>(
    builder: &Builder<'ctx>,
    lhs: &Built<'ctx>,
    rhs: &Built<'ctx>,
    name: &str,
) -> (difference: IntValue<'ctx>)
    requires
        lhs.width == rhs.width,
{
    builder.build_int_sub(lhs.value, rhs.value, name)
}

/// `Builder::build_int_mul`: the product of two values of one type. Nothing
/// is claimed of the value it returns.
#[verifier::external_body]
pub(crate) fn build_int_mul<'ctx>(
    builder: &Builder<'ctx>,
    lhs: &Built<'ctx>,
    rhs: &Built<'ctx>,
    name: &str,
) -> (product: IntValue<'ctx>)
    requires
        lhs.width == rhs.width,
{
    builder.build_int_mul(lhs.value, rhs.value, name)
}

/// `Builder::build_int_signed_div`: the signed quotient of two values of one
/// type. Nothing is claimed of the value it returns.
#[verifier::external_body]
pub(crate) fn build_int_signed_div<'ctx>(
    builder: &Builder<'ctx>,
    lhs: &Built<'ctx>,
    rhs: &Built<'ctx>,
    name: &str,
) -> (quotient: IntValue<'ctx>)
    requires
        lhs.width == rhs.width,
{
    builder.build_int_signed_div(lhs.value, rhs.value, name)
}

/// `Builder::build_int_compare`, with the signed predicate that `predicate`
/// stands for: the outcome of comparing two values of one type. Nothing is
/// claimed of the value it returns.
#[verifier::external_body]
pub(crate) fn build_int_compare<'ctx>(
    builder: &Builder<'ctx>,
    predicate: Predicate,
    lhs: &Built<'ctx>,
    rhs: &Built<'ctx>,
    name: &str,
) -> (outcome: IntValue<'ctx>)
    requires
        lhs.width == rhs.width,
{
    let op = match predicate {
        Predicate::Eq => IntPredicate::EQ,
        Predicate::Ne => IntPredicate::NE,
        Predicate::Slt => IntPredicate::SLT,
        Predicate::Sle => IntPredicate::SLE,
    };
    builder.build_int_compare(op, lhs.value, rhs.value, name)
}

/// `Builder::build_int_z_extend`: a value widened to the wider type `ty` by
/// zero extension. Nothing is claimed of the value it returns.
#[verifier::external_body]
pub(crate) fn build_int_z_extend<'ctx>(
    builder: &Builder<'ctx>,
    value: &Built<'ctx>,
    ty: &Kind<'ctx>,
    name: &str,
) -> (widened: IntValue<'ctx>)
    requires
        value.width < ty.width,
{
    builder.build_int_z_extend(value.value, ty.ty, name)
}

/// `Builder::build_return`, with a value: the instruction that ends the
/// block and returns the value.
#[verifier::external_body]
pub(crate) fn build_return<'ctx>(builder: &Builder<'ctx>, value: &Built<'ctx>) {
    builder.build_return(Some(&value.value));
}

/// `Module::write_bitcode_to_memory`: the module in bitcode form. Nothing is
/// claimed of the buffer.
#[verifier::external_body]
pub(crate) fn write_bitcode_to_memory<'ctx>(
    module: &inkwell::module::Module<'ctx>,
) -> (buffer: MemoryBuffer) {
    module.write_bitcode_to_memory()
}

/// `MemoryBuffer::as_slice`, copied into a vector. Nothing is claimed of the
/// bytes.
#[verifier::external_body]
pub(crate) fn buffer_bytes(buffer: &MemoryBuffer) -> (bytes: Vec<u8>) {
    buffer.as_slice().to_vec()
}

} // verus!
