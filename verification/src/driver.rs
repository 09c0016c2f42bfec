//! The stages run one after the other, and what the whole comes to.

use vstd::prelude::*;
use crate::codegen::{codegen, lower, program_text};
use crate::codegen_llvm::{lemma_operations_compute, operations_of};
use crate::ir::{values_of, Operation};
use crate::machine::{lemma_lower_computes, run, Machine};
use crate::parser::{parse, parse_tokens, AstNode, SyntaxError};
use crate::tokenize::{scan, tokenize, ScanError};

verus! {

/// Why an input is no program.
#[derive(Debug, Clone, Copy, PartialEq, Eq)]
pub enum CompileError {
    /// The input cannot be scanned into tokens.
    Scan(ScanError),
    /// The tokens are not one whole expression.
    Syntax(SyntaxError),
}

/// The expression tree of the text `s`: the tree of its tokens, or the
/// first error that scanning or, after it, parsing meets.
pub open spec fn tree_of(s: Seq<char>) -> Result<AstNode, CompileError> {
    match scan(s) {
        Ok(ts) => match parse_tokens(ts) {
            Ok(t) => Ok(t),
            Err(e) => Err(CompileError::Syntax(e)),
        },
        Err(e) => Err(CompileError::Scan(e)),
    }
}

/// Compiles the input to the assembly text of a program that computes the
/// value of the expression: scans it, parses the tokens and lowers the
/// tree.
///
/// Nothing is produced where the input does not scan or parse.
pub fn compile(input: &str) -> (result: Result<String, CompileError>)
    ensures
        match result {
            Ok(text) => tree_of(input@) matches Ok(t) && text@ == program_text(t),
            Err(e) => tree_of(input@) == Err::<AstNode, CompileError>(e),
        },
{
    let tokens = match tokenize(input) {
        Ok(tokens) => tokens,
        Err(e) => {
            return Err(CompileError::Scan(e));
        },
    };
    match parse(tokens.as_slice()) {
        Ok(node) => Ok(codegen(&node)),
        Err(e) => Err(CompileError::Syntax(e)),
    }
}

/// The code that an input compiles to computes what the input is worth.
///
/// Where the input scans and parses, and its expression has a value in
/// signed 64-bit arithmetic without overflow and without a division by
/// zero, the emitted instructions, started in any state of the machine, run
/// without a fault and leave the value of the expression in the
/// accumulator, and the stack as it was.
pub proof fn lemma_compiled_code_computes(s: Seq<char>, m: Machine)
    requires
        tree_of(s) is Ok,
        tree_of(s)->Ok_0.eval64() is Some,
    ensures
        run(m, lower(tree_of(s)->Ok_0)) matches Some(end) && Some(end.rax) == tree_of(
            s,
        )->Ok_0.value() && end.stack == m.stack,
{
    lemma_lower_computes(tree_of(s)->Ok_0, m);
}

/// The module that an input compiles to computes what the input is worth.
///
/// Where the input scans and parses, and its expression has a value in
/// signed 32-bit arithmetic without overflow and without a division by
/// zero, the operations of the module's block all have defined values, and
/// the last of them, which the block returns, is the value of the
/// expression.
pub proof fn lemma_compiled_module_computes(s: Seq<char>)
    requires
        tree_of(s) is Ok,
        tree_of(s)->Ok_0.eval() is Some,
        operations_of(tree_of(s)->Ok_0, 0).len() <= usize::MAX,
    ensures
        values_of(operations_of(tree_of(s)->Ok_0, 0)) matches Some(values) && values.len() >= 1
            && Some(values.last()) == tree_of(s)->Ok_0.value(),
{
    let t = tree_of(s)->Ok_0;
    lemma_operations_compute(t, Seq::<Operation>::empty());
    assert(Seq::<Operation>::empty() + operations_of(t, 0) =~= operations_of(t, 0));
}

} // verus!
