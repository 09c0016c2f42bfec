//! A compiler for single-line arithmetic expressions, with machine-checked
//! contracts.
//!
//! An expression is scanned into tokens (`tokenize`), parsed into a tree
//! (`parser`, against the grammar of `grammar`) and lowered either to
//! assembly text for a register machine (`codegen`, with the machine in
//! `machine`) or to a program module (`codegen_llvm`, with the module's
//! form in `ir` and the calls that build it in `llvm`). `eval` says what an
//! expression is worth, and `driver` runs the stages one after the other.

pub mod tokenize;
pub mod parser;
pub mod grammar;
pub mod eval;
pub mod codegen;
pub mod machine;
pub mod ir;
pub mod llvm;
pub mod codegen_llvm;
pub mod driver;
