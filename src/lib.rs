//! A stack-based bytecode virtual machine over sized integers, with the
//! instruction model it executes, its typed stack memory, and a small
//! tree-walking evaluator over an expression syntax tree.

pub mod instructions;
pub mod cells;
pub mod arith;
pub mod runtime;
pub mod laws;
pub mod types;
pub mod ast;
pub mod interpret;
