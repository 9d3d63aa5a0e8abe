//! A small expression language: syntax tree, type checker and evaluator.

pub mod ast;
pub mod eval;
pub mod grammar;
pub mod program;
pub mod scoping;
pub mod soundness;
pub mod syntax;
pub mod typechecker;
