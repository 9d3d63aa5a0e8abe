//! Whole programs: from source text to a checked and evaluated result.

use crate::ast::Ast;
use crate::eval::{converges, outcome, Env, Evaluator, Value};
use crate::grammar::program;
use crate::soundness::{kind_matches, lemma_well_typed_program_evaluates};
use crate::syntax::{read_program, whole};
use crate::typechecker::{type_of, Type, TypeChecker, TypeEnv};
use vstd::pervasive::unreached;
use vstd::prelude::*;
use vstd::string::StringSliceAdditionalSpecFns;

verus! {

/// Why a text is no program with a value.
#[derive(Debug, PartialEq)]
pub enum Failure {
    /// The text is not of the grammar.
    Syntax,
    /// The program has no type.
    Type,
}

/// A program that was read, checked and evaluated.
#[derive(Debug)]
pub struct Checked {
    pub ast: Ast,
    pub checked_type: Type,
    pub value: Value,
}

/// The type and the value of a program, with no name in scope; `Err(())`
/// where the program has no type.
///
/// A program with a type is evaluated, and its evaluation always ends with
/// a value of the kind that the type names.
pub fn check_and_eval(ast: &Ast) -> (res: Result<(Type, Value), ()>)
    ensures
        match type_of(ast@, TypeEnv::empty()) {
            Ok(t) => res matches Ok((found, value)) && found == t && converges(ast@, Env::empty())
                && outcome(ast@, Env::empty()) == Ok::<_, crate::eval::RuntimeError>(value@)
                && kind_matches(value@, t),
            Err(_) => res is Err,
        },
{
    let checked_type = TypeChecker::new().typecheck(ast)?;
    proof {
        lemma_well_typed_program_evaluates(ast@, checked_type);
    }
    match Evaluator::new().eval(ast) {
        Ok(value) => Ok((checked_type, value)),
        Err(_) => unreached(),
    }
}

/// Reads `input` as a program, checks it and evaluates it.
pub fn run(input: &str) -> (res: Result<Checked, Failure>)
    ensures
        match whole(input.spec_bytes(), read_program(input.spec_bytes())) {
            None => res == Err::<Checked, _>(Failure::Syntax),
            Some(e) => match type_of(e, TypeEnv::empty()) {
                Err(_) => res == Err::<Checked, _>(Failure::Type),
                Ok(t) => res matches Ok(done) && done.ast@ == e && done.checked_type == t
                    && converges(e, Env::empty()) && outcome(e, Env::empty()) == Ok::<
                    _,
                    crate::eval::RuntimeError,
                >(done.value@) && kind_matches(done.value@, t),
            },
        },
{
    let ast = match program(input) {
        Ok(ast) => ast,
        Err(_) => {
            return Err(Failure::Syntax);
        },
    };
    match check_and_eval(&ast) {
        Ok((checked_type, value)) => Ok(Checked { ast, checked_type, value }),
        Err(_) => Err(Failure::Type),
    }
}

} // verus!
