use exprlang::ast::{Range, TypeAst};
use exprlang::grammar;
use exprlang::typechecker::{Type, TypeChecker};
use std::rc::Rc;

fn check(code: &str) -> Result<Type, ()> {
    TypeChecker::new().typecheck(&grammar::expr(code).unwrap())
}

fn arrow(from: Type, to: Type) -> Type {
    Type::Function(Rc::new((from, to)))
}

#[test]
fn literals_have_their_types() {
    assert_eq!(check("1"), Ok(Type::Int));
    assert_eq!(check("true"), Ok(Type::Bool));
    assert_eq!(check("(false)"), Ok(Type::Bool));
}

#[test]
fn let_expression_has_the_type_of_its_body() {
    assert_eq!(check("let x = 1 + 2 in x = 3"), Ok(Type::Bool));
    assert_eq!(check("let x = true in 5"), Ok(Type::Int));
}

#[test]
fn unbound_variable_has_no_type() {
    assert_eq!(check("x"), Err(()));
    assert_eq!(check("let x = x in 1"), Err(()));
    assert_eq!(check("(let x = 1 in x) + x"), Err(()));
}

#[test]
fn operators_want_matching_operands() {
    assert_eq!(check("1 + 2"), Ok(Type::Int));
    assert_eq!(check("1 + true"), Err(()));
    assert_eq!(check("true + true"), Err(()));
    assert_eq!(check("true and false"), Ok(Type::Bool));
    assert_eq!(check("1 and true"), Err(()));
    assert_eq!(check("1 = 1"), Ok(Type::Bool));
    assert_eq!(check("true = false"), Ok(Type::Bool));
    assert_eq!(check("1 = true"), Err(()));
    assert_eq!(check("(x: int -> x) = (x: int -> x)"), Err(()));
}

#[test]
fn function_has_a_function_type() {
    assert_eq!(check("x: int -> x + 1"), Ok(arrow(Type::Int, Type::Int)));
    assert_eq!(check("x: bool -> 1"), Ok(arrow(Type::Bool, Type::Int)));
    assert_eq!(
        check("x: int -> y: bool -> y"),
        Ok(arrow(Type::Int, arrow(Type::Bool, Type::Bool)))
    );
    assert_eq!(
        check("f: (int -> bool) -> f < 1"),
        Ok(arrow(arrow(Type::Int, Type::Bool), Type::Bool))
    );
    assert_eq!(check("x: int -> x and true"), Err(()));
}

#[test]
fn application_has_the_result_type() {
    assert_eq!(check("(x: int -> x + 2) < 3"), Ok(Type::Int));
    assert_eq!(check("3 > (x: int -> x = 2)"), Ok(Type::Bool));
    assert_eq!(check("(x: int -> (y: int -> x + y)) < 3 < 4"), Ok(Type::Int));
    assert_eq!(check("let f = x: int -> y: int -> x + y + 2 in 3 > f < 2"), Ok(Type::Int));
}

#[test]
fn application_wants_a_function_and_a_fitting_argument() {
    assert_eq!(check("1 < 2"), Err(()));
    assert_eq!(check("(x: int -> x) < true"), Err(()));
    assert_eq!(check("(x: bool -> x) < 1"), Err(()));
}

#[test]
fn equal_function_types_fit_at_an_application() {
    let code = "(f: (int -> int) -> f < 1) < (x: int -> x + 1)";
    assert_eq!(check(code), Ok(Type::Int));
    let nested = "(f: ((int -> int) -> bool) -> 1) < (g: (int -> int) -> true)";
    assert_eq!(check(nested), Ok(Type::Int));
}

#[test]
fn different_function_types_do_not_fit() {
    assert_eq!(check("(f: (int -> int) -> f < 1) < (x: bool -> 1)"), Err(()));
    assert_eq!(check("(f: (int -> int) -> f < 1) < (x: int -> true)"), Err(()));
    assert_eq!(check("(f: (int -> int) -> f < 1) < 1"), Err(()));
}

#[test]
fn subset_is_equality() {
    assert!(Type::Int.subset(&Type::Int));
    assert!(Type::Bool.subset(&Type::Bool));
    assert!(!Type::Int.subset(&Type::Bool));
    assert!(!Type::Bool.subset(&Type::Int));
    let a = arrow(Type::Int, arrow(Type::Bool, Type::Int));
    let b = arrow(Type::Int, arrow(Type::Bool, Type::Int));
    assert!(a.subset(&b));
    assert!(b.subset(&a));
    assert!(!a.subset(&arrow(Type::Int, arrow(Type::Int, Type::Int))));
    assert!(!a.subset(&arrow(Type::Bool, arrow(Type::Bool, Type::Int))));
    assert!(!a.subset(&Type::Int));
    assert!(!Type::Int.subset(&a));
}

#[test]
fn cloned_type_is_equal() {
    let a = arrow(arrow(Type::Int, Type::Bool), Type::Int);
    assert_eq!(a.clone(), a);
    assert_eq!(Type::Int.clone(), Type::Int);
}

#[test]
fn annotation_denotes_a_type() {
    let checker = TypeChecker::new();
    let r = || Range(0, 0);
    assert_eq!(checker.eval(&TypeAst::Int(r())), Ok(Type::Int));
    assert_eq!(checker.eval(&TypeAst::Bool(r())), Ok(Type::Bool));
    assert_eq!(
        checker.eval(&TypeAst::Paren(Box::new(TypeAst::Bool(r())), r())),
        Ok(Type::Bool)
    );
    let annotation = grammar::type_expr("(int -> bool) -> (int)").unwrap();
    assert_eq!(
        checker.eval(&annotation),
        Ok(arrow(arrow(Type::Int, Type::Bool), Type::Int))
    );
}

#[test]
fn checker_scope_is_nested_not_changed() {
    let checker = TypeChecker::new();
    assert_eq!(checker.get_var("x"), None);
    let seen = checker.var("x".to_string(), Type::Int, |inner| {
        let deeper = inner.var("x".to_string(), Type::Bool, |deeper| deeper.get_var("x"));
        (deeper, inner.get_var("x"), inner.get_var("y"))
    });
    assert_eq!(seen, (Some(Type::Bool), Some(Type::Int), None));
    assert_eq!(checker.get_var("x"), None);
    let typed = checker.var("x".to_string(), Type::Int, |inner| {
        inner.typecheck(&grammar::expr("x + 1").unwrap())
    });
    assert_eq!(typed, Ok(Type::Int));
}

#[test]
fn failed_check_leaves_no_binding() {
    let checker = TypeChecker::new();
    assert_eq!(checker.typecheck(&grammar::expr("let x = 1 in x and x").unwrap()), Err(()));
    assert_eq!(checker.get_var("x"), None);
}
