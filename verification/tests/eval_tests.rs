use exprlang::ast::{Ast, Range};
use exprlang::eval::{Evaluator, RuntimeError, Value};
use exprlang::grammar;

fn run(code: &str) -> Result<Value, RuntimeError> {
    Evaluator::new().eval(&grammar::expr(code).unwrap())
}

#[test]
fn let_expr() {
    let ev = Evaluator::new();
    let res = ev.eval(&grammar::expr("let x = 1 + 2 in x = 3").unwrap()).unwrap();
    assert!(matches!(res, Value::Bool(true)));

    let ev = Evaluator::new();
    let res = ev.eval(&grammar::expr("let x = 5 + 2 in x = 3").unwrap()).unwrap();
    assert!(matches!(res, Value::Bool(false)));
}

#[test]
fn function_expression() {
    let ev = Evaluator::new();
    let code = "(x: int -> x + 2)";
    let res = ev.eval(&grammar::expr(code).unwrap()).unwrap();
    assert!(matches!(res, Value::Function { .. }));
}

#[test]
fn application() {
    let ev = Evaluator::new();
    let code = "(x: int -> x + 2) < 3";
    let res = ev.eval(&grammar::expr(code).unwrap()).unwrap();
    assert!(matches!(res, Value::I32(5)));
}

#[test]
fn closures() {
    let ev = Evaluator::new();
    let code = "(x: int -> (y: int -> x + y)) < 3 < 4";
    let res = ev.eval(&grammar::expr(code).unwrap()).unwrap();
    assert!(matches!(res, Value::I32(7)));
}

#[test]
fn literals_evaluate_to_themselves() {
    assert!(matches!(run("42"), Ok(Value::I32(42))));
    assert!(matches!(run("-7"), Ok(Value::I32(-7))));
    assert!(matches!(run("true"), Ok(Value::Bool(true))));
    assert!(matches!(run("false"), Ok(Value::Bool(false))));
    assert!(matches!(run("((3))"), Ok(Value::I32(3))));
}

#[test]
fn unbound_variable_is_an_error() {
    assert_eq!(run("x").err(), Some(RuntimeError()));
    assert_eq!(run("1 + x").err(), Some(RuntimeError()));
}

#[test]
fn primitive_operations_on_matching_operands() {
    assert!(matches!(run("1 + 2"), Ok(Value::I32(3))));
    assert!(matches!(run("true and false"), Ok(Value::Bool(false))));
    assert!(matches!(run("true and true"), Ok(Value::Bool(true))));
    assert!(matches!(run("2 = 2"), Ok(Value::Bool(true))));
    assert!(matches!(run("2 = 3"), Ok(Value::Bool(false))));
    assert!(matches!(run("true = true"), Ok(Value::Bool(true))));
    assert!(matches!(run("true = false"), Ok(Value::Bool(false))));
}

#[test]
fn primitive_operations_reject_mismatched_operands() {
    assert_eq!(run("1 + true").err(), Some(RuntimeError()));
    assert_eq!(run("true + 1").err(), Some(RuntimeError()));
    assert_eq!(run("1 and true").err(), Some(RuntimeError()));
    assert_eq!(run("1 = true").err(), Some(RuntimeError()));
    assert_eq!(run("(x: int -> x) = (x: int -> x)").err(), Some(RuntimeError()));
}

#[test]
fn addition_wraps_around() {
    assert!(matches!(run("2147483647 + 1"), Ok(Value::I32(i32::MIN))));
    assert!(matches!(run("-2147483647 + -2"), Ok(Value::I32(i32::MAX))));
    let sum = Value::I32(i32::MAX).add(&Value::I32(i32::MAX)).unwrap();
    assert!(matches!(sum, Value::I32(-2)));
}

#[test]
fn value_operations() {
    assert!(matches!(Value::Bool(true).and(&Value::Bool(true)), Ok(Value::Bool(true))));
    assert!(matches!(Value::Bool(true).and(&Value::Bool(false)), Ok(Value::Bool(false))));
    assert_eq!(Value::I32(1).and(&Value::Bool(true)).err(), Some(RuntimeError()));
    assert_eq!(Value::I32(3).eq(&Value::I32(3)), Ok(true));
    assert_eq!(Value::I32(3).eq(&Value::I32(4)), Ok(false));
    assert_eq!(Value::Bool(false).eq(&Value::Bool(false)), Ok(true));
    assert_eq!(Value::Bool(false).eq(&Value::I32(0)), Err(RuntimeError()));
    assert!(matches!(Value::I32(20).add(&Value::I32(22)), Ok(Value::I32(42))));
    assert_eq!(Value::Bool(true).add(&Value::I32(1)).err(), Some(RuntimeError()));
}

#[test]
fn applying_a_non_function_is_an_error() {
    assert_eq!(run("1 < 2").err(), Some(RuntimeError()));
    assert_eq!(run("2 > true").err(), Some(RuntimeError()));
}

#[test]
fn both_application_forms_apply_the_function() {
    assert!(matches!(run("(x: int -> x + 1) < 2"), Ok(Value::I32(3))));
    assert!(matches!(run("2 > (x: int -> x + 1)"), Ok(Value::I32(3))));
    let code = "let f = x: int -> y: int -> x + y + 2 in 3 > f < 2";
    assert!(matches!(run(code), Ok(Value::I32(7))));
}

#[test]
fn let_binding_does_not_leak() {
    let ev = Evaluator::new();
    let bound = ev.eval(&grammar::expr("let x = 1 in x + 1").unwrap());
    assert!(matches!(bound, Ok(Value::I32(2))));
    let after = ev.eval(&Ast::Var("x".to_string(), Range(0, 1)));
    assert_eq!(after.err(), Some(RuntimeError()));
    assert!(ev.get_var("x").is_none());
    assert_eq!(run("(let x = 1 in x) + x").err(), Some(RuntimeError()));
}

#[test]
fn let_binding_does_not_leak_after_a_failure() {
    let ev = Evaluator::new();
    let failed = ev.eval(&grammar::expr("let x = 1 in x + true").unwrap());
    assert_eq!(failed.err(), Some(RuntimeError()));
    assert!(ev.get_var("x").is_none());
}

#[test]
fn inner_binding_shadows_and_outer_is_restored() {
    assert!(matches!(run("let x = 1 in (let x = 2 in x) + x"), Ok(Value::I32(3))));
    assert!(matches!(run("let x = 1 in (x: int -> x + 10) < 5 + x"), Ok(Value::I32(16))));
}

#[test]
fn bound_name_is_not_visible_in_its_own_definition() {
    assert_eq!(run("let x = x in x").err(), Some(RuntimeError()));
    assert!(matches!(run("let x = 1 in let x = x + 1 in x"), Ok(Value::I32(2))));
}

#[test]
fn capture_happens_when_the_function_is_made() {
    let code = "let f = (x: int -> x + y) in let y = 1 in f < 5";
    assert_eq!(run(code).err(), Some(RuntimeError()));
}

#[test]
fn captured_value_is_a_snapshot() {
    let code = "let y = 1 in let f = (x: int -> x + y) in let y = 100 in f < 5";
    assert!(matches!(run(code), Ok(Value::I32(6))));
}

#[test]
fn function_value_holds_its_free_variables() {
    let code = "let a = 1 in let b = true in (x: int -> x + a)";
    match run(code).unwrap() {
        Value::Function { input_var, ret, captured } => {
            assert_eq!(input_var, "x");
            assert!(matches!(ret, Ast::Add(_, _)));
            assert_eq!(captured.len(), 1);
            assert_eq!(captured[0].0, "a");
            assert!(matches!(captured[0].1, Value::I32(1)));
        }
        other => panic!("not a function: {:?}", other),
    }
}

#[test]
fn function_with_a_free_variable_is_rejected_at_top_level() {
    assert_eq!(run("(x: int -> x + y)").err(), Some(RuntimeError()));
    assert_eq!(run("x: int -> y: int -> z").err(), Some(RuntimeError()));
    let closed = grammar::expr("x: int -> y: int -> x + y").unwrap();
    assert!(closed.free_variables().is_empty());
    assert!(matches!(Evaluator::new().eval(&closed), Ok(Value::Function { .. })));
}

#[test]
fn parameter_shadows_a_captured_name() {
    let code = "let x = 1 in (x: int -> x + 1) < 10";
    assert!(matches!(run(code), Ok(Value::I32(11))));
}

#[test]
fn ill_typed_function_body_fails_only_when_called() {
    assert!(matches!(run("(x: int -> x + true)"), Ok(Value::Function { .. })));
    assert_eq!(run("(x: int -> x + true) < 1").err(), Some(RuntimeError()));
}

#[test]
fn get_var_on_an_empty_evaluator() {
    assert!(Evaluator::new().get_var("x").is_none());
}

#[test]
fn var_binds_for_the_closure_only() {
    let ev = Evaluator::new();
    let seen = ev.var("x".to_string(), Value::I32(9), |inner| inner.get_var("x"));
    assert!(matches!(seen, Some(Value::I32(9))));
    assert!(ev.get_var("x").is_none());
    let sum = ev.var("x".to_string(), Value::I32(9), |inner| {
        inner.eval(&grammar::expr("x + 1").unwrap())
    });
    assert!(matches!(sum, Ok(Value::I32(10))));
}

#[test]
fn var_shadows_and_later_binding_wins() {
    let ev = Evaluator::new();
    let seen = ev.var("x".to_string(), Value::I32(1), |outer| {
        let inner = outer.var("x".to_string(), Value::I32(2), |inner| inner.get_var("x"));
        (inner, outer.get_var("x"))
    });
    assert!(matches!(seen.0, Some(Value::I32(2))));
    assert!(matches!(seen.1, Some(Value::I32(1))));
}

#[test]
fn var_many_binds_in_order() {
    let ev = Evaluator::new();
    let vars = vec![
        ("a".to_string(), Value::I32(1)),
        ("b".to_string(), Value::Bool(true)),
        ("a".to_string(), Value::I32(3)),
    ];
    let seen = ev.var_many(vars, |inner| {
        (inner.get_var("a"), inner.get_var("b"), inner.get_var("c"))
    });
    assert!(matches!(seen.0, Some(Value::I32(3))));
    assert!(matches!(seen.1, Some(Value::Bool(true))));
    assert!(seen.2.is_none());
    assert!(ev.get_var("a").is_none());
}

#[test]
fn cloned_value_is_the_same_value() {
    let made = run("let a = 4 in (x: int -> x + a)").unwrap();
    let copy = made.clone();
    let ev = Evaluator::new();
    let result = ev.var("f".to_string(), copy, |inner| {
        inner.eval(&grammar::expr("f < 1").unwrap())
    });
    assert!(matches!(result, Ok(Value::I32(5))));
}

#[test]
fn function_value_gives_the_same_from_any_scope() {
    let made = run("let k = 10 in (x: int -> x + k)").unwrap();
    let call = grammar::expr("f < 1").unwrap();
    let plain = Evaluator::new().var("f".to_string(), made.clone(), |inner| inner.eval(&call));
    let shadowed = Evaluator::new().var("k".to_string(), Value::I32(999), |outer| {
        outer.var("f".to_string(), made.clone(), |inner| inner.eval(&call))
    });
    assert!(matches!(plain, Ok(Value::I32(11))));
    assert!(matches!(shadowed, Ok(Value::I32(11))));
}

#[test]
fn function_value_with_an_uncaptured_name_sees_the_caller() {
    let body = grammar::expr("x + k").unwrap();
    let open = Value::Function { input_var: "x".to_string(), ret: body, captured: vec![] };
    let call = grammar::expr("f < 1").unwrap();
    let ev = Evaluator::new();
    let unbound = ev.var("f".to_string(), open.clone(), |inner| inner.eval(&call));
    assert_eq!(unbound.err(), Some(RuntimeError()));
    let bound = ev.var("k".to_string(), Value::I32(5), |outer| {
        outer.var("f".to_string(), open.clone(), |inner| inner.eval(&call))
    });
    assert!(matches!(bound, Ok(Value::I32(6))));
}
