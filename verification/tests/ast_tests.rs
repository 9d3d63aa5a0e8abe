use exprlang::ast::{Ast, Range, TypeAst};
use exprlang::grammar;

fn names(ast: &Ast) -> Vec<String> {
    let mut found: Vec<String> = ast.free_variables().into_iter().cloned().collect();
    found.sort();
    found
}

#[test]
fn literals_and_variables_have_no_children() {
    assert!(grammar::expr("1").unwrap().direct_children().is_empty());
    assert!(grammar::expr("true").unwrap().direct_children().is_empty());
    assert!(grammar::expr("x").unwrap().direct_children().is_empty());
}

#[test]
fn children_in_order() {
    let paren = grammar::expr("(x)").unwrap();
    assert_eq!(paren.direct_children(), vec![&Ast::Var("x".to_string(), Range(1, 2))]);

    let func = grammar::expr("x: int -> 7").unwrap();
    assert_eq!(func.direct_children(), vec![&Ast::IntLiteral(7, Range(10, 11))]);

    let bind = grammar::expr("let x = 1 in 2").unwrap();
    assert_eq!(
        bind.direct_children(),
        vec![&Ast::IntLiteral(1, Range(8, 9)), &Ast::IntLiteral(2, Range(13, 14))]
    );

    for code in ["1 + 2", "1 = 2", "1 and 2", "1 < 2", "1 > 2"] {
        let ast = grammar::expr(code).unwrap();
        let children = ast.direct_children();
        assert_eq!(children.len(), 2);
        assert!(matches!(children[0], Ast::IntLiteral(1, _)));
        assert!(matches!(children[1], Ast::IntLiteral(2, _)));
    }
}

#[test]
fn all_children_is_pre_order() {
    let ast = grammar::expr("let x = 1 + 2 in (x) = 3").unwrap();
    let nodes = ast.all_children();
    assert_eq!(nodes.len(), 8);
    assert!(std::ptr::eq(nodes[0], &ast));
    assert!(matches!(nodes[0], Ast::Let { .. }));
    assert!(matches!(nodes[1], Ast::Add(_, _)));
    assert!(matches!(nodes[2], Ast::IntLiteral(1, _)));
    assert!(matches!(nodes[3], Ast::IntLiteral(2, _)));
    assert!(matches!(nodes[4], Ast::Eq(_, _)));
    assert!(matches!(nodes[5], Ast::Paren(_, _)));
    assert!(matches!(nodes[6], Ast::Var(_, _)));
    assert!(matches!(nodes[7], Ast::IntLiteral(3, _)));
    assert_eq!(ast.all_children(), nodes);
}

#[test]
fn all_children_of_a_leaf_is_the_leaf() {
    let leaf = Ast::BoolLiteral(true, Range(0, 4));
    assert_eq!(leaf.all_children(), vec![&leaf]);
}

#[test]
fn free_variables_of_variables_and_operators() {
    assert_eq!(names(&grammar::expr("x").unwrap()), vec!["x"]);
    assert!(names(&grammar::expr("1 + true").unwrap()).is_empty());
    assert_eq!(names(&grammar::expr("x + y = x and z").unwrap()), vec!["x", "y", "z"]);
    assert_eq!(names(&grammar::expr("f < (x > g)").unwrap()), vec!["f", "g", "x"]);
}

#[test]
fn free_variables_occur_once() {
    let ast = grammar::expr("x + x + x").unwrap();
    assert_eq!(ast.free_variables().len(), 1);
}

#[test]
fn let_binds_in_its_body_only() {
    assert!(names(&grammar::expr("let x = 1 in x").unwrap()).is_empty());
    assert_eq!(names(&grammar::expr("let x = x in x").unwrap()), vec!["x"]);
    assert_eq!(names(&grammar::expr("let x = y in x + z").unwrap()), vec!["y", "z"]);
    assert_eq!(names(&grammar::expr("(let x = 1 in x) + x").unwrap()), vec!["x"]);
}

#[test]
fn function_binds_its_parameter() {
    assert!(names(&grammar::expr("x: int -> x").unwrap()).is_empty());
    assert_eq!(names(&grammar::expr("x: int -> x + y").unwrap()), vec!["y"]);
    assert_eq!(names(&grammar::expr("x: int -> y: int -> x + y + z").unwrap()), vec!["z"]);
    assert_eq!(names(&grammar::expr("(x: int -> x) < x").unwrap()), vec!["x"]);
}

#[test]
fn clones_are_equal() {
    let ast = grammar::expr("let f = x: (int -> bool) -> x < 1 in f and (2 = 3)").unwrap();
    assert_eq!(ast.clone(), ast);
    let annotation = TypeAst::Function(
        Box::new(TypeAst::Paren(Box::new(TypeAst::Int(Range(1, 4))), Range(0, 5))),
        Box::new(TypeAst::Bool(Range(9, 13))),
    );
    assert_eq!(annotation.clone(), annotation);
    assert_eq!(Range(3, 9).clone(), Range(3, 9));
}
