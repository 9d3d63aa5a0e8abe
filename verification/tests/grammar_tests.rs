use exprlang::ast::{Ast, Range, TypeAst};
use exprlang::grammar;
use exprlang::grammar::ParseError;

fn num(i: i32, from: usize, to: usize) -> Box<Ast> {
    Box::new(Ast::IntLiteral(i, Range(from, to)))
}

fn var(name: &str, from: usize, to: usize) -> Box<Ast> {
    Box::new(Ast::Var(name.to_string(), Range(from, to)))
}

#[test]
fn int_literal_test() {
    assert_eq!(
        grammar::int_literal("123"),
        Ok(Ast::IntLiteral(123, Range(0, 3)))
    );
}

#[test]
fn complex_expression() {
    let a = grammar::expr("1 + 2 = 3 and 5 = -3 + 1 + 3 and true");
    let b = Ast::And(
        Box::new(Ast::And(
            Box::new(Ast::Eq(
                Box::new(Ast::Add(
                    Box::new(Ast::IntLiteral(1, Range(0, 1))),
                    Box::new(Ast::IntLiteral(2, Range(4, 5))),
                )),
                Box::new(Ast::IntLiteral(3, Range(8, 9))),
            )),
            Box::new(Ast::Eq(
                Box::new(Ast::IntLiteral(5, Range(14, 15))),
                Box::new(Ast::Add(
                    Box::new(Ast::Add(
                        Box::new(Ast::IntLiteral(-3, Range(18, 20))),
                        Box::new(Ast::IntLiteral(1, Range(23, 24))),
                    )),
                    Box::new(Ast::IntLiteral(3, Range(27, 28))),
                )),
            )),
        )),
        Box::new(Ast::BoolLiteral(true, Range(33, 37))),
    );
    assert_eq!(a, Ok(b));
}

#[test]
fn signs_before_a_number() {
    assert_eq!(grammar::int_literal("-5"), Ok(Ast::IntLiteral(-5, Range(0, 2))));
    assert_eq!(grammar::int_literal("+5"), Ok(Ast::IntLiteral(5, Range(0, 2))));
    assert_eq!(grammar::int_literal("--5"), Ok(Ast::IntLiteral(5, Range(0, 3))));
    assert_eq!(grammar::int_literal("-+-+-5"), Ok(Ast::IntLiteral(-5, Range(0, 6))));
    assert_eq!(grammar::int_literal("007"), Ok(Ast::IntLiteral(7, Range(0, 3))));
    assert_eq!(grammar::int_literal("-"), Err(ParseError()));
    assert_eq!(grammar::int_literal("- 5"), Err(ParseError()));
    assert_eq!(grammar::int_literal(""), Err(ParseError()));
}

#[test]
fn numbers_at_the_limits() {
    assert_eq!(grammar::int_literal("2147483647"), Ok(Ast::IntLiteral(i32::MAX, Range(0, 10))));
    assert_eq!(grammar::int_literal("2147483648"), Ok(Ast::IntLiteral(i32::MIN, Range(0, 10))));
    assert_eq!(grammar::int_literal("-2147483648"), Ok(Ast::IntLiteral(i32::MIN, Range(0, 11))));
    assert_eq!(grammar::int_literal("4294967295"), Ok(Ast::IntLiteral(-1, Range(0, 10))));
    assert_eq!(grammar::int_literal("-4294967295"), Ok(Ast::IntLiteral(1, Range(0, 11))));
    assert_eq!(grammar::int_literal("4294967296"), Err(ParseError()));
    assert_eq!(grammar::int_literal("99999999999999999999999"), Err(ParseError()));
    assert_eq!(
        grammar::int_literal("000000000000000000000012"),
        Ok(Ast::IntLiteral(12, Range(0, 24)))
    );
}

#[test]
fn bool_literals() {
    assert_eq!(grammar::bool_literal("true"), Ok(Ast::BoolLiteral(true, Range(0, 4))));
    assert_eq!(grammar::bool_literal("false"), Ok(Ast::BoolLiteral(false, Range(0, 5))));
    assert_eq!(grammar::bool_literal("True"), Err(ParseError()));
    assert_eq!(grammar::bool_literal("true "), Err(ParseError()));
}

#[test]
fn identifiers() {
    assert_eq!(grammar::atom("abc"), Ok(*var("abc", 0, 3)));
    assert_eq!(grammar::atom("_a1?!"), Ok(*var("_a1?!", 0, 5)));
    assert_eq!(grammar::atom("?"), Ok(*var("?", 0, 1)));
    assert_eq!(grammar::atom("letter"), Ok(*var("letter", 0, 6)));
    assert_eq!(grammar::atom("inner"), Ok(*var("inner", 0, 5)));
    assert_eq!(grammar::atom("Zz9"), Ok(*var("Zz9", 0, 3)));
    assert_eq!(grammar::atom("9a"), Err(ParseError()));
}

#[test]
fn keywords_are_no_identifiers() {
    for word in ["in", "let", "int", "bool", "and"] {
        assert_eq!(grammar::atom(word), Err(ParseError()));
    }
    assert_eq!(grammar::atom("true"), Ok(Ast::BoolLiteral(true, Range(0, 4))));
    assert_eq!(grammar::atom("false"), Ok(Ast::BoolLiteral(false, Range(0, 5))));
}

#[test]
fn atoms_in_parentheses() {
    assert_eq!(grammar::atom("(1)"), Ok(Ast::Paren(num(1, 1, 2), Range(0, 3))));
    assert_eq!(
        grammar::atom("( \t\n x \r)"),
        Ok(Ast::Paren(var("x", 5, 6), Range(0, 9)))
    );
    assert_eq!(grammar::atom("(1"), Err(ParseError()));
    assert_eq!(grammar::atom("()"), Err(ParseError()));
}

#[test]
fn operators_group_by_level() {
    assert_eq!(
        grammar::arith("1 + 2 = 3"),
        Ok(Ast::Eq(Box::new(Ast::Add(num(1, 0, 1), num(2, 4, 5))), num(3, 8, 9)))
    );
    assert_eq!(
        grammar::arith("a and b = c"),
        Ok(Ast::And(var("a", 0, 1), Box::new(Ast::Eq(var("b", 6, 7), var("c", 10, 11)))))
    );
    assert_eq!(
        grammar::arith("f < 1 + 2"),
        Ok(Ast::LApp(var("f", 0, 1), Box::new(Ast::Add(num(1, 4, 5), num(2, 8, 9)))))
    );
    assert_eq!(
        grammar::arith("1 + 2 > f"),
        Ok(Ast::RApp(Box::new(Ast::Add(num(1, 0, 1), num(2, 4, 5))), var("f", 8, 9)))
    );
}

#[test]
fn operators_of_one_level_group_to_the_left() {
    assert_eq!(
        grammar::arith("1+2+3"),
        Ok(Ast::Add(Box::new(Ast::Add(num(1, 0, 1), num(2, 2, 3))), num(3, 4, 5)))
    );
    assert_eq!(
        grammar::arith("f < 1 < 2"),
        Ok(Ast::LApp(Box::new(Ast::LApp(var("f", 0, 1), num(1, 4, 5))), num(2, 8, 9)))
    );
    assert_eq!(
        grammar::arith("3 > f < 2"),
        Ok(Ast::LApp(Box::new(Ast::RApp(num(3, 0, 1), var("f", 4, 5))), num(2, 8, 9)))
    );
}

#[test]
fn operator_without_an_operand_is_left_unread() {
    assert_eq!(grammar::arith("1 +"), Err(ParseError()));
    assert_eq!(grammar::arith("1 + + 2"), Err(ParseError()));
    assert_eq!(grammar::arith("1 + -2"), Ok(Ast::Add(num(1, 0, 1), num(-2, 4, 6))));
    assert_eq!(grammar::arith("1 2"), Err(ParseError()));
}

#[test]
fn let_declarations() {
    assert_eq!(
        grammar::let_declaration("let x = 1 in x"),
        Ok(Ast::Let {
            name: "x".to_string(),
            right: num(1, 8, 9),
            body: var("x", 13, 14),
            range: Range(0, 14),
        })
    );
    assert_eq!(
        grammar::let_declaration("letx=1inx"),
        Ok(Ast::Let {
            name: "x".to_string(),
            right: num(1, 5, 6),
            body: var("x", 8, 9),
            range: Range(0, 9),
        })
    );
    assert_eq!(grammar::let_declaration("let in = 1 in x"), Err(ParseError()));
    assert_eq!(grammar::let_declaration("let x = 1"), Err(ParseError()));
    assert_eq!(grammar::let_declaration("let x 1 in x"), Err(ParseError()));
}

#[test]
fn functions() {
    assert_eq!(
        grammar::function("x: int -> x"),
        Ok(Ast::Function {
            input: ("x".to_string(), Range(0, 1)),
            input_type: TypeAst::Int(Range(3, 6)),
            ret: var("x", 10, 11),
        })
    );
    assert_eq!(
        grammar::function("f:(int->bool)->f<1"),
        Ok(Ast::Function {
            input: ("f".to_string(), Range(0, 1)),
            input_type: TypeAst::Paren(
                Box::new(TypeAst::Function(
                    Box::new(TypeAst::Int(Range(3, 6))),
                    Box::new(TypeAst::Bool(Range(8, 12))),
                )),
                Range(2, 13),
            ),
            ret: Box::new(Ast::LApp(var("f", 15, 16), num(1, 17, 18))),
        })
    );
    assert_eq!(grammar::function("x: int -> bool -> x"), Err(ParseError()));
    assert_eq!(grammar::function("x -> x"), Err(ParseError()));
}

#[test]
fn function_body_reaches_as_far_as_it_can() {
    assert_eq!(
        grammar::expr("x: int -> x + 1"),
        Ok(Ast::Function {
            input: ("x".to_string(), Range(0, 1)),
            input_type: TypeAst::Int(Range(3, 6)),
            ret: Box::new(Ast::Add(var("x", 10, 11), num(1, 14, 15))),
        })
    );
}

#[test]
fn types() {
    assert_eq!(grammar::type_atom("int"), Ok(TypeAst::Int(Range(0, 3))));
    assert_eq!(grammar::type_atom("bool"), Ok(TypeAst::Bool(Range(0, 4))));
    assert_eq!(
        grammar::type_atom("( int )"),
        Ok(TypeAst::Paren(Box::new(TypeAst::Int(Range(2, 5))), Range(0, 7)))
    );
    assert_eq!(grammar::type_atom("int -> int"), Err(ParseError()));
    assert_eq!(grammar::type_atom("integer"), Err(ParseError()));
    assert_eq!(
        grammar::type_expr("int -> bool -> int"),
        Ok(TypeAst::Function(
            Box::new(TypeAst::Int(Range(0, 3))),
            Box::new(TypeAst::Function(
                Box::new(TypeAst::Bool(Range(7, 11))),
                Box::new(TypeAst::Int(Range(15, 18))),
            )),
        ))
    );
    assert_eq!(
        grammar::type_expr("(int -> bool) -> int"),
        Ok(TypeAst::Function(
            Box::new(TypeAst::Paren(
                Box::new(TypeAst::Function(
                    Box::new(TypeAst::Int(Range(1, 4))),
                    Box::new(TypeAst::Bool(Range(8, 12))),
                )),
                Range(0, 13),
            )),
            Box::new(TypeAst::Int(Range(17, 20))),
        ))
    );
    assert_eq!(grammar::type_expr("int ->"), Err(ParseError()));
}

#[test]
fn expression_takes_no_space_around_it() {
    assert_eq!(grammar::expr(" 1"), Err(ParseError()));
    assert_eq!(grammar::expr("1 "), Err(ParseError()));
    assert_eq!(grammar::expr(""), Err(ParseError()));
}

#[test]
fn program_takes_space_around_it() {
    assert_eq!(grammar::program(" \n\t1 \r\n"), Ok(Ast::IntLiteral(1, Range(3, 4))));
    assert_eq!(grammar::program("1"), Ok(Ast::IntLiteral(1, Range(0, 1))));
    assert_eq!(grammar::program("   "), Err(ParseError()));
    assert_eq!(grammar::program("1 ;"), Err(ParseError()));
}

#[test]
fn program_of_several_lines() {
    let input = "
        let f = x: int -> y: int ->
        x + y + 2
        in 3 > f < 2
    ";
    let ast = grammar::program(input).unwrap();
    match ast {
        Ast::Let { name, right, body, .. } => {
            assert_eq!(name, "f");
            assert!(matches!(*right, Ast::Function { .. }));
            assert!(matches!(*body, Ast::LApp(_, _)));
        }
        other => panic!("not a let: {:?}", other),
    }
}

#[test]
fn text_outside_ascii_is_rejected() {
    assert_eq!(grammar::expr("é"), Err(ParseError()));
    assert_eq!(grammar::expr("1 + é"), Err(ParseError()));
    assert_eq!(grammar::program("x\u{a0}"), Err(ParseError()));
}

#[test]
fn names_are_read_character_by_character() {
    match grammar::atom("hello_World42").unwrap() {
        Ast::Var(name, range) => {
            assert_eq!(name, "hello_World42");
            assert_eq!(range, Range(0, 13));
        }
        other => panic!("not a variable: {:?}", other),
    }
}
