use std::any;

use lib::ast::{ExpressionNode, Identifier, Node, StatementNode};
use lib::lexer::Lexer;
use lib::parser::Parser;
use lib::token::TokenKind;

#[test]
fn test_let_statements() {
    let input = r#"
    let x = 5;
    let y= 10;
    let foobar=8383;
    "#;

    let lexer = Lexer::new(input);
    let mut parser = Parser::new(lexer);
    let program = parser.parse_program();

    check_parser_errors(parser);

    match program {
        None => panic!("parse program should not be none"),
        Some(program) => {
            assert_eq!(
                program.statements.len(),
                3,
                "statements does not contain 3 statements: got: {}",
                program.statements.len()
            );

            let expected = vec!["x", "y", "foobar"];
            for (idx, exp) in expected.into_iter().enumerate() {
                let stmt = &program.statements[idx];

                test_let_statement(stmt, exp);
            }
        }
    }
}

fn test_let_statement(stmt: &StatementNode, expected: &str) {
    assert_eq!(
        stmt.token_literal(),
        "let",
        "token literal not 'let'. got = {}",
        stmt.token_literal()
    );

    match stmt {
        StatementNode::Let(stm) => {
            assert_eq!(
                stm.name.value, expected,
                "LetStatement name value not {}. got = {}",
                expected, stm.name.value
            );

            assert_eq!(
                stm.name.token_literal(),
                expected,
                "LetStatement name value not {}. got = {}",
                expected,
                stm.name.token_literal()
            )
        }
        _ => panic!("not a let statement"),
    }
}

fn check_parser_errors(parser: Parser) {
    let errors = parser.errors();

    if errors.len() == 0 {
        return;
    }

    for error in errors {
        println!("parser error: {}", error);
    }

    panic!("parser error present");
}

#[test]
fn test_return_statements() {
    let input = r#"
    return 5;
    return 10;
    return 992395;
    "#;

    let lexer = Lexer::new(input);
    let mut parser = Parser::new(lexer);
    let program = parser.parse_program();
    check_parser_errors(parser);

    match program {
        None => panic!("parse program should not be none"),
        Some(program) => {
            assert_eq!(
                program.statements.len(),
                3,
                "statements does not contain 3 statements: got: {}",
                program.statements.len()
            );

            for stmt in program.statements {
                match stmt {
                    StatementNode::Return(stm) => {
                        assert_eq!(
                            stm.token_literal(),
                            "return",
                            "token literal not 'return', got = '{}'",
                            stm.token_literal()
                        )
                    }
                    _ => panic!("not a return statement"),
                }
            }
        }
    }
}

#[test]
fn test_identifier_expresion() {
    let input = "foobar;";
    let lexer = Lexer::new(input);
    let mut parser = Parser::new(lexer);

    let program = parser.parse_program().unwrap();
    check_parser_errors(parser);

    assert_eq!(
        program.statements.len(),
        1,
        "statements does not containt enoufh statements. got {}",
        program.statements.len()
    );

    match &program.statements[0] {
        StatementNode::Expression(exp) => {
            assert!(exp.expression.is_some());
            match exp.expression.as_ref().unwrap() {
                ExpressionNode::IdentifierNode(ident) => {
                    assert_eq!(
                        ident.value, "foobar",
                        "identifier value not 'foobar'. got = {}",
                        ident.value
                    );

                    assert_eq!(
                        ident.token_literal(),
                        "foobar",
                        "identifier.token_literal is not foobar. got = {}",
                        ident.token_literal()
                    );
                }
                other => panic!("expression not identifier. got = {:?}", other),
            }
        }
        other => panic!(
            "program.statements[0] is not ExpressionStatement. got = '{:?}'",
            other
        ),
    }
}

#[test]
fn test_integer_literal_expression() {
    let input = "5;";

    let lexer = Lexer::new(input);
    let mut parser = Parser::new(lexer);
    let program = parser.parse_program().unwrap();

    check_parser_errors(parser);

    assert_eq!(
        program.statements.len(),
        1,
        "program.statements does not contain enough statements. got = {}",
        program.statements.len()
    );

    match &program.statements[0] {
        StatementNode::Expression(exp) => {
            assert!(exp.expression.is_some());
            match exp.expression.as_ref().unwrap() {
                ExpressionNode::Integer(integer) => {
                    assert_eq!(
                        integer.value, 5,
                        "integer.value not '5'. got = {}",
                        integer.value
                    );
                    assert_eq!(
                        integer.token_literal(),
                        "5",
                        "integer.value not '5'. got = {}",
                        integer.token_literal()
                    );
                }
                other => panic!("expression not an IntegerLiteral. got = {:?}", other),
            }
        }
        other => panic!("program.statements[0] not expression. got = {:?}", other),
    }
}

#[test]
fn test_parsing_prefix_expressions() {
    let prefix_tests: Vec<(&str, &str, Box<dyn any::Any>)> = vec![
        ("!5", "!", Box::new(5)),
        ("-15", "-", Box::new(15)),
        ("!true", "!", Box::new(true)),
        ("!false", "!", Box::new(false)),
    ];
    for test in prefix_tests {
        let (input, prefix, value) = test;

        let lexer = Lexer::new(input);
        let mut parser = Parser::new(lexer);
        let program = parser.parse_program().unwrap();

        check_parser_errors(parser);

        assert_eq!(
            program.statements.len(),
            1,
            "program.statements does not contain enough statements. got = {}",
            program.statements.len()
        );

        match &program.statements[0] {
            StatementNode::Expression(exp) => {
                assert!(exp.expression.is_some());
                let expression = exp.expression.as_ref().unwrap();

                match expression {
                    ExpressionNode::Prefix(pre) => {
                        assert_eq!(
                            pre.operator, prefix,
                            "prefix.operator not {}. got = {}",
                            prefix, pre.operator
                        );

                        test_literal_expression(&pre.right, value);
                    }
                    other => panic!("Expresion not PrefixExpression. got = {:?}", other),
                }
            }
            other => panic!(
                "program.statements[0] is not expression statement. got = {:?}",
                other
            ),
        }
    }
}

#[test]
fn test_parsing_infix_expressions() {
    let infix_tests: Vec<(&str, Box<dyn any::Any>, &str, Box<dyn any::Any>)> = vec![
        ("5 + 5;", Box::new(5), "+", Box::new(5)),
        ("5 - 5;", Box::new(5), "-", Box::new(5)),
        ("5 * 5;", Box::new(5), "*", Box::new(5)),
        ("5 / 5;", Box::new(5), "/", Box::new(5)),
        ("5 > 5;", Box::new(5), ">", Box::new(5)),
        ("5 < 5;", Box::new(5), "<", Box::new(5)),
        ("5 == 5;", Box::new(5), "==", Box::new(5)),
        ("5 != 5;", Box::new(5), "!=", Box::new(5)),
        ("true == true", Box::new(true), "==", Box::new(true)),
        ("true != false", Box::new(true), "!=", Box::new(false)),
        ("false == false", Box::new(false), "==", Box::new(false)),
    ];
    for test in infix_tests {
        let (input, left, operator, right) = test;

        let lexer = Lexer::new(input);
        let mut parser = Parser::new(lexer);
        let program = parser.parse_program().unwrap();

        check_parser_errors(parser);

        assert_eq!(
            program.statements.len(),
            1,
            "program.statements does not contain enough statements. got = {}",
            program.statements.len()
        );

        match &program.statements[0] {
            StatementNode::Expression(exp) => {
                assert!(exp.expression.is_some());
                let expression = exp.expression.as_ref().unwrap();

                test_infix_expression(expression, left, operator.to_string(), right);
            }
            other => panic!(
                "program.statements[0] is not expression statement. got = {:?}",
                other
            ),
        }
    }
}

fn test_integer_literal(exp: &ExpressionNode, value: i64) {
    match exp {
        ExpressionNode::Integer(int) => {
            assert_eq!(
                int.value, value,
                "IntegerLiteral.value not {}. got = {}",
                value, int.value
            );

            assert_eq!(
                int.token_literal(),
                format!("{}", value),
                "IntegerLiteral.token_literal() not {}. got = {}",
                value,
                int.token_literal()
            );
        }

        other => panic!("expression not IntegerLiteral. got = {:?}", other),
    }
}

#[test]
fn test_operator_precedence_parsing() {
    let tests = vec![
        ("-a * b", "((-a) * b)"),
        ("!-a", "(!(-a))"),
        ("a + b + c", "((a + b) + c)"),
        ("a + b - c", "((a + b) - c)"),
        ("a * b * c", "((a * b) * c)"),
        ("a * b / c", "((a * b) / c)"),
        ("a + b / c", "(a + (b / c))"),
        ("a + b * c + d / e - f", "(((a + (b * c)) + (d / e)) - f)"),
        ("3 + 4; -5 * 5", "(3 + 4)((-5) * 5)"),
        ("5 > 4 == 3 < 4", "((5 > 4) == (3 < 4))"),
        ("5 < 4 != 3 > 4", "((5 < 4) != (3 > 4))"),
        (
            "3 + 4 * 5 == 3 * 1 + 4 * 5",
            "((3 + (4 * 5)) == ((3 * 1) + (4 * 5)))",
        ),
        (
            "3 + 4 * 5 == 3 * 1 + 4 * 5",
            "((3 + (4 * 5)) == ((3 * 1) + (4 * 5)))",
        ),
        ("true", "true"),
        ("false", "false"),
        ("3 > 5 == false", "((3 > 5) == false)"),
        ("3 < 5 == true", "((3 < 5) == true)"),
        ("1 + (2 + 3) + 4", "((1 + (2 + 3)) + 4)"),
        ("(5 + 5) * 2", "((5 + 5) * 2)"),
        ("2 / (5 + 5)", "(2 / (5 + 5))"),
        ("-(5 + 5)", "(-(5 + 5))"),
        ("!(true == true)", "(!(true == true))"),
        ("a + add(b * c) + d", "((a + add((b * c))) + d)"),
        (
            "add(a, b, 1, 2 * 3, 4 + 5, add(6, 7 * 8))",
            "add(a, b, 1, (2 * 3), (4 + 5), add(6, (7 * 8)))",
        ),
        (
            "add(a + b + c * d / f + g)",
            "add((((a + b) + ((c * d) / f)) + g))",
        ),
    ];

    for test in tests {
        let (input, value) = test;

        let lexer = Lexer::new(input);
        let mut parser = Parser::new(lexer);
        let program = parser.parse_program().unwrap();
        check_parser_errors(parser);

        let actual = program.print_string();
        assert_eq!(actual, value, "expected = {}, got = {}", value, actual);
    }
}

fn test_identifier(exp: &ExpressionNode, value: String) {
    match exp {
        ExpressionNode::IdentifierNode(ident) => {
            assert_eq!(
                ident.value, value,
                "ident.value not {}. got = {}",
                value, ident.value
            );

            assert_eq!(
                ident.token_literal(),
                value,
                "ident.token_literal not {}. got = {}",
                value,
                ident.token_literal()
            );
        }
        other => panic!("exp not Identifier. got = {:?}", other),
    }
}

fn test_literal_expression(exp: &ExpressionNode, expected: Box<dyn any::Any>) {
    match expected.downcast_ref::<String>() {
        Some(val) => test_identifier(exp, val.to_string()),
        None => match expected.downcast_ref::<i64>() {
            Some(int) => test_integer_literal(exp, int.to_owned()),
            None => match expected.downcast_ref::<bool>() {
                Some(boolean) => {
                    test_boolean_literal(exp, boolean.to_owned());
                }
                None => (),
            },
        },
    }
}

fn test_boolean_literal(exp: &ExpressionNode, value: bool) {
    match exp {
        ExpressionNode::BooleanNode(boolean) => {
            assert_eq!(
                boolean.value, value,
                "boolean.value not {}. got = {}",
                value, boolean.value
            );

            assert_eq!(
                boolean.token_literal(),
                format!("{}", value),
                "boolean.token_literal not {}. got = {}",
                value,
                boolean.token_literal()
            );
        }
        other => panic!("exp is not a Boolean. got = {:?}", other),
    }
}

fn test_infix_expression(
    exp: &ExpressionNode,
    left: Box<dyn any::Any>,
    operator: String,
    right: Box<dyn any::Any>,
) {
    match exp {
        ExpressionNode::Infix(inf) => {
            test_literal_expression(&inf.left, left);
            assert_eq!(
                inf.operator, operator,
                "operator is not {}. got = {}",
                operator, inf.operator
            );
            test_literal_expression(&inf.right, right);
        }
        other => panic!("exp is not an ExpressionNode. got = {:?}", other),
    }
}

#[test]
fn test_boolean_expression() {
    let input = r#"
    true;
    false;
    "#;

    let lexer = Lexer::new(input);
    let mut parser = Parser::new(lexer);
    let program = parser.parse_program().unwrap();

    check_parser_errors(parser);

    assert_eq!(
        program.statements.len(),
        2,
        "program.statements does not contain enough statements. got = {}",
        program.statements.len()
    );

    let expected_values = vec![(TokenKind::True, "true"), (TokenKind::False, "false")];

    for (idx, test) in expected_values.into_iter().enumerate() {
        let (kind, value) = test;
        match &program.statements[idx] {
            StatementNode::Expression(stmt) => {
                assert!(stmt.expression.is_some());
                let exp = stmt.expression.as_ref().unwrap();
                match exp {
                    ExpressionNode::BooleanNode(boolean) => {
                        assert_eq!(
                            boolean.token.kind, kind,
                            "statement[{}] token kind not {:?}. got = {:?}",
                            idx, kind, boolean.token.kind
                        );

                        assert_eq!(
                            boolean.token_literal(),
                            value,
                            "statement[{}] value not {}. got = {}",
                            idx,
                            value,
                            boolean.token_literal()
                        );
                    }
                    other => panic!("statement is not a BooleanNode. got = {:?}", other),
                }
            }
            other => panic!(
                "program.statements[{}] is not ExpressionStatement. got = {:?}",
                idx, other
            ),
        }
    }
}

#[test]
fn test_if_expression() {
    let input = "if (x < y) { x }";
    let lexer = Lexer::new(input);
    let mut parser = Parser::new(lexer);
    let program = parser.parse_program().unwrap();

    check_parser_errors(parser);

    assert_eq!(
        program.statements.len(),
        1,
        "statements does not contain {} statements. got = {}",
        1,
        program.statements.len()
    );

    match &program.statements[0] {
        StatementNode::Expression(if_stmt) => match if_stmt.expression.as_ref().unwrap() {
            ExpressionNode::If(if_exp) => {
                test_infix_expression(
                    &if_exp.condition,
                    Box::new("x"),
                    String::from("<"),
                    Box::new("y"),
                );

                assert_eq!(
                    if_exp.consequence.statements.len(),
                    1,
                    "consequence is not {} statement. got = {}",
                    1,
                    if_exp.consequence.statements.len()
                );

                match &if_exp.consequence.statements[0] {
                    StatementNode::Expression(consequence) => {
                        test_identifier(
                            consequence
                                .expression
                                .as_ref()
                                .expect("error parsing consequence"),
                            String::from("x"),
                        );
                    }
                    other => panic!("statement is not ExpressionStatement. got = {:?}", other),
                }

                assert!(if_exp.alternative.is_none());
            }
            other => panic!("Expression is not IfExpression. got = {:?}", other),
        },
        other => panic!("statement is not an ExpressionStatement. got = {:?}", other),
    }
}

#[test]
fn test_if_else_expression() {
    let input = "if (x < y) { x } else { y }";
    let lexer = Lexer::new(input);
    let mut parser = Parser::new(lexer);
    let program = parser.parse_program().unwrap();

    check_parser_errors(parser);

    assert_eq!(
        program.statements.len(),
        1,
        "statements does not contain {} statements. got = {}",
        1,
        program.statements.len()
    );

    match &program.statements[0] {
        StatementNode::Expression(if_stmt) => match if_stmt.expression.as_ref().unwrap() {
            ExpressionNode::If(if_exp) => {
                test_infix_expression(
                    &if_exp.condition,
                    Box::new("x"),
                    String::from("<"),
                    Box::new("y"),
                );

                assert_eq!(
                    if_exp.consequence.statements.len(),
                    1,
                    "consequence is not {} statement. got = {}",
                    1,
                    if_exp.consequence.statements.len()
                );

                assert_eq!(
                    if_exp.alternative.as_ref().unwrap().statements.len(),
                    1,
                    "consequence is not {} statement. got = {}",
                    1,
                    if_exp.alternative.as_ref().unwrap().statements.len()
                );

                match &if_exp.consequence.statements[0] {
                    StatementNode::Expression(consequence) => {
                        test_identifier(
                            consequence
                                .expression
                                .as_ref()
                                .expect("error parsing consequence"),
                            String::from("x"),
                        );
                    }
                    other => panic!("statement is not ExpressionStatement. got = {:?}", other),
                }

                assert!(if_exp.alternative.is_some());

                match &if_exp.alternative.as_ref().unwrap().statements[0] {
                    StatementNode::Expression(alt) => {
                        test_identifier(
                            alt.expression.as_ref().expect("error parsing alternate"),
                            String::from("y"),
                        );
                    }
                    other => panic!("statement is not ExpressionStatement. got = {:?}", other),
                }
            }
            other => panic!("Expression is not IfExpression. got = {:?}", other),
        },
        other => panic!("statement is not an ExpressionStatement. got = {:?}", other),
    }
}

#[test]
fn test_function_literal_parsing() {
    let input = "fn(x, y) { x + y; }";

    let lexer = Lexer::new(input);
    let mut parser = Parser::new(lexer);
    let program = parser.parse_program().unwrap();

    check_parser_errors(parser);

    assert_eq!(
        program.statements.len(),
        1,
        "program has not is not {} statements. got = {}",
        1,
        program.statements.len()
    );

    match &program.statements[0] {
        StatementNode::Expression(fn_stmt) => match fn_stmt.expression.as_ref().unwrap() {
            ExpressionNode::Funcion(fn_exp) => {
                assert_eq!(
                    fn_exp.parameters.len(),
                    2,
                    "function parameters wrong, expected {}. got = {}",
                    2,
                    fn_exp.parameters.len()
                );

                match &fn_exp.parameters[0] {
                    Identifier { token, value } => {
                        assert_eq!(value, "x", "parameter wrong. Expected `x` got={}", value);
                        assert_eq!(
                            token.literal, "x",
                            "parameter wrong. Expected `x` got={}",
                            token.literal
                        );
                    }
                }

                match &fn_exp.parameters[1] {
                    Identifier { token, value } => {
                        assert_eq!(value, "y", "parameter wrong. Expected `y` got={}", value);
                        assert_eq!(
                            token.literal, "y",
                            "parameter wrong. Expected `y` got={}",
                            token.literal
                        );
                    }
                }

                assert_eq!(
                    fn_exp.body.statements.len(),
                    1,
                    "function body statements wrong. Expected 1 got={}",
                    fn_exp.body.statements.len()
                );

                match &fn_exp.body.statements[0] {
                    StatementNode::Expression(exp) => test_infix_expression(
                        exp.expression.as_ref().unwrap(),
                        Box::new("x"),
                        String::from("+"),
                        Box::new("y"),
                    ),
                    other => panic!(
                        "function body statement is not ExpressionStatement. got={:?}",
                        other
                    ),
                }
            }
            other => panic!("Expression is not FuctionExpression. got = {:?}", other),
        },
        other => panic!("statement is not an ExpressionStatement. got = {:?}", other),
    }
}

#[test]
fn test_function_parameter_parsing() {
    let tests = vec![
        ("fn() {};", vec![]),
        ("fn(x) {};", vec!["x"]),
        ("fn(x, y, z) {};", vec!["x", "y", "z"]),
    ];

    for test in tests {
        let lexer = Lexer::new(test.0);
        let mut parser = Parser::new(lexer);

        let program = parser.parse_program().unwrap();
        check_parser_errors(parser);

        match &program.statements[0] {
            StatementNode::Expression(exp) => match exp.expression.as_ref().unwrap() {
                ExpressionNode::Funcion(fn_lit) => {
                    assert_eq!(
                        fn_lit.parameters.len(),
                        test.1.len(),
                        "function literal parameters wrong. Expected 2 got={}",
                        fn_lit.parameters.len()
                    );

                    for (idx, ident) in test.1.into_iter().enumerate() {
                        assert_eq!(
                            fn_lit.parameters[idx].value, ident,
                            "expected {}, got {}",
                            ident, fn_lit.parameters[idx].value
                        );
                        assert_eq!(
                            fn_lit.parameters[idx].token_literal(),
                            ident,
                            "expected {}, got {}",
                            ident,
                            fn_lit.parameters[idx].token_literal()
                        );
                    }
                }
                other => panic!("Expression is not FunctionLiteral. got={:?}", other),
            },
            other => panic!("statement is not an ExpressionStatement. got={:?}", other),
        }
    }
}

#[test]
fn test_call_expression_parsing() {
    let input = "add(1, 2 * 3, 4 + 5);";

    let lexer = Lexer::new(input);
    let mut parser = Parser::new(lexer);

    let program = parser.parse_program().unwrap();
    check_parser_errors(parser);

    assert_eq!(
        program.statements.len(),
        1,
        "statements does not contain 1 statements, got={}",
        program.statements.len()
    );

    match &program.statements[0] {
        StatementNode::Expression(exp_stmt) => match exp_stmt.expression.as_ref().unwrap() {
            ExpressionNode::Call(call_exp) => {
                test_identifier(&call_exp.function, String::from("add"));
                assert_eq!(
                    call_exp.arguments.len(),
                    3,
                    "wrong length of arguments, expected 3. got={}",
                    call_exp.arguments.len()
                );
                test_literal_expression(&call_exp.arguments[0], Box::new(1));
                test_infix_expression(
                    &call_exp.arguments[1],
                    Box::new(2),
                    String::from("*"),
                    Box::new(3),
                );
                test_infix_expression(
                    &call_exp.arguments[2],
                    Box::new(4),
                    String::from("+"),
                    Box::new(5),
                );
            }
            other => panic!("Expression is not FunctionLiteral. got={:?}", other),
        },
        other => panic!("statement is not an ExpressionStatement. got={:?}", other),
    }
}

#[test]
fn parse_errors_are_reported() {
    let lexer = Lexer::new("let = 5;");
    let mut parser = Parser::new(lexer);
    let program = parser.parse_program().unwrap();
    assert_eq!(
        parser.errors(),
        &vec![
            "expected next token to be 'Ident', got '=' instead".to_string(),
            "no prefix parse function for = found".to_string(),
        ]
    );
    assert_eq!(program.statements.len(), 2);
}

#[test]
fn integer_too_large_is_an_error() {
    let lexer = Lexer::new("99999999999999999999");
    let mut parser = Parser::new(lexer);
    let program = parser.parse_program().unwrap();
    assert_eq!(
        parser.errors(),
        &vec!["couldn't parse 99999999999999999999 as integer".to_string()]
    );
    assert_eq!(program.statements.len(), 1);
}

#[test]
fn largest_integer_parses() {
    let lexer = Lexer::new("9223372036854775807");
    let mut parser = Parser::new(lexer);
    let program = parser.parse_program().unwrap();
    assert_eq!(parser.errors().len(), 0);
    match &program.statements[0] {
        StatementNode::Expression(e) => match e.expression.as_ref().unwrap() {
            ExpressionNode::Integer(i) => assert_eq!(i.value, i64::MAX),
            other => panic!("not an integer: {:?}", other),
        },
        other => panic!("not an expression statement: {:?}", other),
    }
}

#[test]
fn missing_condition_stops_the_parser() {
    let lexer = Lexer::new("if (;) { x }");
    let mut parser = Parser::new(lexer);
    assert!(parser.parse_program().is_none());
    assert!(parser.parse_program().is_none());
}

#[test]
fn return_statement_prints() {
    let lexer = Lexer::new("return 5;");
    let mut parser = Parser::new(lexer);
    let program = parser.parse_program().unwrap();
    assert_eq!(program.print_string(), "return ;");
}

#[test]
fn let_or_return_without_semicolon_stops_the_parser() {
    let mut parser = Parser::new(Lexer::new("let x = 5"));
    assert!(parser.parse_program().is_none());
    let mut parser = Parser::new(Lexer::new("return 5"));
    assert!(parser.parse_program().is_none());
    let mut parser = Parser::new(Lexer::new("let x = 5; return x;"));
    let program = parser.parse_program().unwrap();
    assert_eq!(program.statements.len(), 2);
    assert_eq!(program.print_string(), "let x = ;return ;");
}
