use lib::ast::{ExpressionNode, Identifier, LetStatement, Node, Program, StatementNode};
use lib::ast::{
    BlockStatement, Boolean, CallExpression, ExpressionStatement, FunctionLiteral, IfExpression,
    InfixExpression, PrefixExpression, ReturnStatement,
};
use lib::token::{Token, TokenKind};

#[test]
fn test_print_string() {
    let program = Program {
        statements: vec![StatementNode::Let(LetStatement {
            token: Token {
                kind: TokenKind::Let,
                literal: String::from("let"),
            },
            name: Identifier {
                token: Token {
                    kind: TokenKind::Ident,
                    literal: String::from("myVar"),
                },
                value: String::from("myVar"),
            },
            value: Some(ExpressionNode::IdentifierNode(Identifier {
                token: Token {
                    kind: TokenKind::Ident,
                    literal: String::from("anotherVar"),
                },
                value: String::from("anotherVar"),
            })),
        })],
    };

    assert_eq!(
        program.print_string(),
        String::from("let myVar = anotherVar;"),
        "print string wrong. got = {}",
        program.print_string()
    )
}

fn ident(name: &str) -> Identifier {
    Identifier {
        token: Token {
            kind: TokenKind::Ident,
            literal: name.to_string(),
        },
        value: name.to_string(),
    }
}

#[test]
fn program_prints_statements_in_order() {
    let program = Program {
        statements: vec![
            StatementNode::Expression(lib::ast::ExpressionStatement {
                token: Token { kind: TokenKind::Ident, literal: "a".to_string() },
                expression: Some(ExpressionNode::IdentifierNode(ident("a"))),
            }),
            StatementNode::Expression(lib::ast::ExpressionStatement {
                token: Token { kind: TokenKind::Ident, literal: "b".to_string() },
                expression: Some(ExpressionNode::IdentifierNode(ident("b"))),
            }),
        ],
    };
    assert_eq!(program.print_string(), "ab");
    assert_eq!(program.token_literal(), "a");
}

#[test]
fn empty_program_prints_nothing() {
    let program = Program { statements: vec![] };
    assert_eq!(program.print_string(), "");
    assert_eq!(program.token_literal(), "");
}

#[test]
fn duplicate_keeps_the_tree() {
    let lexer = lib::lexer::Lexer::new("fn(x, y) { if (x < y) { x } else { y } }; add(1, -2 * 3)");
    let mut parser = lib::parser::Parser::new(lexer);
    let program = parser.parse_program().unwrap();
    for stmt in &program.statements {
        let copy = stmt.duplicate();
        assert_eq!(copy.print_string(), stmt.print_string());
        assert_eq!(copy.token_literal(), stmt.token_literal());
    }
    assert_eq!(program.print_string(), "fn(x, y)if(x < y) xelse yadd(1, ((-2) * 3))");
}

#[test]
fn nodes_clone_and_default() {
    let mut parser = lib::parser::Parser::new(lib::lexer::Lexer::new("let a = 1; -x * (y + 2); f(1, 2)"));
    let program = parser.parse_program().unwrap();
    let copies: Vec<StatementNode> = program.statements.iter().map(|s| s.clone()).collect();
    let copy = Program { statements: copies };
    assert_eq!(copy.print_string(), program.print_string());
    assert_eq!(copy.print_string(), "let a = ;((-x) * (y + 2))f(1, 2)");
    assert!(matches!(ExpressionNode::default(), ExpressionNode::Empty));
    let i = Identifier::default();
    assert_eq!(i.value, "");
    assert_eq!(i.token.kind, TokenKind::Illegal);
    assert_eq!(i.token.literal, "");
    assert!(ReturnStatement::default().ret_value.is_none());
    assert!(ExpressionStatement::default().expression.is_none());
    assert_eq!(PrefixExpression::default().operator, "");
    assert!(matches!(*InfixExpression::default().left, ExpressionNode::Empty));
    assert!(!Boolean::default().value);
    assert!(BlockStatement::default().statements.is_empty());
    assert!(IfExpression::default().alternative.is_none());
    assert!(FunctionLiteral::default().parameters.is_empty());
    assert!(CallExpression::default().arguments.is_empty());
    assert_eq!(Token::default().kind, TokenKind::Illegal);
    let t = Token { kind: TokenKind::Int, literal: "7".to_string() };
    assert_eq!(t.clone(), t);
}
