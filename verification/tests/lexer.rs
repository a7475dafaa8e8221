use lib::lexer::Lexer;
use lib::token::{lookup_ident, Token, TokenKind};

#[test]
fn test_next_token() {
    let input = "=+(){},;";

    let expected: Vec<Token> = vec![
        Token { kind: TokenKind::Assign, literal: "=".to_string() },
        Token { kind: TokenKind::Plus, literal: "+".to_string() },
        Token { kind: TokenKind::Lparen, literal: "(".to_string() },
        Token { kind: TokenKind::Rparen, literal: ")".to_string() },
        Token { kind: TokenKind::Lbraces, literal: "{".to_string() },
        Token { kind: TokenKind::Rbraces, literal: "}".to_string() },
        Token { kind: TokenKind::Comma, literal: ",".to_string() },
        Token { kind: TokenKind::Semicolon, literal: ";".to_string() },
        Token { kind: TokenKind::Eof, literal: "".to_string() },
    ];

    let mut lexer = Lexer::new(input);

    for (idx, exp_token) in expected.into_iter().enumerate() {
        let recv_token = lexer.next_token();

        assert_eq!(
            exp_token.kind, recv_token.kind,
            "Test of {idx} - token type wrong.\nExpected {:?}, but got {:?}",
            exp_token.kind, recv_token.kind
        );

        assert_eq!(
            exp_token.literal, recv_token.literal,
            "Test of {idx} - Literal wrong.\nExpected {}, but got {}",
            exp_token.literal, recv_token.literal
        );
    }
}

#[test]
fn lexes_words_numbers_and_two_char_operators() {
    let mut lexer = Lexer::new("let five = 5;\n if (x != 10) { return true; } else { !false == y }");
    let expected = vec![
        (TokenKind::Let, "let"),
        (TokenKind::Ident, "five"),
        (TokenKind::Assign, "="),
        (TokenKind::Int, "5"),
        (TokenKind::Semicolon, ";"),
        (TokenKind::If, "if"),
        (TokenKind::Lparen, "("),
        (TokenKind::Ident, "x"),
        (TokenKind::NotEqual, "!="),
        (TokenKind::Int, "10"),
        (TokenKind::Rparen, ")"),
        (TokenKind::Lbraces, "{"),
        (TokenKind::Return, "return"),
        (TokenKind::True, "true"),
        (TokenKind::Semicolon, ";"),
        (TokenKind::Rbraces, "}"),
        (TokenKind::Else, "else"),
        (TokenKind::Lbraces, "{"),
        (TokenKind::Bang, "!"),
        (TokenKind::False, "false"),
        (TokenKind::Equal, "=="),
        (TokenKind::Ident, "y"),
        (TokenKind::Rbraces, "}"),
        (TokenKind::Eof, ""),
        (TokenKind::Eof, ""),
    ];
    for (kind, literal) in expected {
        let t = lexer.next_token();
        assert_eq!(t.kind, kind);
        assert_eq!(t.literal, literal);
    }
}

#[test]
fn unknown_characters_are_illegal() {
    let mut lexer = Lexer::new("@");
    let t = lexer.next_token();
    assert_eq!(t.kind, TokenKind::Illegal);
    assert_eq!(t.literal, "@");
    assert_eq!(lexer.next_token().kind, TokenKind::Eof);
}

#[test]
fn keywords_are_looked_up() {
    assert_eq!(lookup_ident(&"fn".to_string()), TokenKind::Function);
    assert_eq!(lookup_ident(&"let".to_string()), TokenKind::Let);
    assert_eq!(lookup_ident(&"true".to_string()), TokenKind::True);
    assert_eq!(lookup_ident(&"false".to_string()), TokenKind::False);
    assert_eq!(lookup_ident(&"if".to_string()), TokenKind::If);
    assert_eq!(lookup_ident(&"else".to_string()), TokenKind::Else);
    assert_eq!(lookup_ident(&"return".to_string()), TokenKind::Return);
    assert_eq!(lookup_ident(&"letter".to_string()), TokenKind::Ident);
}

#[test]
fn token_kinds_display_as_written() {
    assert_eq!(TokenKind::Assign.display_string(), "=");
    assert_eq!(TokenKind::Eof.display_string(), "Eof");
    assert_eq!(TokenKind::Illegal.display_string(), "Ilegal");
    assert_eq!(TokenKind::Lparen.display_string(), ")");
    assert_eq!(TokenKind::NotEqual.display_string(), "!=");
}
