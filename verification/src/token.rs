//! Tokens: their kinds, their text, and the keyword table.
use vstd::prelude::*;
use vstd::string::*;
use crate::text::str_chars;

verus! {

/// The kind of a token.
#[derive(Clone, Copy, PartialEq, Eq, Structural, Debug, Hash)]
pub enum TokenKind {
    Illegal,
    Eof,
    Ident,
    Int,
    Assign,
    Plus,
    Minus,
    Bang,
    Asterisk,
    Slash,
    LessThan,
    GreaterThan,
    Equal,
    NotEqual,
    Comma,
    Semicolon,
    Lparen,
    Rparen,
    Lbraces,
    Rbraces,
    Function,
    Let,
    True,
    False,
    If,
    Else,
    Return,
}

/// How a token kind is written in messages.
pub open spec fn kind_text(kind: TokenKind) -> Seq<char> {
    match kind {
        TokenKind::Assign => "="@,
        TokenKind::Comma => ","@,
        TokenKind::Eof => "Eof"@,
        TokenKind::Function => "Function"@,
        TokenKind::Ident => "Ident"@,
        TokenKind::Illegal => "Ilegal"@,
        TokenKind::Int => "Int"@,
        TokenKind::Lbraces => "{"@,
        TokenKind::Let => "let"@,
        TokenKind::Lparen => ")"@,
        TokenKind::Plus => "+"@,
        TokenKind::Rbraces => "}"@,
        TokenKind::Rparen => ")"@,
        TokenKind::Semicolon => ";"@,
        TokenKind::Minus => "-"@,
        TokenKind::Bang => "!"@,
        TokenKind::Asterisk => "*"@,
        TokenKind::Slash => "/"@,
        TokenKind::LessThan => "<"@,
        TokenKind::GreaterThan => ">"@,
        TokenKind::Equal => "=="@,
        TokenKind::NotEqual => "!="@,
        TokenKind::True => "true"@,
        TokenKind::False => "false"@,
        TokenKind::If => "if"@,
        TokenKind::Else => "else"@,
        TokenKind::Return => "return"@,
    }
}

impl TokenKind {
    /// How this kind is written in messages (`"="`, `"Eof"`, `"Ident"`, ...).
    pub fn display_string(&self) -> (s: String)
        ensures
            s@ == kind_text(*self),
    {
        match self {
            TokenKind::Assign => String::from_str("="),
            TokenKind::Comma => String::from_str(","),
            TokenKind::Eof => String::from_str("Eof"),
            TokenKind::Function => String::from_str("Function"),
            TokenKind::Ident => String::from_str("Ident"),
            TokenKind::Illegal => String::from_str("Ilegal"),
            TokenKind::Int => String::from_str("Int"),
            TokenKind::Lbraces => String::from_str("{"),
            TokenKind::Let => String::from_str("let"),
            TokenKind::Lparen => String::from_str(")"),
            TokenKind::Plus => String::from_str("+"),
            TokenKind::Rbraces => String::from_str("}"),
            TokenKind::Rparen => String::from_str(")"),
            TokenKind::Semicolon => String::from_str(";"),
            TokenKind::Minus => String::from_str("-"),
            TokenKind::Bang => String::from_str("!"),
            TokenKind::Asterisk => String::from_str("*"),
            TokenKind::Slash => String::from_str("/"),
            TokenKind::LessThan => String::from_str("<"),
            TokenKind::GreaterThan => String::from_str(">"),
            TokenKind::Equal => String::from_str("=="),
            TokenKind::NotEqual => String::from_str("!="),
            TokenKind::True => String::from_str("true"),
            TokenKind::False => String::from_str("false"),
            TokenKind::If => String::from_str("if"),
            TokenKind::Else => String::from_str("else"),
            TokenKind::Return => String::from_str("return"),
        }
    }
}

/// A token: its kind and the text it was read from.
#[derive(PartialEq, Debug)]
pub struct Token {
    pub kind: TokenKind,
    pub literal: String,
}

/// The mathematical value of a token.
pub struct SToken {
    pub kind: TokenKind,
    pub literal: Seq<char>,
}

impl View for Token {
    type V = SToken;

    /// A token's kind and the characters of its text.
    open spec fn view(&self) -> SToken {
        SToken { kind: self.kind, literal: self.literal@ }
    }
}

impl Token {
    /// A token equal to this one.
    pub fn duplicate(&self) -> (t: Token)
        ensures
            t == *self,
    {
        Token { kind: self.kind, literal: self.literal.clone() }
    }
}

/// The kind of a word: the keyword it spells, else `Ident`.
pub open spec fn keyword_kind(word: Seq<char>) -> TokenKind {
    if word == seq!['f', 'n'] {
        TokenKind::Function
    } else if word == seq!['l', 'e', 't'] {
        TokenKind::Let
    } else if word == seq!['t', 'r', 'u', 'e'] {
        TokenKind::True
    } else if word == seq!['f', 'a', 'l', 's', 'e'] {
        TokenKind::False
    } else if word == seq!['i', 'f'] {
        TokenKind::If
    } else if word == seq!['e', 'l', 's', 'e'] {
        TokenKind::Else
    } else if word == seq!['r', 'e', 't', 'u', 'r', 'n'] {
        TokenKind::Return
    } else {
        TokenKind::Ident
    }
}

fn spells2(w: &Vec<char>, a: char, b: char) -> (r: bool)
    ensures
        r == (w@ == seq![a, b]),
{
    let r = w.len() == 2 && w[0] == a && w[1] == b;
    if r {
        assert(w@ =~= seq![a, b]);
    }
    r
}

fn spells3(w: &Vec<char>, a: char, b: char, c: char) -> (r: bool)
    ensures
        r == (w@ == seq![a, b, c]),
{
    let r = w.len() == 3 && w[0] == a && w[1] == b && w[2] == c;
    if r {
        assert(w@ =~= seq![a, b, c]);
    }
    r
}

fn spells4(w: &Vec<char>, a: char, b: char, c: char, d: char) -> (r: bool)
    ensures
        r == (w@ == seq![a, b, c, d]),
{
    let r = w.len() == 4 && w[0] == a && w[1] == b && w[2] == c && w[3] == d;
    if r {
        assert(w@ =~= seq![a, b, c, d]);
    }
    r
}

fn spells5(w: &Vec<char>, a: char, b: char, c: char, d: char, e: char) -> (r: bool)
    ensures
        r == (w@ == seq![a, b, c, d, e]),
{
    let r = w.len() == 5 && w[0] == a && w[1] == b && w[2] == c && w[3] == d && w[4] == e;
    if r {
        assert(w@ =~= seq![a, b, c, d, e]);
    }
    r
}

fn spells6(w: &Vec<char>, a: char, b: char, c: char, d: char, e: char, f: char) -> (r: bool)
    ensures
        r == (w@ == seq![a, b, c, d, e, f]),
{
    let r = w.len() == 6 && w[0] == a && w[1] == b && w[2] == c && w[3] == d && w[4] == e
        && w[5] == f;
    if r {
        assert(w@ =~= seq![a, b, c, d, e, f]);
    }
    r
}

/// The kind of an identifier-shaped word: the keyword it spells
/// (`fn`, `let`, `true`, `false`, `if`, `else`, `return`), else `Ident`.
pub fn lookup_ident(ident: &String) -> (kind: TokenKind)
    ensures
        kind == keyword_kind(ident@),
{
    let w = str_chars(ident.as_str());
    if spells2(&w, 'f', 'n') {
        TokenKind::Function
    } else if spells3(&w, 'l', 'e', 't') {
        TokenKind::Let
    } else if spells4(&w, 't', 'r', 'u', 'e') {
        TokenKind::True
    } else if spells5(&w, 'f', 'a', 'l', 's', 'e') {
        TokenKind::False
    } else if spells2(&w, 'i', 'f') {
        TokenKind::If
    } else if spells4(&w, 'e', 'l', 's', 'e') {
        TokenKind::Else
    } else if spells6(&w, 'r', 'e', 't', 'u', 'r', 'n') {
        TokenKind::Return
    } else {
        TokenKind::Ident
    }
}

/// The token that an empty syntax node starts with: `Illegal`, with no text.
pub open spec fn default_token() -> SToken {
    SToken { kind: TokenKind::Illegal, literal: seq![] }
}

impl Clone for Token {
    /// A token equal to this one.
    fn clone(&self) -> (t: Self)
        ensures
            t == *self,
    {
        self.duplicate()
    }
}

impl Default for TokenKind {
    /// `Illegal`.
    fn default() -> (k: TokenKind)
        ensures
            k == TokenKind::Illegal,
    {
        TokenKind::Illegal
    }
}

impl Default for Token {
    /// An `Illegal` token with no text.
    fn default() -> (t: Token)
        ensures
            t@ == default_token(),
    {
        Token { kind: TokenKind::Illegal, literal: String::new() }
    }
}

} // verus!
