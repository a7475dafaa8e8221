//! The parser: a Pratt parser from tokens to the syntax tree, with the
//! errors it reports.
use vstd::prelude::*;
use vstd::string::*;
use crate::ast::{
    lemma_expr_model, lemma_opt_expr_model, lemma_stmt_model, lemma_block_model, lemma_stmts_model,
    exprs_model,
    BlockStatement, Boolean, CallExpression, ExpressionNode, ExpressionStatement, FunctionLiteral,
    Identifier, IfExpression, InfixExpression, IntegerLiteral, LetStatement, PrefixExpression,
    Program, ReturnStatement, StatementNode, SBlock, SExpr, SIdent, SStmt, expr_model, ident_model,
    idents_model, opt_expr_model, stmt_model, stmts_model, block_model,
};
use crate::lexer::{
    Lexer, lex_token, lemma_lex_token_advances, lemma_int_token_digits, is_digit, skip_ws,
    digits_end,
};
use crate::text::string_views;
use crate::token::{SToken, Token, TokenKind, kind_text};

verus! {

// ---------------------------------------------------------------------------
// Precedence.

/// How tightly an operator binds, from loosest to tightest.
#[derive(Clone, Copy, PartialEq, Eq, Structural, Debug)]
pub enum PrecedenceLevel {
    Lowest,
    Equals,
    LessGreater,
    Sum,
    Product,
    Prefix,
    Call,
}

pub open spec fn level(p: PrecedenceLevel) -> int {
    match p {
        PrecedenceLevel::Lowest => 0,
        PrecedenceLevel::Equals => 1,
        PrecedenceLevel::LessGreater => 2,
        PrecedenceLevel::Sum => 3,
        PrecedenceLevel::Product => 4,
        PrecedenceLevel::Prefix => 5,
        PrecedenceLevel::Call => 6,
    }
}

/// The precedence of a token kind used as an infix operator.
pub open spec fn precedence_of(kind: TokenKind) -> PrecedenceLevel {
    match kind {
        TokenKind::Equal => PrecedenceLevel::Equals,
        TokenKind::NotEqual => PrecedenceLevel::Equals,
        TokenKind::LessThan => PrecedenceLevel::LessGreater,
        TokenKind::GreaterThan => PrecedenceLevel::LessGreater,
        TokenKind::Plus => PrecedenceLevel::Sum,
        TokenKind::Minus => PrecedenceLevel::Sum,
        TokenKind::Asterisk => PrecedenceLevel::Product,
        TokenKind::Slash => PrecedenceLevel::Product,
        TokenKind::Lparen => PrecedenceLevel::Call,
        _ => PrecedenceLevel::Lowest,
    }
}

/// How an expression starting with a token of some kind is parsed.
#[derive(Clone, Copy, PartialEq, Eq, Structural, Debug)]
pub enum PrefixRule {
    Identifier,
    Integer,
    Prefix,
    Boolean,
    Grouped,
    If,
    Function,
}

/// How an expression continues after a token of some kind.
#[derive(Clone, Copy, PartialEq, Eq, Structural, Debug)]
pub enum InfixRule {
    Binary,
    Call,
}

pub open spec fn prefix_rule_of(kind: TokenKind) -> Option<PrefixRule> {
    match kind {
        TokenKind::Ident => Some(PrefixRule::Identifier),
        TokenKind::Int => Some(PrefixRule::Integer),
        TokenKind::Bang => Some(PrefixRule::Prefix),
        TokenKind::Minus => Some(PrefixRule::Prefix),
        TokenKind::True => Some(PrefixRule::Boolean),
        TokenKind::False => Some(PrefixRule::Boolean),
        TokenKind::Lparen => Some(PrefixRule::Grouped),
        TokenKind::If => Some(PrefixRule::If),
        TokenKind::Function => Some(PrefixRule::Function),
        _ => None,
    }
}

pub open spec fn infix_rule_of(kind: TokenKind) -> Option<InfixRule> {
    match kind {
        TokenKind::Plus => Some(InfixRule::Binary),
        TokenKind::Minus => Some(InfixRule::Binary),
        TokenKind::Slash => Some(InfixRule::Binary),
        TokenKind::Asterisk => Some(InfixRule::Binary),
        TokenKind::GreaterThan => Some(InfixRule::Binary),
        TokenKind::LessThan => Some(InfixRule::Binary),
        TokenKind::Equal => Some(InfixRule::Binary),
        TokenKind::NotEqual => Some(InfixRule::Binary),
        TokenKind::Lparen => Some(InfixRule::Call),
        _ => None,
    }
}

// ---------------------------------------------------------------------------
// Tokens seen from a parser position.
//
// A parser position `q` is the lexer position from which the current token is
// read; the token after it (the peek token) is read from `adv(input, q)`.

pub open spec fn cur(input: Seq<char>, q: int) -> SToken {
    lex_token(input, q).0
}

pub open spec fn adv(input: Seq<char>, q: int) -> int {
    lex_token(input, q).1
}

pub open spec fn peek(input: Seq<char>, q: int) -> SToken {
    cur(input, adv(input, q))
}

/// `p` when it lies between `q` and the end of the input, else `q`.
pub open spec fn fwd(input: Seq<char>, q: int, p: int) -> int {
    if q <= p <= input.len() {
        p
    } else {
        q
    }
}

pub proof fn lemma_adv(input: Seq<char>, q: int)
    requires
        0 <= q <= input.len(),
    ensures
        q <= adv(input, q) <= input.len(),
        cur(input, q).kind != TokenKind::Eof ==> q < adv(input, q),
        peek(input, q).kind != TokenKind::Eof ==> q < adv(input, q),
{
    lemma_lex_token_advances(input, q);
}

// ---------------------------------------------------------------------------
// Error messages.

pub open spec fn peek_error_text(expected: TokenKind, got: TokenKind) -> Seq<char> {
    "expected next token to be '"@ + kind_text(expected) + "', got '"@ + kind_text(got)
        + "' instead"@
}

pub open spec fn no_prefix_text(kind: TokenKind) -> Seq<char> {
    "no prefix parse function for "@ + kind_text(kind) + " found"@
}

pub open spec fn integer_error_text(literal: Seq<char>) -> Seq<char> {
    "couldn't parse "@ + literal + " as integer"@
}

// ---------------------------------------------------------------------------
// Integer literals.

pub open spec fn digit_value(c: char) -> int {
    (c as u32) - 48
}

/// The value of a run of decimal digits.
pub open spec fn decimal_value(s: Seq<char>) -> int
    decreases s.len(),
{
    if s.len() == 0 {
        0
    } else {
        decimal_value(s.drop_last()) * 10 + digit_value(s.last())
    }
}

pub open spec fn all_digits(s: Seq<char>) -> bool {
    forall|i: int| 0 <= i < s.len() ==> is_digit(#[trigger] s[i])
}

// ---------------------------------------------------------------------------
// The parse, as a function of the input and a position.

/// The outcome of parsing from some position: the value, the position of the
/// last token read, the errors reported along the way, and whether the parse
/// stopped on input that the parser cannot continue from.
pub struct PStep<T> {
    pub value: T,
    pub pos: int,
    pub errs: Seq<Seq<char>>,
    pub fault: bool,
}

pub open spec fn done<T>(value: T, pos: int, errs: Seq<Seq<char>>) -> PStep<T> {
    PStep { value, pos, errs, fault: false }
}

pub open spec fn faulted<T>(value: T, pos: int, errs: Seq<Seq<char>>) -> PStep<T> {
    PStep { value, pos, errs, fault: true }
}

/// `expect_peek`: when the peek token has the expected kind, move onto it;
/// else report it.
pub open spec fn expected(input: Seq<char>, q: int, kind: TokenKind) -> PStep<bool> {
    if peek(input, q).kind == kind {
        done(true, adv(input, q), seq![])
    } else {
        done(false, q, seq![peek_error_text(kind, peek(input, q).kind)])
    }
}

pub open spec fn ident_at(input: Seq<char>, q: int) -> SIdent {
    SIdent { token: cur(input, q), value: cur(input, q).literal }
}

/// Moves on until the current token is `;` or `Eof`.
pub open spec fn skip_to_semicolon(input: Seq<char>, q: int) -> int
    decreases input.len() - q,
{
    if 0 <= q <= input.len() && cur(input, q).kind != TokenKind::Semicolon && cur(input, q).kind
        != TokenKind::Eof {
        proof {
            lemma_adv(input, q);
        }
        skip_to_semicolon(input, adv(input, q))
    } else {
        q
    }
}

#[verifier::opaque]
pub open spec fn parsed_let(input: Seq<char>, q: int) -> PStep<Option<SStmt>> {
    let token = cur(input, q);
    let e1 = expected(input, q, TokenKind::Ident);
    if !e1.value {
        done(None, q, e1.errs)
    } else {
        let q1 = e1.pos;
        let name = ident_at(input, q1);
        let e2 = expected(input, q1, TokenKind::Assign);
        if !e2.value {
            done(None, q1, e2.errs)
        } else {
            let q4 = skip_to_semicolon(input, adv(input, e2.pos));
            if cur(input, q4).kind == TokenKind::Eof {
                faulted(None, q4, seq![])
            } else {
                done(Some(SStmt::Let { token, name, value: None }), q4, seq![])
            }
        }
    }
}

#[verifier::opaque]
pub open spec fn parsed_return(input: Seq<char>, q: int) -> PStep<Option<SStmt>> {
    let q1 = skip_to_semicolon(input, adv(input, q));
    if cur(input, q1).kind == TokenKind::Eof {
        faulted(None, q1, seq![])
    } else {
        done(Some(SStmt::Return { token: cur(input, q), value: None }), q1, seq![])
    }
}

#[verifier::opaque]
pub open spec fn parsed_params_loop(input: Seq<char>, p: int, acc: Seq<SIdent>) -> PStep<
    Option<Seq<SIdent>>,
>
    decreases input.len() - p,
{
    if 0 <= p <= input.len() && peek(input, p).kind == TokenKind::Comma {
        proof {
            lemma_adv(input, p);
            lemma_adv(input, adv(input, p));
        }
        let p2 = adv(input, adv(input, p));
        parsed_params_loop(input, p2, acc.push(ident_at(input, p2)))
    } else {
        let e = expected(input, p, TokenKind::Rparen);
        if e.value {
            done(Some(acc), e.pos, seq![])
        } else {
            done(None, p, e.errs)
        }
    }
}

/// The parameter list of a function literal; the current token is `(`.
#[verifier::opaque]
pub open spec fn parsed_params(input: Seq<char>, q: int) -> PStep<Option<Seq<SIdent>>> {
    if peek(input, q).kind == TokenKind::Rparen {
        done(Some(seq![]), adv(input, q), seq![])
    } else {
        let q1 = adv(input, q);
        parsed_params_loop(input, q1, seq![ident_at(input, q1)])
    }
}

/// A statement starting at the current token.
#[verifier::opaque]
pub open spec fn parsed_statement(input: Seq<char>, q: int) -> PStep<Option<SStmt>>
    decreases input.len() - q, 20int,
{
    if !(0 <= q <= input.len()) {
        done(None, q, seq![])
    } else if cur(input, q).kind == TokenKind::Let {
        parsed_let(input, q)
    } else if cur(input, q).kind == TokenKind::Return {
        parsed_return(input, q)
    } else {
        parsed_expression_statement(input, q)
    }
}

#[verifier::opaque]
pub open spec fn parsed_expression_statement(input: Seq<char>, q: int) -> PStep<Option<SStmt>>
    decreases input.len() - q, 19int,
{
    if !(0 <= q <= input.len()) {
        done(None, q, seq![])
    } else {
        let e = parsed_expression(input, q, PrecedenceLevel::Lowest);
        let p = fwd(input, q, e.pos);
        let stmt = SStmt::Expr { token: cur(input, q), expression: e.value };
        if e.fault {
            faulted(None, p, e.errs)
        } else if peek(input, p).kind == TokenKind::Semicolon {
            done(Some(stmt), adv(input, p), e.errs)
        } else {
            done(Some(stmt), p, e.errs)
        }
    }
}

/// An expression starting at the current token, binding operators tighter
/// than `prec`.
#[verifier::opaque]
pub open spec fn parsed_expression(input: Seq<char>, q: int, prec: PrecedenceLevel) -> PStep<
    Option<SExpr>,
>
    decreases input.len() - q, 18int,
{
    if !(0 <= q <= input.len()) {
        done(None, q, seq![])
    } else {
        match prefix_rule_of(cur(input, q).kind) {
            None => done(None, q, seq![no_prefix_text(cur(input, q).kind)]),
            Some(rule) => {
                let left = parsed_prefix(input, q, rule);
                let p = fwd(input, q, left.pos);
                if left.fault {
                    faulted(None, p, left.errs)
                } else {
                    let rest = parsed_infix_loop(input, p, prec, left.value);
                    PStep {
                        value: rest.value,
                        pos: rest.pos,
                        errs: left.errs + rest.errs,
                        fault: rest.fault,
                    }
                }
            },
        }
    }
}

pub open spec fn parsed_identifier(input: Seq<char>, q: int) -> PStep<Option<SExpr>> {
    done(Some(SExpr::Ident(ident_at(input, q))), q, seq![])
}

pub open spec fn parsed_integer(input: Seq<char>, q: int) -> PStep<Option<SExpr>> {
    let token = cur(input, q);
    if decimal_value(token.literal) <= i64::MAX {
        done(Some(SExpr::Int { token, value: decimal_value(token.literal) as i64 }), q, seq![])
    } else {
        done(None, q, seq![integer_error_text(token.literal)])
    }
}

pub open spec fn parsed_boolean(input: Seq<char>, q: int) -> PStep<Option<SExpr>> {
    let token = cur(input, q);
    done(Some(SExpr::Bool { token, value: token.kind == TokenKind::True }), q, seq![])
}

/// The expression that starts with the current token, by its prefix rule.
#[verifier::opaque]
pub open spec fn parsed_prefix(input: Seq<char>, q: int, rule: PrefixRule) -> PStep<Option<SExpr>>
    decreases input.len() - q, 17int,
{
    if !(0 <= q <= input.len()) {
        done(None, q, seq![])
    } else {
        match rule {
            PrefixRule::Identifier => parsed_identifier(input, q),
            PrefixRule::Integer => parsed_integer(input, q),
            PrefixRule::Prefix => parsed_prefix_expression(input, q),
            PrefixRule::Boolean => parsed_boolean(input, q),
            PrefixRule::Grouped => parsed_grouped(input, q),
            PrefixRule::If => parsed_if(input, q),
            PrefixRule::Function => parsed_function(input, q),
        }
    }
}

#[verifier::opaque]
pub open spec fn parsed_prefix_expression(input: Seq<char>, q: int) -> PStep<Option<SExpr>>
    decreases input.len() - q, 15int,
{
    if !(0 <= q <= input.len()) || cur(input, q).kind == TokenKind::Eof {
        done(None, q, seq![])
    } else {
        proof {
            lemma_adv(input, q);
        }
        let token = cur(input, q);
        let q1 = adv(input, q);
        let r = parsed_expression(input, q1, PrecedenceLevel::Prefix);
        let p = fwd(input, q1, r.pos);
        if r.fault {
            faulted(None, p, r.errs)
        } else {
            match r.value {
                None => done(None, p, r.errs),
                Some(right) => done(
                    Some(SExpr::Prefix { token, operator: token.literal, right: Box::new(right) }),
                    p,
                    r.errs,
                ),
            }
        }
    }
}

#[verifier::opaque]
pub open spec fn parsed_grouped(input: Seq<char>, q: int) -> PStep<Option<SExpr>>
    decreases input.len() - q, 15int,
{
    if !(0 <= q <= input.len()) || cur(input, q).kind == TokenKind::Eof {
        done(None, q, seq![])
    } else {
        proof {
            lemma_adv(input, q);
        }
        let q1 = adv(input, q);
        let e = parsed_expression(input, q1, PrecedenceLevel::Lowest);
        let p = fwd(input, q1, e.pos);
        if e.fault {
            faulted(None, p, e.errs)
        } else {
            let x = expected(input, p, TokenKind::Rparen);
            if x.value {
                done(e.value, x.pos, e.errs)
            } else {
                done(None, p, e.errs + x.errs)
            }
        }
    }
}

#[verifier::opaque]
pub open spec fn parsed_if(input: Seq<char>, q: int) -> PStep<Option<SExpr>>
    decreases input.len() - q, 15int,
{
    if !(0 <= q <= input.len()) || cur(input, q).kind == TokenKind::Eof {
        done(None, q, seq![])
    } else {
        let token = cur(input, q);
        let x1 = expected(input, q, TokenKind::Lparen);
        if !x1.value {
            done(None, q, x1.errs)
        } else {
            proof {
                lemma_adv(input, q);
                lemma_adv(input, x1.pos);
            }
            let q2 = adv(input, x1.pos);
            let c = parsed_expression(input, q2, PrecedenceLevel::Lowest);
            let p3 = fwd(input, q2, c.pos);
            if c.fault || c.value is None {
                faulted(None, p3, c.errs)
            } else {
                let x2 = expected(input, p3, TokenKind::Rparen);
                if !x2.value {
                    done(None, p3, c.errs + x2.errs)
                } else {
                    let x3 = expected(input, x2.pos, TokenKind::Lbraces);
                    if !x3.value {
                        done(None, x2.pos, c.errs + x3.errs)
                    } else {
                        proof {
                            lemma_adv(input, p3);
                            lemma_adv(input, x2.pos);
                        }
                        let cons = parsed_block(input, x3.pos);
                        let p6 = fwd(input, x3.pos, cons.pos);
                        if cons.fault {
                            faulted(None, p6, c.errs + cons.errs)
                        } else if peek(input, p6).kind == TokenKind::Else {
                            proof {
                                lemma_adv(input, p6);
                            }
                            let q7 = adv(input, p6);
                            let x4 = expected(input, q7, TokenKind::Lbraces);
                            if !x4.value {
                                done(None, q7, c.errs + cons.errs + x4.errs)
                            } else {
                                proof {
                                    lemma_adv(input, q7);
                                }
                                let alt = parsed_block(input, x4.pos);
                                let p8 = fwd(input, x4.pos, alt.pos);
                                if alt.fault {
                                    faulted(None, p8, c.errs + cons.errs + alt.errs)
                                } else {
                                    done(
                                        Some(
                                            SExpr::If {
                                                token,
                                                condition: Box::new(c.value->0),
                                                consequence: cons.value,
                                                alternative: Some(alt.value),
                                            },
                                        ),
                                        p8,
                                        c.errs + cons.errs + alt.errs,
                                    )
                                }
                            }
                        } else {
                            done(
                                Some(
                                    SExpr::If {
                                        token,
                                        condition: Box::new(c.value->0),
                                        consequence: cons.value,
                                        alternative: None,
                                    },
                                ),
                                p6,
                                c.errs + cons.errs,
                            )
                        }
                    }
                }
            }
        }
    }
}

#[verifier::opaque]
pub open spec fn parsed_function(input: Seq<char>, q: int) -> PStep<Option<SExpr>>
    decreases input.len() - q, 15int,
{
    if !(0 <= q <= input.len()) || cur(input, q).kind == TokenKind::Eof {
        done(None, q, seq![])
    } else {
        let token = cur(input, q);
        let x1 = expected(input, q, TokenKind::Lparen);
        if !x1.value {
            done(None, q, x1.errs)
        } else {
            let ps = parsed_params(input, x1.pos);
            let p2 = fwd(input, x1.pos, ps.pos);
            if ps.value is None {
                faulted(None, p2, ps.errs)
            } else {
                let x2 = expected(input, p2, TokenKind::Lbraces);
                if !x2.value {
                    done(None, p2, ps.errs + x2.errs)
                } else {
                    proof {
                        lemma_adv(input, q);
                        lemma_adv(input, p2);
                    }
                    let body = parsed_block(input, x2.pos);
                    let p4 = fwd(input, x2.pos, body.pos);
                    if body.fault {
                        faulted(None, p4, ps.errs + body.errs)
                    } else {
                        done(
                            Some(
                                SExpr::Func { token, parameters: ps.value->0, body: body.value },
                            ),
                            p4,
                            ps.errs + body.errs,
                        )
                    }
                }
            }
        }
    }
}

/// A block; the current token is `{`.
#[verifier::opaque]
pub open spec fn parsed_block(input: Seq<char>, q: int) -> PStep<SBlock>
    decreases input.len() - q, 14int,
{
    let token = cur(input, q);
    let empty = SBlock { token, statements: seq![] };
    if !(0 <= q <= input.len()) || cur(input, q).kind == TokenKind::Eof {
        done(empty, q, seq![])
    } else {
        proof {
            lemma_adv(input, q);
        }
        let r = parsed_block_loop(input, adv(input, q), seq![]);
        PStep { value: SBlock { token, statements: r.value }, pos: r.pos, errs: r.errs, fault: r.fault }
    }
}

/// Statements up to `}` (or the end of the input), after those in `acc`.
#[verifier::opaque]
pub open spec fn parsed_block_loop(input: Seq<char>, p: int, acc: Seq<SStmt>) -> PStep<Seq<SStmt>>
    decreases input.len() - p, 21int,
{
    if !(0 <= p <= input.len()) || cur(input, p).kind == TokenKind::Rbraces || cur(input, p).kind
        == TokenKind::Eof {
        done(acc, p, seq![])
    } else {
        let s = parsed_statement(input, p);
        let p1 = fwd(input, p, s.pos);
        if s.fault {
            faulted(acc, p1, s.errs)
        } else {
            proof {
                lemma_adv(input, p);
                lemma_adv(input, p1);
            }
            let acc1 = match s.value {
                Some(st) => acc.push(st),
                None => acc,
            };
            let rest = parsed_block_loop(input, adv(input, p1), acc1);
            PStep { value: rest.value, pos: rest.pos, errs: s.errs + rest.errs, fault: rest.fault }
        }
    }
}

/// The infix operators that follow an expression `left`, while they bind
/// tighter than `prec`.
#[verifier::opaque]
pub open spec fn parsed_infix_loop(
    input: Seq<char>,
    p: int,
    prec: PrecedenceLevel,
    left: Option<SExpr>,
) -> PStep<Option<SExpr>>
    decreases input.len() - p, 16int,
{
    if !(0 <= p <= input.len()) || peek(input, p).kind == TokenKind::Semicolon || !(level(prec)
        < level(precedence_of(peek(input, p).kind))) {
        done(left, p, seq![])
    } else {
        match infix_rule_of(peek(input, p).kind) {
            None => done(left, p, seq![]),
            Some(rule) => match left {
                None => faulted(None, p, seq![]),
                Some(l) => {
                    let r = parsed_infix(input, p, rule, l);
                    if r.fault {
                        faulted(None, r.pos, r.errs)
                    } else if p < r.pos <= input.len() {
                        let rest = parsed_infix_loop(input, r.pos, prec, r.value);
                        PStep {
                            value: rest.value,
                            pos: rest.pos,
                            errs: r.errs + rest.errs,
                            fault: rest.fault,
                        }
                    } else {
                        done(r.value, p, r.errs)
                    }
                },
            },
        }
    }
}

/// The infix expression whose operator is the peek token.
#[verifier::opaque]
pub open spec fn parsed_infix(input: Seq<char>, p: int, rule: InfixRule, left: SExpr) -> PStep<
    Option<SExpr>,
>
    decreases input.len() - p, 15int,
{
    match rule {
        InfixRule::Binary => parsed_binary(input, p, left),
        InfixRule::Call => parsed_call(input, p, left),
    }
}

#[verifier::opaque]
pub open spec fn parsed_binary(input: Seq<char>, p: int, left: SExpr) -> PStep<Option<SExpr>>
    decreases input.len() - p, 14int,
{
    if !(0 <= p <= input.len()) || peek(input, p).kind == TokenKind::Eof {
        done(None, p, seq![])
    } else {
        proof {
            lemma_adv(input, p);
            lemma_adv(input, adv(input, p));
        }
        let q1 = adv(input, p);
        let token = cur(input, q1);
        let q2 = adv(input, q1);
        let r = parsed_expression(input, q2, precedence_of(token.kind));
        let p3 = fwd(input, q2, r.pos);
        if r.fault {
            faulted(None, p3, r.errs)
        } else {
            match r.value {
                None => done(None, p3, r.errs),
                Some(right) => done(
                    Some(
                        SExpr::Infix {
                            token,
                            left: Box::new(left),
                            operator: token.literal,
                            right: Box::new(right),
                        },
                    ),
                    p3,
                    r.errs,
                ),
            }
        }
    }
}

#[verifier::opaque]
pub open spec fn parsed_call(input: Seq<char>, p: int, function: SExpr) -> PStep<Option<SExpr>>
    decreases input.len() - p, 14int,
{
    if !(0 <= p <= input.len()) || peek(input, p).kind == TokenKind::Eof {
        done(None, p, seq![])
    } else {
        proof {
            lemma_adv(input, p);
        }
        let q1 = adv(input, p);
        let token = cur(input, q1);
        let a = parsed_call_arguments(input, q1);
        let p2 = fwd(input, q1, a.pos);
        if a.fault || a.value is None {
            faulted(None, p2, a.errs)
        } else {
            done(
                Some(SExpr::Call { token, function: Box::new(function), arguments: a.value->0 }),
                p2,
                a.errs,
            )
        }
    }
}

/// The arguments of a call; the current token is `(`.
#[verifier::opaque]
pub open spec fn parsed_call_arguments(input: Seq<char>, q: int) -> PStep<Option<Seq<SExpr>>>
    decreases input.len() - q, 13int,
{
    if !(0 <= q <= input.len()) {
        done(None, q, seq![])
    } else if peek(input, q).kind == TokenKind::Rparen {
        done(Some(seq![]), adv(input, q), seq![])
    } else if peek(input, q).kind == TokenKind::Eof {
        faulted(None, q, seq![no_prefix_text(TokenKind::Eof)])
    } else {
        proof {
            lemma_adv(input, q);
        }
        let q1 = adv(input, q);
        let e = parsed_expression(input, q1, PrecedenceLevel::Lowest);
        let p = fwd(input, q1, e.pos);
        if e.fault || e.value is None {
            faulted(None, p, e.errs)
        } else {
            let rest = parsed_arguments_loop(input, p, seq![e.value->0]);
            PStep { value: rest.value, pos: rest.pos, errs: e.errs + rest.errs, fault: rest.fault }
        }
    }
}

/// Further `, <expression>` arguments after those in `acc`, then `)`.
#[verifier::opaque]
pub open spec fn parsed_arguments_loop(input: Seq<char>, p: int, acc: Seq<SExpr>) -> PStep<
    Option<Seq<SExpr>>,
>
    decreases input.len() - p, 12int,
{
    if !(0 <= p <= input.len()) {
        done(None, p, seq![])
    } else if peek(input, p).kind == TokenKind::Comma {
        proof {
            lemma_adv(input, p);
            lemma_adv(input, adv(input, p));
        }
        let q2 = adv(input, adv(input, p));
        let e = parsed_expression(input, q2, PrecedenceLevel::Lowest);
        let p3 = fwd(input, q2, e.pos);
        if e.fault || e.value is None {
            faulted(None, p3, e.errs)
        } else {
            let rest = parsed_arguments_loop(input, p3, acc.push(e.value->0));
            PStep { value: rest.value, pos: rest.pos, errs: e.errs + rest.errs, fault: rest.fault }
        }
    } else {
        let x = expected(input, p, TokenKind::Rparen);
        if x.value {
            done(Some(acc), x.pos, seq![])
        } else {
            done(None, p, x.errs)
        }
    }
}

/// The statements of a program from position `q` on, after those in `acc`.
#[verifier::opaque]
pub open spec fn parsed_program_loop(input: Seq<char>, q: int, acc: Seq<SStmt>) -> PStep<
    Seq<SStmt>,
>
    decreases input.len() - q,
{
    if !(0 <= q <= input.len()) || cur(input, q).kind == TokenKind::Eof {
        done(acc, q, seq![])
    } else {
        let s = parsed_statement(input, q);
        let p1 = fwd(input, q, s.pos);
        if s.fault {
            faulted(acc, p1, s.errs)
        } else {
            proof {
                lemma_adv(input, q);
                lemma_adv(input, p1);
            }
            let acc1 = match s.value {
                Some(st) => acc.push(st),
                None => acc,
            };
            let rest = parsed_program_loop(input, adv(input, p1), acc1);
            PStep { value: rest.value, pos: rest.pos, errs: s.errs + rest.errs, fault: rest.fault }
        }
    }
}

// ---------------------------------------------------------------------------
// The parser.

pub open spec fn opt_stmt_model(s: Option<StatementNode>) -> Option<SStmt> {
    match s {
        Some(x) => Some(stmt_model(x)),
        None => None,
    }
}

/// `std::str::parse::<i64>` reads a non-empty run of decimal digits as its
/// value when that value fits in an `i64`, and fails otherwise; this contract
/// states that, for digit runs only.
#[verifier::external_body]
fn parse_decimal(s: &str) -> (r: Option<i64>)
    requires
        s@.len() > 0,
        all_digits(s@),
    ensures
        r == (if decimal_value(s@) <= i64::MAX {
            Some(decimal_value(s@) as i64)
        } else {
            None
        }),
{
    s.parse::<i64>().ok()
}

/// The precedence of a token kind used as an infix operator.
fn precedence_map(kind: &TokenKind) -> (p: PrecedenceLevel)
    ensures
        p == precedence_of(*kind),
{
    match kind {
        TokenKind::Equal => PrecedenceLevel::Equals,
        TokenKind::NotEqual => PrecedenceLevel::Equals,
        TokenKind::LessThan => PrecedenceLevel::LessGreater,
        TokenKind::GreaterThan => PrecedenceLevel::LessGreater,
        TokenKind::Plus => PrecedenceLevel::Sum,
        TokenKind::Minus => PrecedenceLevel::Sum,
        TokenKind::Asterisk => PrecedenceLevel::Product,
        TokenKind::Slash => PrecedenceLevel::Product,
        TokenKind::Lparen => PrecedenceLevel::Call,
        _ => PrecedenceLevel::Lowest,
    }
}

fn level_of(p: PrecedenceLevel) -> (l: u8)
    ensures
        l == level(p),
{
    match p {
        PrecedenceLevel::Lowest => 0,
        PrecedenceLevel::Equals => 1,
        PrecedenceLevel::LessGreater => 2,
        PrecedenceLevel::Sum => 3,
        PrecedenceLevel::Product => 4,
        PrecedenceLevel::Prefix => 5,
        PrecedenceLevel::Call => 6,
    }
}

fn prefix_rule(kind: TokenKind) -> (r: Option<PrefixRule>)
    ensures
        r == prefix_rule_of(kind),
{
    match kind {
        TokenKind::Ident => Some(PrefixRule::Identifier),
        TokenKind::Int => Some(PrefixRule::Integer),
        TokenKind::Bang => Some(PrefixRule::Prefix),
        TokenKind::Minus => Some(PrefixRule::Prefix),
        TokenKind::True => Some(PrefixRule::Boolean),
        TokenKind::False => Some(PrefixRule::Boolean),
        TokenKind::Lparen => Some(PrefixRule::Grouped),
        TokenKind::If => Some(PrefixRule::If),
        TokenKind::Function => Some(PrefixRule::Function),
        _ => None,
    }
}

fn infix_rule(kind: TokenKind) -> (r: Option<InfixRule>)
    ensures
        r == infix_rule_of(kind),
{
    match kind {
        TokenKind::Plus => Some(InfixRule::Binary),
        TokenKind::Minus => Some(InfixRule::Binary),
        TokenKind::Slash => Some(InfixRule::Binary),
        TokenKind::Asterisk => Some(InfixRule::Binary),
        TokenKind::GreaterThan => Some(InfixRule::Binary),
        TokenKind::LessThan => Some(InfixRule::Binary),
        TokenKind::Equal => Some(InfixRule::Binary),
        TokenKind::NotEqual => Some(InfixRule::Binary),
        TokenKind::Lparen => Some(InfixRule::Call),
        _ => None,
    }
}

/// A parser reading the tokens of one lexer.
pub struct Parser {
    lexer: Lexer,
    current_token: Token,
    peek_token: Token,
    errors: Vec<String>,
    halted: bool,
    cursor: Ghost<int>,
}

impl Parser {
    /// The text being parsed.
    pub closed spec fn source(&self) -> Seq<char> {
        self.lexer.source()
    }

    /// The lexer position of the current token.
    pub closed spec fn position(&self) -> int {
        self.cursor@
    }

    /// The errors reported so far.
    pub closed spec fn errors_model(&self) -> Seq<Seq<char>> {
        string_views(self.errors@)
    }

    /// Whether the parser stopped on input it cannot continue from.
    pub closed spec fn is_halted(&self) -> bool {
        self.halted
    }

    pub closed spec fn wf(&self) -> bool {
        &&& self.lexer.wf()
        &&& 0 <= self.cursor@ <= self.source().len()
        &&& self.current_token@ == cur(self.source(), self.cursor@)
        &&& self.peek_token@ == peek(self.source(), self.cursor@)
        &&& self.lexer.pos() == adv(self.source(), adv(self.source(), self.cursor@))
    }

    /// A parser over the tokens of `lexer`, with its first two tokens read.
    pub fn new(lexer: Lexer) -> (parser: Parser)
        requires
            lexer.wf(),
        ensures
            parser.wf(),
            parser.source() == lexer.source(),
            parser.position() == lexer.pos(),
            parser.errors_model() == Seq::<Seq<char>>::empty(),
            !parser.is_halted(),
    {
        let ghost start = lexer.pos();
        let mut lexer = lexer;
        proof {
            lexer.lemma_pos_bounds();
            lemma_lex_token_advances(lexer.source(), lexer.pos());
        }
        let current_token = lexer.next_token();
        proof {
            lexer.lemma_pos_bounds();
            lemma_lex_token_advances(lexer.source(), lexer.pos());
        }
        let peek_token = lexer.next_token();
        let parser = Parser {
            lexer,
            current_token,
            peek_token,
            errors: Vec::new(),
            halted: false,
            cursor: Ghost(start),
        };
        assert(parser.errors_model() =~= Seq::<Seq<char>>::empty());
        parser
    }

    fn next_token(&mut self)
        requires
            old(self).wf(),
        ensures
            final(self).wf(),
            final(self).source() == old(self).source(),
            final(self).position() == adv(old(self).source(), old(self).position()),
            final(self).errors == old(self).errors,
            final(self).halted == old(self).halted,
    {
        proof {
            self.lexer.lemma_pos_bounds();
            lemma_adv(self.source(), self.cursor@);
            lemma_adv(self.source(), adv(self.source(), self.cursor@));
        }
        self.current_token = self.peek_token.duplicate();
        self.peek_token = self.lexer.next_token();
        self.cursor = Ghost(adv(self.source(), self.cursor@));
    }

    fn peek_token_is(&self, kind: TokenKind) -> (r: bool)
        requires
            self.wf(),
        ensures
            r == (peek(self.source(), self.position()).kind == kind),
    {
        self.peek_token.kind == kind
    }

    fn current_token_is(&self, kind: TokenKind) -> (r: bool)
        requires
            self.wf(),
        ensures
            r == (cur(self.source(), self.position()).kind == kind),
    {
        self.current_token.kind == kind
    }

    fn peek_precedence(&self) -> (p: PrecedenceLevel)
        requires
            self.wf(),
        ensures
            p == precedence_of(peek(self.source(), self.position()).kind),
    {
        precedence_map(&self.peek_token.kind)
    }

    fn current_precedence(&self) -> (p: PrecedenceLevel)
        requires
            self.wf(),
        ensures
            p == precedence_of(cur(self.source(), self.position()).kind),
    {
        precedence_map(&self.current_token.kind)
    }

    /// The errors reported so far, in the order they were found.
    pub fn errors(&self) -> (errors: &Vec<String>)
        ensures
            string_views(errors@) == self.errors_model(),
    {
        &self.errors
    }

    fn push_error(&mut self, msg: String)
        ensures
            final(self).errors_model() == old(self).errors_model().push(msg@),
            final(self).lexer == old(self).lexer,
            final(self).current_token == old(self).current_token,
            final(self).peek_token == old(self).peek_token,
            final(self).cursor == old(self).cursor,
            final(self).halted == old(self).halted,
    {
        self.errors.push(msg);
        assert(self.errors_model() =~= old(self).errors_model().push(msg@));
    }

    fn peek_error(&mut self, kind: TokenKind)
        requires
            old(self).wf(),
        ensures
            final(self).wf(),
            final(self).errors_model() == old(self).errors_model().push(
                peek_error_text(kind, peek(old(self).source(), old(self).position()).kind),
            ),
            final(self).lexer == old(self).lexer,
            final(self).cursor == old(self).cursor,
            final(self).halted == old(self).halted,
    {
        let mut msg = String::from_str("expected next token to be '");
        let expected_text = kind.display_string();
        msg.append(expected_text.as_str());
        msg.append("', got '");
        let got_text = self.peek_token.kind.display_string();
        msg.append(got_text.as_str());
        msg.append("' instead");
        self.push_error(msg);
    }

    fn no_prefix_parse_fn_error(&mut self, kind: TokenKind)
        requires
            old(self).wf(),
        ensures
            final(self).wf(),
            final(self).errors_model() == old(self).errors_model().push(no_prefix_text(kind)),
            final(self).lexer == old(self).lexer,
            final(self).cursor == old(self).cursor,
            final(self).halted == old(self).halted,
    {
        let mut msg = String::from_str("no prefix parse function for ");
        let kind_name = kind.display_string();
        msg.append(kind_name.as_str());
        msg.append(" found");
        self.push_error(msg);
    }

    fn expect_peek(&mut self, kind: TokenKind) -> (r: bool)
        requires
            old(self).wf(),
        ensures
            final(self).wf(),
            final(self).source() == old(self).source(),
            final(self).halted == old(self).halted,
            r == expected(old(self).source(), old(self).position(), kind).value,
            final(self).position() == expected(old(self).source(), old(self).position(), kind).pos,
            final(self).errors_model() == old(self).errors_model() + expected(
                old(self).source(),
                old(self).position(),
                kind,
            ).errs,
    {
        if self.peek_token_is(kind) {
            self.next_token();
            assert(self.errors_model() =~= old(self).errors_model() + seq![]);
            return true;
        }
        self.peek_error(kind);
        assert(self.errors_model() =~= old(self).errors_model() + seq![
            peek_error_text(kind, peek(old(self).source(), old(self).position()).kind),
        ]);
        false
    }

    /// How a parse step moves the parser: it stays well formed on the same
    /// text, never moves back, halts exactly when the step faults, and
    /// otherwise ends where the step ends, having reported the step's errors.
    pub closed spec fn steps<T>(before: Parser, after: Parser, s: PStep<T>) -> bool {
        &&& after.wf()
        &&& after.source() == before.source()
        &&& before.position() <= after.position()
        &&& after.halted == s.fault
        &&& !s.fault ==> {
            &&& after.position() == s.pos
            &&& after.errors_model() == before.errors_model() + s.errs
        }
    }

    #[verifier::spinoff_prover]
    fn parse_statement(&mut self) -> (r: Option<StatementNode>)
        requires
            old(self).wf(),
            !old(self).halted,
        ensures
            Self::steps(*old(self), *final(self), parsed_statement(old(self).source(), old(self).position())),
            !final(self).halted ==> opt_stmt_model(r) == parsed_statement(
                old(self).source(),
                old(self).position(),
            ).value,
        decreases old(self).source().len() - old(self).position(), 20int,
    {
        reveal(parsed_expression_statement);
        reveal(parsed_statement);
        match self.current_token.kind {
            TokenKind::Let => self.parse_let_statement(),
            TokenKind::Return => self.parse_return_statement(),
            _ => self.parse_expression_statement(),
        }
    }

    #[verifier::spinoff_prover]
    #[verifier::loop_isolation(false)]
    fn skip_to_semicolon(&mut self)
        requires
            old(self).wf(),
        ensures
            final(self).wf(),
            final(self).source() == old(self).source(),
            final(self).errors == old(self).errors,
            final(self).halted == old(self).halted,
            final(self).position() == skip_to_semicolon(old(self).source(), old(self).position()),
            old(self).position() <= final(self).position(),
    {
        while !self.current_token_is(TokenKind::Semicolon) && !self.current_token_is(TokenKind::Eof)
            invariant
                self.wf(),
                self.source() == old(self).source(),
                self.errors == old(self).errors,
                self.halted == old(self).halted,
                skip_to_semicolon(self.source(), self.position()) == skip_to_semicolon(
                    old(self).source(),
                    old(self).position(),
                ),
                old(self).position() <= self.position(),
            decreases self.source().len() - self.position(),
        {
            proof {
                lemma_adv(self.source(), self.position());
            }
            self.next_token();
        }
    }

    #[verifier::spinoff_prover]
    fn parse_let_statement(&mut self) -> (r: Option<StatementNode>)
        requires
            old(self).wf(),
            !old(self).halted,
        ensures
            Self::steps(*old(self), *final(self), parsed_let(old(self).source(), old(self).position())),
            opt_stmt_model(r) == parsed_let(old(self).source(), old(self).position()).value,
    {
        reveal(parsed_let);
        let ghost q = self.position();
        let ghost src = self.source();
        let ghost e0 = self.errors_model();
        let ghost x1 = expected(src, q, TokenKind::Ident);
        proof {
            lemma_adv(src, q);
        }
        let token = self.current_token.duplicate();
        if !self.expect_peek(TokenKind::Ident) {
            return None;
        }
        assert(x1.errs =~= Seq::<Seq<char>>::empty());
        let name = Identifier {
            token: self.current_token.duplicate(),
            value: self.current_token.literal.clone(),
        };
        let ghost q1 = self.position();
        assert(q1 == x1.pos);
        assert(ident_model(name) == ident_at(src, q1));
        let ghost e1 = self.errors_model();
        assert(e1 =~= e0);
        let ghost x2 = expected(src, q1, TokenKind::Assign);
        proof {
            lemma_adv(src, q1);
        }
        if !self.expect_peek(TokenKind::Assign) {
            assert(self.errors_model() =~= e0 + x2.errs);
            return None;
        }
        assert(x2.errs =~= Seq::<Seq<char>>::empty());
        let ghost q2 = self.position();
        proof {
            lemma_adv(src, q2);
        }
        self.next_token();
        assert(self.position() == adv(src, x2.pos));
        self.skip_to_semicolon();
        if self.current_token_is(TokenKind::Eof) {
            self.halted = true;
            return None;
        }
        let stmt = LetStatement { token, name, value: None };
        assert(self.errors_model() =~= e0 + seq![]);
        proof {
            lemma_stmt_model(StatementNode::Let(stmt));
            lemma_opt_expr_model(None);
        }
        Some(StatementNode::Let(stmt))
    }

    #[verifier::spinoff_prover]
    fn parse_return_statement(&mut self) -> (r: Option<StatementNode>)
        requires
            old(self).wf(),
            !old(self).halted,
        ensures
            Self::steps(*old(self), *final(self), parsed_return(old(self).source(), old(self).position())),
            opt_stmt_model(r) == parsed_return(old(self).source(), old(self).position()).value,
    {
        reveal(parsed_return);
        let token = self.current_token.duplicate();
        proof {
            lemma_adv(self.source(), self.position());
        }
        self.next_token();
        self.skip_to_semicolon();
        if self.current_token_is(TokenKind::Eof) {
            self.halted = true;
            return None;
        }
        assert(self.errors_model() =~= old(self).errors_model() + seq![]);
        let stmt = ReturnStatement { token, ret_value: None };
        proof {
            lemma_stmt_model(StatementNode::Return(stmt));
            lemma_opt_expr_model(None);
        }
        Some(StatementNode::Return(stmt))
    }

    #[verifier::spinoff_prover]
    fn parse_expression_statement(&mut self) -> (r: Option<StatementNode>)
        requires
            old(self).wf(),
            !old(self).halted,
        ensures
            Self::steps(
                *old(self),
                *final(self),
                parsed_expression_statement(old(self).source(), old(self).position()),
            ),
            !final(self).halted ==> opt_stmt_model(r) == parsed_expression_statement(
                old(self).source(),
                old(self).position(),
            ).value,
        decreases old(self).source().len() - old(self).position(), 19int,
    {
        reveal(parsed_expression);
        reveal(parsed_expression_statement);
        let token = self.current_token.duplicate();
        let expression = self.parse_expression(PrecedenceLevel::Lowest);
        if self.halted {
            return None;
        }
        if self.peek_token_is(TokenKind::Semicolon) {
            proof {
                lemma_adv(self.source(), self.position());
            }
            self.next_token();
        }
        let stmt = ExpressionStatement { token, expression };
        proof {
            lemma_stmt_model(StatementNode::Expression(stmt));
        }
        Some(StatementNode::Expression(stmt))
    }

    #[verifier::spinoff_prover]
    #[verifier::loop_isolation(false)]
    fn parse_expression(&mut self, precedence: PrecedenceLevel) -> (r: Option<ExpressionNode>)
        requires
            old(self).wf(),
            !old(self).halted,
        ensures
            Self::steps(
                *old(self),
                *final(self),
                parsed_expression(old(self).source(), old(self).position(), precedence),
            ),
            !final(self).halted ==> opt_expr_model(r) == parsed_expression(
                old(self).source(),
                old(self).position(),
                precedence,
            ).value,
        decreases old(self).source().len() - old(self).position(), 18int,
    {
        proof {
            lemma_opt_expr_model(None);
        }
        reveal(parsed_prefix);
        reveal(parsed_infix);
        reveal(parsed_infix_loop);
        reveal(parsed_expression);
        let ghost src = self.source();
        let ghost q = self.position();
        let ghost total = parsed_expression(src, q, precedence);
        let rule = match prefix_rule(self.current_token.kind) {
            Some(rule) => rule,
            None => {
                let kind = self.current_token.kind;
                self.no_prefix_parse_fn_error(kind);
                assert(self.errors_model() =~= old(self).errors_model() + seq![no_prefix_text(kind)]);
                return None;
            },
        };
        let mut left_exp = self.parse_prefix(rule);
        if self.halted {
            return None;
        }
        let ghost left_errs = parsed_prefix(src, q, rule).errs;
        assert(self.errors_model() == old(self).errors_model() + left_errs);
        while !self.peek_token_is(TokenKind::Semicolon) && level_of(precedence) < level_of(
            self.peek_precedence(),
        )
            invariant
                self.wf(),
                !self.halted,
                self.source() == src,
                q <= self.position(),
                total.fault == parsed_infix_loop(src, self.position(), precedence, opt_expr_model(left_exp)).fault,
                !total.fault ==> {
                    let rest = parsed_infix_loop(src, self.position(), precedence, opt_expr_model(left_exp));
                    &&& total.value == rest.value
                    &&& total.pos == rest.pos
                    &&& old(self).errors_model() + total.errs == self.errors_model() + rest.errs
                },
            decreases src.len() - self.position(),
        {
            reveal(parsed_infix_loop);
            reveal(parsed_infix);
            let ghost p = self.position();
            let ghost left_model = opt_expr_model(left_exp);
            let ghost e_prev = self.errors_model();
            let ghost prev_rest = parsed_infix_loop(src, p, precedence, left_model);
            proof {
                lemma_opt_expr_model(left_exp);
            }
            let kind = self.peek_token.kind;
            let rule = match infix_rule(kind) {
                Some(rule) => rule,
                None => {
                    assert(false);
                    return None;
                },
            };
            let left = match left_exp {
                Some(left) => left,
                None => {
                    assert(prev_rest.fault);
                    self.halted = true;
                    return None;
                },
            };
            let ghost r = parsed_infix(src, p, rule, expr_model(left));
            left_exp = self.parse_infix(rule, left);
            if self.halted {
                assert(prev_rest.fault);
                return None;
            }
            proof {
                lemma_opt_expr_model(left_exp);
                let rest = parsed_infix_loop(src, self.position(), precedence, opt_expr_model(left_exp));
                assert(self.position() == r.pos);
                assert(opt_expr_model(left_exp) == r.value);
                assert(self.errors_model() == e_prev + r.errs);
                assert(prev_rest.errs == r.errs + rest.errs);
                assert(prev_rest.fault == rest.fault);
                if !total.fault {
                    assert(old(self).errors_model() + total.errs =~= self.errors_model() + rest.errs);
                }
            }
        }
        left_exp
    }

    #[verifier::spinoff_prover]
    #[verifier::rlimit(50)]
    fn parse_prefix(&mut self, rule: PrefixRule) -> (r: Option<ExpressionNode>)
        requires
            old(self).wf(),
            !old(self).halted,
            prefix_rule_of(cur(old(self).source(), old(self).position()).kind) == Some(rule),
        ensures
            Self::steps(
                *old(self),
                *final(self),
                parsed_prefix(old(self).source(), old(self).position(), rule),
            ),
            !final(self).halted ==> opt_expr_model(r) == parsed_prefix(
                old(self).source(),
                old(self).position(),
                rule,
            ).value,
        decreases old(self).source().len() - old(self).position(), 17int,
    {
        proof {
            lemma_opt_expr_model(None);
        }
        reveal(parsed_prefix_expression);
        reveal(parsed_grouped);
        reveal(parsed_if);
        reveal(parsed_function);
        reveal(parsed_prefix);
        match rule {
            PrefixRule::Identifier => self.parse_identifier(),
            PrefixRule::Integer => self.parse_integer_literal(),
            PrefixRule::Prefix => self.parse_prefix_expression(),
            PrefixRule::Boolean => self.parse_boolean(),
            PrefixRule::Grouped => self.parse_grouped_expression(),
            PrefixRule::If => self.parse_if_expression(),
            PrefixRule::Function => self.parse_function_literal(),
        }
    }

    #[verifier::spinoff_prover]
    fn parse_identifier(&mut self) -> (r: Option<ExpressionNode>)
        requires
            old(self).wf(),
            !old(self).halted,
        ensures
            Self::steps(
                *old(self),
                *final(self),
                parsed_identifier(old(self).source(), old(self).position()),
            ),
            opt_expr_model(r) == parsed_identifier(old(self).source(), old(self).position()).value,
    {
        proof {
            lemma_opt_expr_model(None);
        }
        assert(self.errors_model() =~= old(self).errors_model() + seq![]);
        let result = ExpressionNode::IdentifierNode(
            Identifier { token: self.current_token.duplicate(), value: self.current_token.literal.clone() },
        );
        proof {
            lemma_expr_model(result);
            lemma_opt_expr_model(Some(result));
        }
        Some(result)
    }

    #[verifier::spinoff_prover]
    #[verifier::rlimit(50)]
    fn parse_integer_literal(&mut self) -> (r: Option<ExpressionNode>)
        requires
            old(self).wf(),
            !old(self).halted,
            cur(old(self).source(), old(self).position()).kind == TokenKind::Int,
        ensures
            Self::steps(
                *old(self),
                *final(self),
                parsed_integer(old(self).source(), old(self).position()),
            ),
            opt_expr_model(r) == parsed_integer(old(self).source(), old(self).position()).value,
    {
        proof {
            lemma_opt_expr_model(None);
        }
        proof {
            lemma_int_token_digits(self.source(), self.position());
        }
        match parse_decimal(self.current_token.literal.as_str()) {
            Some(value) => {
                assert(self.errors_model() =~= old(self).errors_model() + seq![]);
                let result = ExpressionNode::Integer(
                    IntegerLiteral { token: self.current_token.duplicate(), value },
                );
                proof {
                    lemma_expr_model(result);
                    lemma_opt_expr_model(Some(result));
                }
                Some(result)
            },
            None => {
                let mut msg = String::from_str("couldn't parse ");
                msg.append(self.current_token.literal.as_str());
                msg.append(" as integer");
                self.push_error(msg);
                assert(self.errors_model() =~= old(self).errors_model() + seq![
                    integer_error_text(cur(old(self).source(), old(self).position()).literal),
                ]);
                proof {
                    lemma_opt_expr_model(None);
                }
                None
            },
        }
    }

    #[verifier::spinoff_prover]
    #[verifier::rlimit(50)]
    fn parse_boolean(&mut self) -> (r: Option<ExpressionNode>)
        requires
            old(self).wf(),
            !old(self).halted,
        ensures
            Self::steps(
                *old(self),
                *final(self),
                parsed_boolean(old(self).source(), old(self).position()),
            ),
            opt_expr_model(r) == parsed_boolean(old(self).source(), old(self).position()).value,
    {
        proof {
            lemma_opt_expr_model(None);
        }
        assert(self.errors_model() =~= old(self).errors_model() + seq![]);
        let result = ExpressionNode::BooleanNode(
            Boolean { token: self.current_token.duplicate(), value: self.current_token_is(TokenKind::True) },
        );
        proof {
            lemma_expr_model(result);
            lemma_opt_expr_model(Some(result));
        }
        Some(result)
    }


    #[verifier::spinoff_prover]
    #[verifier::rlimit(50)]
    fn parse_prefix_expression(&mut self) -> (r: Option<ExpressionNode>)
        requires
            old(self).wf(),
            !old(self).halted,
            cur(old(self).source(), old(self).position()).kind != TokenKind::Eof,
        ensures
            Self::steps(*old(self), *final(self), parsed_prefix_expression(old(self).source(), old(self).position())),
            !final(self).halted ==> opt_expr_model(r) == parsed_prefix_expression(
                old(self).source(),
                old(self).position(),
            ).value,
        decreases old(self).source().len() - old(self).position(), 15int,
    {
        proof {
            lemma_opt_expr_model(None);
        }
        reveal(parsed_expression);
        reveal(parsed_prefix_expression);
        let token = self.current_token.duplicate();
        let operator = self.current_token.literal.clone();
        proof {
            lemma_adv(self.source(), self.position());
        }
        self.next_token();
        let res = self.parse_expression(PrecedenceLevel::Prefix);
        proof {
            lemma_opt_expr_model(res);
            lemma_opt_expr_model(None);
        }
        match res {
            Some(right) => {
                if self.halted {
                    return None;
                }
                let result = ExpressionNode::Prefix(PrefixExpression { token, operator, right: Box::new(right) });
                proof {
                    lemma_expr_model(result);
                    lemma_opt_expr_model(Some(result));
                }
                Some(result)
            },
            None => None,
        }
    }

    #[verifier::spinoff_prover]
    fn parse_grouped_expression(&mut self) -> (r: Option<ExpressionNode>)
        requires
            old(self).wf(),
            !old(self).halted,
            cur(old(self).source(), old(self).position()).kind != TokenKind::Eof,
        ensures
            Self::steps(*old(self), *final(self), parsed_grouped(old(self).source(), old(self).position())),
            !final(self).halted ==> opt_expr_model(r) == parsed_grouped(
                old(self).source(),
                old(self).position(),
            ).value,
        decreases old(self).source().len() - old(self).position(), 15int,
    {
        proof {
            lemma_opt_expr_model(None);
        }
        reveal(parsed_grouped);
        reveal(parsed_expression);
        let ghost src = self.source();
        let ghost q = self.position();
        let ghost e0 = self.errors_model();
        proof {
            lemma_adv(src, q);
        }
        self.next_token();
        let ghost q1 = self.position();
        let ghost e = parsed_expression(src, q1, PrecedenceLevel::Lowest);
        let exp = self.parse_expression(PrecedenceLevel::Lowest);
        if self.halted {
            return None;
        }
        let ghost p = self.position();
        assert(fwd(src, q1, e.pos) == p);
        let ghost mid = self.errors_model();
        assert(mid == e0 + e.errs);
        let ghost x = expected(src, p, TokenKind::Rparen);
        proof {
            lemma_adv(src, p);
        }
        if !self.expect_peek(TokenKind::Rparen) {
            assert(self.errors_model() =~= e0 + (e.errs + x.errs));
            return None;
        }
        assert(x.errs =~= Seq::<Seq<char>>::empty());
        assert(self.errors_model() =~= e0 + e.errs);
        assert(x.value);
        assert(opt_expr_model(exp) == e.value);
        assert(parsed_grouped(src, q).value == e.value);
        exp
    }

    #[verifier::spinoff_prover]
    fn parse_if_expression(&mut self) -> (r: Option<ExpressionNode>)
        requires
            old(self).wf(),
            !old(self).halted,
            cur(old(self).source(), old(self).position()).kind != TokenKind::Eof,
        ensures
            Self::steps(*old(self), *final(self), parsed_if(old(self).source(), old(self).position())),
            !final(self).halted ==> opt_expr_model(r) == parsed_if(
                old(self).source(),
                old(self).position(),
            ).value,
        decreases old(self).source().len() - old(self).position(), 15int,
    {
        proof {
            lemma_opt_expr_model(None);
        }
        reveal(parsed_if);
        reveal(parsed_expression);
        reveal(parsed_block);
        let ghost src = self.source();
        let ghost q = self.position();
        let ghost e0 = self.errors_model();
        let ghost total = parsed_if(src, q);
        let token = self.current_token.duplicate();
        let ghost x1 = expected(src, q, TokenKind::Lparen);
        proof {
            lemma_adv(src, q);
        }
        if !self.expect_peek(TokenKind::Lparen) {
            return None;
        }
        assert(x1.errs =~= Seq::<Seq<char>>::empty());
        proof {
            lemma_adv(src, x1.pos);
        }
        self.next_token();
        let ghost q2 = self.position();
        assert(q2 == adv(src, x1.pos));
        let ghost c = parsed_expression(src, q2, PrecedenceLevel::Lowest);
        let cond_res = self.parse_expression(PrecedenceLevel::Lowest);
        proof {
            lemma_opt_expr_model(cond_res);
        }
        let condition = match cond_res {
            Some(c) => {
                if self.halted {
                    return None;
                }
                c
            },
            None => {
                self.halted = true;
                return None;
            },
        };
        let ghost p3 = self.position();
        assert(fwd(src, q2, c.pos) == p3);
        assert(self.errors_model() == e0 + c.errs);
        let ghost x2 = expected(src, p3, TokenKind::Rparen);
        proof {
            lemma_adv(src, p3);
        }
        if !self.expect_peek(TokenKind::Rparen) {
            assert(self.errors_model() =~= e0 + (c.errs + x2.errs));
            return None;
        }
        assert(x2.errs =~= Seq::<Seq<char>>::empty());
        let ghost x3 = expected(src, x2.pos, TokenKind::Lbraces);
        proof {
            lemma_adv(src, x2.pos);
        }
        if !self.expect_peek(TokenKind::Lbraces) {
            assert(self.errors_model() =~= e0 + (c.errs + x3.errs));
            return None;
        }
        assert(x3.errs =~= Seq::<Seq<char>>::empty());
        let ghost qb = self.position();
        assert(qb == x3.pos);
        assert(cur(src, qb).kind == TokenKind::Lbraces);
        let ghost cons = parsed_block(src, qb);
        assert(self.errors_model() == e0 + c.errs);
        let consequence = self.parse_block_statement();
        if self.halted {
            return None;
        }
        let ghost p6 = self.position();
        assert(fwd(src, qb, cons.pos) == p6);
        assert(self.errors_model() =~= e0 + (c.errs + cons.errs));
        let ghost e2 = self.errors_model();
        let alternative = if self.peek_token_is(TokenKind::Else) {
            proof {
                lemma_adv(src, p6);
            }
            self.next_token();
            let ghost q7 = self.position();
            let ghost x4 = expected(src, q7, TokenKind::Lbraces);
            proof {
                lemma_adv(src, q7);
            }
            if !self.expect_peek(TokenKind::Lbraces) {
                assert(self.errors_model() =~= e0 + (c.errs + cons.errs + x4.errs));
                return None;
            }
            assert(x4.errs =~= Seq::<Seq<char>>::empty());
            let ghost qa = self.position();
            let ghost alt_spec = parsed_block(src, qa);
            let alt = self.parse_block_statement();
            if self.halted {
                return None;
            }
            assert(fwd(src, qa, alt_spec.pos) == self.position());
            assert(self.errors_model() =~= e0 + (c.errs + cons.errs + alt_spec.errs));
            Some(alt)
        } else {
            None
        };
        let result = ExpressionNode::If(
            IfExpression { token, condition: Box::new(condition), consequence, alternative },
        );
        proof {
            lemma_expr_model(result);
            lemma_opt_expr_model(Some(result));
        }
        Some(result)
    }

    #[verifier::spinoff_prover]
    #[verifier::loop_isolation(false)]
    fn parse_block_statement(&mut self) -> (block: BlockStatement)
        requires
            old(self).wf(),
            !old(self).halted,
            cur(old(self).source(), old(self).position()).kind != TokenKind::Eof,
        ensures
            Self::steps(*old(self), *final(self), parsed_block(old(self).source(), old(self).position())),
            !final(self).halted ==> block_model(block) == parsed_block(
                old(self).source(),
                old(self).position(),
            ).value,
        decreases old(self).source().len() - old(self).position(), 14int,
    {
        reveal(parsed_statement);
        reveal(parsed_block_loop);
        reveal(parsed_block);
        let ghost src = self.source();
        let ghost q = self.position();
        let ghost total = parsed_block(src, q);
        let mut block = BlockStatement { token: self.current_token.duplicate(), statements: Vec::new() };
        proof {
            lemma_adv(src, q);
        }
        self.next_token();
        proof {
            lemma_stmts_model(block.statements);
        }
        assert(stmts_model(block.statements) =~= Seq::<SStmt>::empty());
        assert(old(self).errors_model() + total.errs =~= self.errors_model() + total.errs);
        while !self.current_token_is(TokenKind::Rbraces) && !self.current_token_is(TokenKind::Eof)
            invariant
                self.wf(),
                !self.halted,
                self.source() == src,
                q < self.position(),
                block.token@ == cur(src, q),
                total.fault == parsed_block_loop(src, self.position(), stmts_model(block.statements)).fault,
                !total.fault ==> {
                    let rest = parsed_block_loop(src, self.position(), stmts_model(block.statements));
                    &&& total.value.statements == rest.value
                    &&& total.pos == rest.pos
                    &&& old(self).errors_model() + total.errs == self.errors_model() + rest.errs
                },
            decreases src.len() - self.position(),
        {
            reveal(parsed_block_loop);
            reveal(parsed_statement);
            let ghost p = self.position();
            let ghost before = stmts_model(block.statements);
            let ghost e_before = self.errors_model();
            assert(self.source().len() - self.position() < old(self).source().len() - old(self).position());
            let stmt = self.parse_statement();
            if self.halted {
                return block;
            }
            let ghost s = parsed_statement(src, p);
            let ghost old_stmts = block.statements;
            match stmt {
                Some(st) => {
                    block.statements.push(st);
                    proof {
                        lemma_stmts_model(old_stmts);
                        lemma_stmts_model(block.statements);
                    }
                    assert(stmts_model(block.statements) =~= before.push(s.value->0));
                },
                None => {},
            }
            proof {
                lemma_adv(src, p);
                lemma_adv(src, self.position());
            }
            self.next_token();
            proof {
                let rest = parsed_block_loop(src, self.position(), stmts_model(block.statements));
                let prev_rest = parsed_block_loop(src, p, before);
                assert(prev_rest.errs == s.errs + rest.errs);
                assert(prev_rest.fault == rest.fault);
                assert(prev_rest.pos == rest.pos);
                assert(prev_rest.value == rest.value);
                if !total.fault {
                    assert(old(self).errors_model() + total.errs =~= self.errors_model() + rest.errs);
                }
            }
        }
        assert(old(self).errors_model() + total.errs =~= self.errors_model() + seq![]);
        proof {
            lemma_block_model(block);
        }
        block
    }

    #[verifier::spinoff_prover]
    fn parse_function_literal(&mut self) -> (r: Option<ExpressionNode>)
        requires
            old(self).wf(),
            !old(self).halted,
            cur(old(self).source(), old(self).position()).kind != TokenKind::Eof,
        ensures
            Self::steps(*old(self), *final(self), parsed_function(old(self).source(), old(self).position())),
            !final(self).halted ==> opt_expr_model(r) == parsed_function(
                old(self).source(),
                old(self).position(),
            ).value,
        decreases old(self).source().len() - old(self).position(), 15int,
    {
        proof {
            lemma_opt_expr_model(None);
        }
        reveal(parsed_function);
        reveal(parsed_block);
        let ghost src = self.source();
        let ghost q = self.position();
        let ghost e0 = self.errors_model();
        let token = self.current_token.duplicate();
        let ghost x1 = expected(src, q, TokenKind::Lparen);
        proof {
            lemma_adv(src, q);
        }
        if !self.expect_peek(TokenKind::Lparen) {
            return None;
        }
        assert(x1.errs =~= Seq::<Seq<char>>::empty());
        let ghost q1 = self.position();
        let ghost ps = parsed_params(src, q1);
        let parameters = match self.parse_function_parameters() {
            Some(ps) => ps,
            None => {
                self.halted = true;
                return None;
            },
        };
        let ghost p2 = self.position();
        assert(fwd(src, q1, ps.pos) == p2);
        assert(self.errors_model() == e0 + ps.errs);
        let ghost x2 = expected(src, p2, TokenKind::Lbraces);
        proof {
            lemma_adv(src, p2);
        }
        if !self.expect_peek(TokenKind::Lbraces) {
            assert(self.errors_model() =~= e0 + (ps.errs + x2.errs));
            return None;
        }
        assert(x2.errs =~= Seq::<Seq<char>>::empty());
        let ghost qb = self.position();
        let ghost body_spec = parsed_block(src, qb);
        let body = self.parse_block_statement();
        if self.halted {
            return None;
        }
        assert(fwd(src, qb, body_spec.pos) == self.position());
        assert(self.errors_model() =~= e0 + (ps.errs + body_spec.errs));
        let result = ExpressionNode::Funcion(FunctionLiteral { token, parameters, body });
        proof {
            lemma_expr_model(result);
            lemma_opt_expr_model(Some(result));
        }
        Some(result)
    }

    #[verifier::spinoff_prover]
    #[verifier::loop_isolation(false)]
    fn parse_function_parameters(&mut self) -> (r: Option<Vec<Identifier>>)
        requires
            old(self).wf(),
            !old(self).halted,
        ensures
            final(self).wf(),
            final(self).source() == old(self).source(),
            final(self).halted == old(self).halted,
            old(self).position() <= final(self).position(),
            final(self).position() == parsed_params(old(self).source(), old(self).position()).pos,
            final(self).errors_model() == old(self).errors_model() + parsed_params(
                old(self).source(),
                old(self).position(),
            ).errs,
            parsed_params(old(self).source(), old(self).position()).value == match r {
                Some(v) => Some(idents_model(v@)),
                None => None,
            },
    {
        reveal(parsed_params_loop);
        reveal(parsed_params);
        let ghost src = self.source();
        let ghost q = self.position();
        let mut params: Vec<Identifier> = Vec::new();
        proof {
            lemma_adv(src, q);
        }
        if self.peek_token_is(TokenKind::Rparen) {
            self.next_token();
            assert(idents_model(params@) =~= Seq::<SIdent>::empty());
            assert(self.errors_model() =~= old(self).errors_model() + seq![]);
            return Some(params);
        }
        self.next_token();
        let ident = Identifier { token: self.current_token.duplicate(), value: self.current_token.literal.clone() };
        params.push(ident);
        assert(idents_model(params@) =~= seq![ident_at(src, self.position())]);
        while self.peek_token_is(TokenKind::Comma)
            invariant
                self.wf(),
                self.source() == src,
                self.halted == old(self).halted,
                self.errors == old(self).errors,
                q <= self.position(),
                parsed_params(src, q) == parsed_params_loop(src, self.position(), idents_model(params@)),
            decreases src.len() - self.position(),
        {
            reveal(parsed_params_loop);
            let ghost before = idents_model(params@);
            proof {
                lemma_adv(src, self.position());
                lemma_adv(src, adv(src, self.position()));
            }
            self.next_token();
            self.next_token();
            let id = Identifier { token: self.current_token.duplicate(), value: self.current_token.literal.clone() };
            params.push(id);
            assert(idents_model(params@) =~= before.push(ident_at(src, self.position())));
        }
        proof {
            lemma_adv(src, self.position());
        }
        if !self.expect_peek(TokenKind::Rparen) {
            return None;
        }
        assert(self.errors_model() =~= old(self).errors_model() + seq![]);
        Some(params)
    }

    #[verifier::spinoff_prover]
    fn parse_infix(&mut self, rule: InfixRule, left: ExpressionNode) -> (r: Option<ExpressionNode>)
        requires
            old(self).wf(),
            !old(self).halted,
            infix_rule_of(peek(old(self).source(), old(self).position()).kind) == Some(rule),
        ensures
            Self::steps(
                *old(self),
                *final(self),
                parsed_infix(old(self).source(), old(self).position(), rule, expr_model(left)),
            ),
            old(self).position() < final(self).position(),
            !final(self).halted ==> opt_expr_model(r) == parsed_infix(
                old(self).source(),
                old(self).position(),
                rule,
                expr_model(left),
            ).value,
        decreases old(self).source().len() - old(self).position(), 16int,
    {
        proof {
            lemma_opt_expr_model(None);
        }
        reveal(parsed_binary);
        reveal(parsed_call);
        reveal(parsed_infix);
        match rule {
            InfixRule::Binary => self.parse_infix_expression(left),
            InfixRule::Call => self.parse_call_expression(left),
        }
    }

    #[verifier::spinoff_prover]
    fn parse_infix_expression(&mut self, left: ExpressionNode) -> (r: Option<ExpressionNode>)
        requires
            old(self).wf(),
            !old(self).halted,
            peek(old(self).source(), old(self).position()).kind != TokenKind::Eof,
        ensures
            Self::steps(
                *old(self),
                *final(self),
                parsed_binary(old(self).source(), old(self).position(), expr_model(left)),
            ),
            old(self).position() < final(self).position(),
            !final(self).halted ==> opt_expr_model(r) == parsed_binary(
                old(self).source(),
                old(self).position(),
                expr_model(left),
            ).value,
        decreases old(self).source().len() - old(self).position(), 15int,
    {
        proof {
            lemma_opt_expr_model(None);
        }
        reveal(parsed_expression);
        reveal(parsed_binary);
        proof {
            lemma_adv(self.source(), self.position());
            lemma_adv(self.source(), adv(self.source(), self.position()));
        }
        self.next_token();
        let token = self.current_token.duplicate();
        let operator = self.current_token.literal.clone();
        let precedence = self.current_precedence();
        self.next_token();
        let res = self.parse_expression(precedence);
        proof {
            lemma_opt_expr_model(res);
            lemma_opt_expr_model(None);
        }
        match res {
            Some(right) => {
                if self.halted {
                    return None;
                }
                let result = ExpressionNode::Infix(
                    InfixExpression { token, left: Box::new(left), operator, right: Box::new(right) },
                );
                proof {
                    lemma_expr_model(result);
                    lemma_opt_expr_model(Some(result));
                }
                Some(result)
            },
            None => None,
        }
    }

    #[verifier::spinoff_prover]
    fn parse_call_expression(&mut self, function: ExpressionNode) -> (r: Option<ExpressionNode>)
        requires
            old(self).wf(),
            !old(self).halted,
            peek(old(self).source(), old(self).position()).kind != TokenKind::Eof,
        ensures
            Self::steps(
                *old(self),
                *final(self),
                parsed_call(old(self).source(), old(self).position(), expr_model(function)),
            ),
            old(self).position() < final(self).position(),
            !final(self).halted ==> opt_expr_model(r) == parsed_call(
                old(self).source(),
                old(self).position(),
                expr_model(function),
            ).value,
        decreases old(self).source().len() - old(self).position(), 15int,
    {
        proof {
            lemma_opt_expr_model(None);
        }
        reveal(parsed_call_arguments);
        reveal(parsed_call);
        proof {
            lemma_adv(self.source(), self.position());
        }
        self.next_token();
        let token = self.current_token.duplicate();
        let arguments = match self.parse_call_arguments() {
            Some(args) => {
                if self.halted {
                    return None;
                }
                args
            },
            None => {
                self.halted = true;
                return None;
            },
        };
        let call = CallExpression { token, function: Box::new(function), arguments };
        proof {
            lemma_expr_model(ExpressionNode::Call(call));
            lemma_opt_expr_model(Some(ExpressionNode::Call(call)));
        }
        Some(ExpressionNode::Call(call))
    }

    #[verifier::spinoff_prover]
    #[verifier::loop_isolation(false)]
    fn parse_call_arguments(&mut self) -> (r: Option<Vec<ExpressionNode>>)
        requires
            old(self).wf(),
            !old(self).halted,
        ensures
            Self::steps(*old(self), *final(self), parsed_call_arguments(old(self).source(), old(self).position())),
            !final(self).halted ==> parsed_call_arguments(old(self).source(), old(self).position()).value == match r {
                Some(v) => Some(exprs_model(v@)),
                None => None,
            },
        decreases old(self).source().len() - old(self).position(), 13int,
    {
        reveal(parsed_expression);
        reveal(parsed_arguments_loop);
        reveal(parsed_call_arguments);
        let ghost src = self.source();
        let ghost q = self.position();
        let ghost total = parsed_call_arguments(src, q);
        let mut args: Vec<ExpressionNode> = Vec::new();
        if self.peek_token_is(TokenKind::Rparen) {
            proof {
                lemma_adv(src, q);
            }
            self.next_token();
            assert(exprs_model(args@) =~= Seq::<SExpr>::empty());
            assert(self.errors_model() =~= old(self).errors_model() + seq![]);
            return Some(args);
        }
        if self.peek_token_is(TokenKind::Eof) {
            self.halted = true;
            return None;
        }
        proof {
            lemma_adv(src, q);
        }
        self.next_token();
        let ghost q1 = self.position();
        let ghost e = parsed_expression(src, q1, PrecedenceLevel::Lowest);
        let res = self.parse_expression(PrecedenceLevel::Lowest);
        proof {
            lemma_opt_expr_model(res);
        }
        match res {
            Some(x) => {
                if self.halted {
                    return None;
                }
                args.push(x);
            },
            None => {
                self.halted = true;
                return None;
            },
        }
        assert(exprs_model(args@) =~= seq![e.value->0]);
        assert(self.errors_model() == old(self).errors_model() + e.errs);
        assert(fwd(src, q1, e.pos) == self.position());
        proof {
            let rest = parsed_arguments_loop(src, self.position(), exprs_model(args@));
            assert(total.errs == e.errs + rest.errs);
            assert(old(self).errors_model() + total.errs =~= self.errors_model() + rest.errs);
        }
        while self.peek_token_is(TokenKind::Comma)
            invariant
                self.wf(),
                !self.halted,
                self.source() == src,
                q < self.position(),
                total.fault == parsed_arguments_loop(src, self.position(), exprs_model(args@)).fault,
                !total.fault ==> {
                    let rest = parsed_arguments_loop(src, self.position(), exprs_model(args@));
                    &&& total.value == rest.value
                    &&& total.pos == rest.pos
                    &&& old(self).errors_model() + total.errs == self.errors_model() + rest.errs
                },
            decreases src.len() - self.position(),
        {
            reveal(parsed_arguments_loop);
            reveal(parsed_expression);
            let ghost p = self.position();
            let ghost before = exprs_model(args@);
            proof {
                lemma_adv(src, p);
                lemma_adv(src, adv(src, p));
            }
            self.next_token();
            self.next_token();
            let ghost q2 = self.position();
            let ghost e_before = self.errors_model();
            let ghost ee = parsed_expression(src, q2, PrecedenceLevel::Lowest);
            let ghost prev_rest = parsed_arguments_loop(src, p, before);
            let res = self.parse_expression(PrecedenceLevel::Lowest);
            proof {
                lemma_opt_expr_model(res);
            }
            match res {
                Some(x) => {
                    if self.halted {
                        return None;
                    }
                    args.push(x);
                },
                None => {
                    self.halted = true;
                    return None;
                },
            }
            assert(exprs_model(args@) =~= before.push(ee.value->0));
            assert(fwd(src, q2, ee.pos) == self.position());
            assert(self.errors_model() == e_before + ee.errs);
            proof {
                let rest = parsed_arguments_loop(src, self.position(), exprs_model(args@));
                assert(prev_rest.errs == ee.errs + rest.errs);
                if !total.fault {
                    assert(old(self).errors_model() + total.errs =~= self.errors_model() + rest.errs);
                }
            }
        }
        let ghost pend = self.position();
        let ghost x = expected(src, pend, TokenKind::Rparen);
        proof {
            lemma_adv(src, pend);
        }
        if !self.expect_peek(TokenKind::Rparen) {
            return None;
        }
        assert(x.errs =~= Seq::<Seq<char>>::empty());
        assert(old(self).errors_model() + total.errs =~= self.errors_model() + seq![]);
        Some(args)
    }

    /// Parses the whole input into a program. The result is `None` exactly
    /// when the input leads the parser to a point it cannot continue from (an
    /// `if` without a condition, a function literal without a well-formed
    /// parameter list, a call without well-formed arguments, an infix
    /// operator after a failed operand, or a `let` or `return` statement that
    /// no `;` ends, past which the parser would never move on); else it holds
    /// the statements parsed,
    /// and the errors reported along the way are added to `errors()`.
    #[verifier::loop_isolation(false)]
    pub fn parse_program(&mut self) -> (r: Option<Program>)
        requires
            old(self).wf(),
        ensures
            final(self).wf(),
            final(self).source() == old(self).source(),
            old(self).is_halted() ==> r is None,
            !old(self).is_halted() ==> {
                let total = parsed_program_loop(old(self).source(), old(self).position(), seq![]);
                &&& (r is None <==> total.fault)
                &&& final(self).is_halted() == total.fault
                &&& r matches Some(program) ==> {
                    &&& stmts_model(program.statements) == total.value
                    &&& final(self).errors_model() == old(self).errors_model() + total.errs
                }
            },
    {
        reveal(parsed_statement);
        reveal(parsed_program_loop);
        if self.halted {
            return None;
        }
        let ghost src = self.source();
        let ghost q = self.position();
        let ghost total = parsed_program_loop(src, q, seq![]);
        let mut program = Program { statements: Vec::new() };
        proof {
            lemma_stmts_model(program.statements);
        }
        assert(stmts_model(program.statements) =~= Seq::<SStmt>::empty());
        while !self.current_token_is(TokenKind::Eof)
            invariant
                self.wf(),
                !self.halted,
                self.source() == src,
                total.fault == parsed_program_loop(src, self.position(), stmts_model(program.statements)).fault,
                !total.fault ==> {
                    let rest = parsed_program_loop(src, self.position(), stmts_model(program.statements));
                    &&& total.value == rest.value
                    &&& old(self).errors_model() + total.errs == self.errors_model() + rest.errs
                },
            decreases src.len() - self.position(),
        {
            reveal(parsed_program_loop);
            reveal(parsed_statement);
            let ghost p = self.position();
            let ghost before = stmts_model(program.statements);
            let stmt = self.parse_statement();
            if self.halted {
                return None;
            }
            let ghost s = parsed_statement(src, p);
            let ghost old_stmts = program.statements;
            match stmt {
                Some(st) => {
                    program.statements.push(st);
                    proof {
                        lemma_stmts_model(old_stmts);
                        lemma_stmts_model(program.statements);
                    }
                    assert(stmts_model(program.statements) =~= before.push(s.value->0));
                },
                None => {},
            }
            proof {
                lemma_adv(src, p);
                lemma_adv(src, self.position());
            }
            self.next_token();
            proof {
                let rest = parsed_program_loop(src, self.position(), stmts_model(program.statements));
                let prev_rest = parsed_program_loop(src, p, before);
                assert(prev_rest.errs == s.errs + rest.errs);
                assert(prev_rest.fault == rest.fault);
                assert(prev_rest.value == rest.value);
                if !total.fault {
                    assert(old(self).errors_model() + total.errs =~= self.errors_model() + rest.errs);
                }
            }
        }
        assert(old(self).errors_model() + total.errs =~= self.errors_model() + seq![]);
        Some(program)
    }

}

// ---------------------------------------------------------------------------
// Laws of precedence.

/// Comparisons bind more loosely than `+` and `-`, which bind more loosely
/// than `*` and `/`; `==` and `!=` bind most loosely of all operators, and a
/// call binds most tightly.
pub proof fn law_precedence_order()
    ensures
        level(precedence_of(TokenKind::Equal)) == level(precedence_of(TokenKind::NotEqual)),
        level(precedence_of(TokenKind::LessThan)) == level(precedence_of(TokenKind::GreaterThan)),
        level(precedence_of(TokenKind::Plus)) == level(precedence_of(TokenKind::Minus)),
        level(precedence_of(TokenKind::Asterisk)) == level(precedence_of(TokenKind::Slash)),
        level(PrecedenceLevel::Lowest) < level(precedence_of(TokenKind::Equal)),
        level(precedence_of(TokenKind::Equal)) < level(precedence_of(TokenKind::LessThan)),
        level(precedence_of(TokenKind::LessThan)) < level(precedence_of(TokenKind::Plus)),
        level(precedence_of(TokenKind::Plus)) < level(precedence_of(TokenKind::Asterisk)),
        level(precedence_of(TokenKind::Asterisk)) < level(PrecedenceLevel::Prefix),
        level(PrecedenceLevel::Prefix) < level(precedence_of(TokenKind::Lparen)),
{
}

/// The characters that make a binary operator token of their own.
pub open spec fn is_operator_char(c: char) -> bool {
    c == '+' || c == '-' || c == '*' || c == '/' || c == '<' || c == '>'
}

/// The integer literal token of a single digit.
pub open spec fn digit_token(d: char) -> SToken {
    SToken { kind: TokenKind::Int, literal: seq![d] }
}

/// The integer literal expression of a single digit.
pub open spec fn digit_expr(d: char) -> SExpr {
    SExpr::Int { token: digit_token(d), value: (d as u32 - 48) as i64 }
}

/// The kind of the token an operator character makes.
pub open spec fn operator_kind(c: char) -> TokenKind {
    if c == '+' {
        TokenKind::Plus
    } else if c == '-' {
        TokenKind::Minus
    } else if c == '*' {
        TokenKind::Asterisk
    } else if c == '/' {
        TokenKind::Slash
    } else if c == '<' {
        TokenKind::LessThan
    } else {
        TokenKind::GreaterThan
    }
}

/// `left <op> right`, as the parser builds it from a one-character operator.
pub open spec fn binary_expr(left: SExpr, op: char, right: SExpr) -> SExpr {
    SExpr::Infix {
        token: SToken { kind: operator_kind(op), literal: seq![op] },
        left: Box::new(left),
        operator: seq![op],
        right: Box::new(right),
    }
}

proof fn lemma_lex_digit(s: Seq<char>, i: int)
    requires
        0 <= i < s.len(),
        is_digit(s[i]),
        i + 1 == s.len() || !is_digit(s[i + 1]),
    ensures
        lex_token(s, i) == (digit_token(s[i]), i + 1),
{
    reveal(lex_token);
    assert(skip_ws(s, i) == i);
    assert(digits_end(s, i + 1) == i + 1);
    assert(digits_end(s, i) == i + 1);
    assert(s.subrange(i, i + 1) =~= seq![s[i]]);
}

proof fn lemma_lex_operator(s: Seq<char>, i: int)
    requires
        0 <= i < s.len(),
        is_operator_char(s[i]),
    ensures
        lex_token(s, i) == (SToken { kind: operator_kind(s[i]), literal: seq![s[i]] }, i + 1),
{
    reveal(lex_token);
    assert(skip_ws(s, i) == i);
}

proof fn lemma_lex_end(s: Seq<char>)
    ensures
        lex_token(s, s.len() as int) == (SToken { kind: TokenKind::Eof, literal: seq![] }, s.len() as int),
{
    reveal(lex_token);
    assert(skip_ws(s, s.len() as int) == s.len());
}

/// How `a o1 b o2 c` groups: to the right, `a o1 (b o2 c)`, exactly when
/// `o2` binds more tightly than `o1`, else to the left, `(a o1 b) o2 c`.
pub open spec fn grouped_two(a: char, o1: char, b: char, o2: char, c: char) -> SExpr {
    if level(precedence_of(operator_kind(o1))) < level(precedence_of(operator_kind(o2))) {
        binary_expr(digit_expr(a), o1, binary_expr(digit_expr(b), o2, digit_expr(c)))
    } else {
        binary_expr(binary_expr(digit_expr(a), o1, digit_expr(b)), o2, digit_expr(c))
    }
}

/// An expression `a o1 b o2 c` of three digits and two one-character
/// operators parses as `grouped_two` says, and a program of it is the one
/// expression statement holding it.
proof fn lemma_two_operators(a: char, o1: char, b: char, o2: char, c: char)
    requires
        is_digit(a),
        is_digit(b),
        is_digit(c),
        is_operator_char(o1),
        is_operator_char(o2),
    ensures
        parsed_expression(seq![a, o1, b, o2, c], 0, PrecedenceLevel::Lowest) == done(
            Some(grouped_two(a, o1, b, o2, c)),
            4,
            seq![],
        ),
        parsed_program_loop(seq![a, o1, b, o2, c], 0, seq![]) == done(
            seq![SStmt::Expr { token: digit_token(a), expression: Some(grouped_two(a, o1, b, o2, c)) }],
            5,
            seq![],
        ),
{
    reveal(parsed_program_loop);
    reveal(parsed_expression);
    reveal(parsed_prefix);
    reveal(parsed_infix_loop);
    reveal(parsed_infix);
    reveal(parsed_binary);
    reveal(parsed_call);
    reveal(parsed_prefix_expression);
    reveal(parsed_grouped);
    reveal(parsed_if);
    reveal(parsed_function);
    reveal(parsed_block);
    reveal(parsed_block_loop);
    reveal(parsed_statement);
    reveal(parsed_expression_statement);
    reveal(parsed_let);
    reveal(parsed_return);
    reveal(parsed_params);
    reveal(parsed_params_loop);
    reveal(parsed_call_arguments);
    reveal(parsed_arguments_loop);
    let s = seq![a, o1, b, o2, c];
    lemma_lex_digit(s, 0);
    lemma_lex_operator(s, 1);
    lemma_lex_digit(s, 2);
    lemma_lex_operator(s, 3);
    lemma_lex_digit(s, 4);
    lemma_lex_end(s);
    let p1 = precedence_of(operator_kind(o1));
    let p2 = precedence_of(operator_kind(o2));
    let ea = digit_expr(a);
    let eb = digit_expr(b);
    let ec = digit_expr(c);
    assert(decimal_value(seq![a]) == a as u32 - 48) by {
        assert(seq![a].drop_last() =~= Seq::<char>::empty());
        assert(decimal_value(Seq::<char>::empty()) == 0);
        assert(seq![a].last() == a);
    }
    assert(decimal_value(seq![b]) == b as u32 - 48) by {
        assert(seq![b].drop_last() =~= Seq::<char>::empty());
        assert(decimal_value(Seq::<char>::empty()) == 0);
        assert(seq![b].last() == b);
    }
    assert(decimal_value(seq![c]) == c as u32 - 48) by {
        assert(seq![c].drop_last() =~= Seq::<char>::empty());
        assert(decimal_value(Seq::<char>::empty()) == 0);
        assert(seq![c].last() == c);
    }
    assert(parsed_prefix(s, 0, PrefixRule::Integer) == done(Some(ea), 0, seq![]));
    assert(parsed_prefix(s, 2, PrefixRule::Integer) == done(Some(eb), 2, seq![]));
    assert(parsed_prefix(s, 4, PrefixRule::Integer) == done(Some(ec), 4, seq![]));
    let e: Seq<Seq<char>> = seq![];
    assert(e + e =~= e);
    // `c` ends the input, whatever binds it.
    assert forall|prec: PrecedenceLevel, x: SExpr| parsed_infix_loop(s, 4, prec, Some(x)) == done(
        Some(x),
        4,
        e,
    ) by {}
    assert forall|prec: PrecedenceLevel| parsed_expression(s, 4, prec) == done(Some(ec), 4, e) by {
        assert(parsed_infix_loop(s, 4, prec, Some(ec)) == done(Some(ec), 4, e));
    }
    let bc = binary_expr(eb, o2, ec);
    assert(parsed_binary(s, 2, eb) == done(Some(bc), 4, e)) by {
        assert(parsed_expression(s, 4, p2) == done(Some(ec), 4, e));
    }
    if level(p1) < level(p2) {
        assert(parsed_infix(s, 2, InfixRule::Binary, eb) == done(Some(bc), 4, e));
        assert(parsed_infix_loop(s, 4, p1, Some(bc)) == done(Some(bc), 4, e));
        assert(parsed_infix_loop(s, 2, p1, Some(eb)) == done(Some(bc), 4, e));
        assert(parsed_expression(s, 2, p1) == done(Some(bc), 4, e));
        let abc = binary_expr(ea, o1, bc);
        assert(parsed_binary(s, 0, ea) == done(Some(abc), 4, e));
        assert(parsed_infix(s, 0, InfixRule::Binary, ea) == done(Some(abc), 4, e));
        assert(parsed_infix_loop(s, 4, PrecedenceLevel::Lowest, Some(abc)) == done(Some(abc), 4, e));
        assert(parsed_infix_loop(s, 0, PrecedenceLevel::Lowest, Some(ea)) == done(Some(abc), 4, e));
    } else {
        assert(parsed_infix_loop(s, 2, p1, Some(eb)) == done(Some(eb), 2, e));
        assert(parsed_expression(s, 2, p1) == done(Some(eb), 2, e));
        let ab = binary_expr(ea, o1, eb);
        assert(parsed_binary(s, 0, ea) == done(Some(ab), 2, e));
        assert(parsed_infix(s, 0, InfixRule::Binary, ea) == done(Some(ab), 2, e));
        let abc = binary_expr(ab, o2, ec);
        assert(parsed_binary(s, 2, ab) == done(Some(abc), 4, e)) by {
            assert(parsed_expression(s, 4, p2) == done(Some(ec), 4, e));
        }
        assert(parsed_infix(s, 2, InfixRule::Binary, ab) == done(Some(abc), 4, e));
        assert(parsed_infix_loop(s, 4, PrecedenceLevel::Lowest, Some(abc)) == done(Some(abc), 4, e));
        assert(parsed_infix_loop(s, 2, PrecedenceLevel::Lowest, Some(ab)) == done(Some(abc), 4, e));
        assert(parsed_infix_loop(s, 0, PrecedenceLevel::Lowest, Some(ea)) == done(Some(abc), 4, e));
    }
    let x = grouped_two(a, o1, b, o2, c);
    assert(parsed_expression(s, 0, PrecedenceLevel::Lowest) == done(Some(x), 4, e));
    let st = SStmt::Expr { token: digit_token(a), expression: Some(x) };
    assert(parsed_expression_statement(s, 0) == done(Some(st), 4, e));
    assert(parsed_statement(s, 0) == done(Some(st), 4, e));
    assert(parsed_program_loop(s, 5, seq![st]) == done(seq![st], 5, e));
    assert(parsed_program_loop(s, 0, seq![]) == done(seq![st], 5, e));
}

/// A comparison binds more loosely than `+` or `-` on either side of it:
/// `a < b + c` is `a < (b + c)` and `a + b < c` is `(a + b) < c`, for any
/// digits and either comparison and either additive operator. A program of
/// such an expression is that one expression statement.
pub proof fn law_comparison_looser_than_sum(a: char, cmp_op: char, b: char, sum_op: char, c: char)
    requires
        is_digit(a),
        is_digit(b),
        is_digit(c),
        cmp_op == '<' || cmp_op == '>',
        sum_op == '+' || sum_op == '-',
    ensures
        parsed_expression(seq![a, cmp_op, b, sum_op, c], 0, PrecedenceLevel::Lowest).value == Some(
            binary_expr(digit_expr(a), cmp_op, binary_expr(digit_expr(b), sum_op, digit_expr(c))),
        ),
        parsed_expression(seq![a, sum_op, b, cmp_op, c], 0, PrecedenceLevel::Lowest).value == Some(
            binary_expr(binary_expr(digit_expr(a), sum_op, digit_expr(b)), cmp_op, digit_expr(c)),
        ),
        parsed_program_loop(seq![a, cmp_op, b, sum_op, c], 0, seq![]).value == seq![
            SStmt::Expr {
                token: digit_token(a),
                expression: Some(
                    binary_expr(digit_expr(a), cmp_op, binary_expr(digit_expr(b), sum_op, digit_expr(c))),
                ),
            },
        ],
{
    lemma_two_operators(a, cmp_op, b, sum_op, c);
    lemma_two_operators(a, sum_op, b, cmp_op, c);
}

/// `*` and `/` bind more tightly than `+` and `-` on either side of them:
/// `a + b * c` is `a + (b * c)` and `a * b + c` is `(a * b) + c`.
pub proof fn law_sum_looser_than_product(a: char, sum_op: char, b: char, prod_op: char, c: char)
    requires
        is_digit(a),
        is_digit(b),
        is_digit(c),
        sum_op == '+' || sum_op == '-',
        prod_op == '*' || prod_op == '/',
    ensures
        parsed_expression(seq![a, sum_op, b, prod_op, c], 0, PrecedenceLevel::Lowest).value == Some(
            binary_expr(digit_expr(a), sum_op, binary_expr(digit_expr(b), prod_op, digit_expr(c))),
        ),
        parsed_expression(seq![a, prod_op, b, sum_op, c], 0, PrecedenceLevel::Lowest).value == Some(
            binary_expr(binary_expr(digit_expr(a), prod_op, digit_expr(b)), sum_op, digit_expr(c)),
        ),
{
    lemma_two_operators(a, sum_op, b, prod_op, c);
    lemma_two_operators(a, prod_op, b, sum_op, c);
}

/// Operators that bind equally tightly group to the left: `a - b + c` is
/// `(a - b) + c`, `a / b * c` is `(a / b) * c`, `a < b > c` is `(a < b) > c`.
pub proof fn law_same_level_groups_left(a: char, o1: char, b: char, o2: char, c: char)
    requires
        is_digit(a),
        is_digit(b),
        is_digit(c),
        ((o1 == '+' || o1 == '-') && (o2 == '+' || o2 == '-')) || ((o1 == '*' || o1 == '/') && (
        o2 == '*' || o2 == '/')) || ((o1 == '<' || o1 == '>') && (o2 == '<' || o2 == '>')),
    ensures
        parsed_expression(seq![a, o1, b, o2, c], 0, PrecedenceLevel::Lowest).value == Some(
            binary_expr(binary_expr(digit_expr(a), o1, digit_expr(b)), o2, digit_expr(c)),
        ),
{
    lemma_two_operators(a, o1, b, o2, c);
}

} // verus!
