//! The lexer: turns source text into tokens, one at a time.
use vstd::prelude::*;
use vstd::string::*;
use crate::text::{char_string, str_chars, string_from_chars};
use crate::token::{keyword_kind, lookup_ident, SToken, Token, TokenKind};

verus! {

/// The character at index `i` of `input`, or `'\0'` past its end.
pub open spec fn char_at(input: Seq<char>, i: int) -> char {
    if 0 <= i < input.len() {
        input[i]
    } else {
        '\0'
    }
}

pub open spec fn is_letter(c: char) -> bool {
    ||| (97 <= (c as u32) <= 122)
    ||| (65 <= (c as u32) <= 90)
    ||| c == '_'
}

pub open spec fn is_digit(c: char) -> bool {
    48 <= (c as u32) <= 57
}

pub open spec fn is_whitespace(c: char) -> bool {
    c == ' ' || c == '\t' || c == '\n' || c == '\r'
}

/// The first index at or after `p` that does not hold whitespace.
pub open spec fn skip_ws(input: Seq<char>, p: int) -> int
    decreases input.len() - p,
{
    if 0 <= p < input.len() && is_whitespace(input[p]) {
        skip_ws(input, p + 1)
    } else {
        p
    }
}

/// The first index at or after `p` that does not hold a letter.
pub open spec fn word_end(input: Seq<char>, p: int) -> int
    decreases input.len() - p,
{
    if 0 <= p < input.len() && is_letter(input[p]) {
        word_end(input, p + 1)
    } else {
        p
    }
}

/// The first index at or after `p` that does not hold a digit.
pub open spec fn digits_end(input: Seq<char>, p: int) -> int
    decreases input.len() - p,
{
    if 0 <= p < input.len() && is_digit(input[p]) {
        digits_end(input, p + 1)
    } else {
        p
    }
}

/// The position after reading one character at `p`.
pub open spec fn step(input: Seq<char>, p: int) -> int {
    if p < input.len() {
        p + 1
    } else {
        input.len() as int
    }
}

/// The kind of a token made of the single character `c`, if there is one.
pub open spec fn single_kind(c: char) -> Option<TokenKind> {
    if c == '=' {
        Some(TokenKind::Assign)
    } else if c == '+' {
        Some(TokenKind::Plus)
    } else if c == '-' {
        Some(TokenKind::Minus)
    } else if c == '!' {
        Some(TokenKind::Bang)
    } else if c == '*' {
        Some(TokenKind::Asterisk)
    } else if c == '/' {
        Some(TokenKind::Slash)
    } else if c == '<' {
        Some(TokenKind::LessThan)
    } else if c == '>' {
        Some(TokenKind::GreaterThan)
    } else if c == ';' {
        Some(TokenKind::Semicolon)
    } else if c == ',' {
        Some(TokenKind::Comma)
    } else if c == '(' {
        Some(TokenKind::Lparen)
    } else if c == ')' {
        Some(TokenKind::Rparen)
    } else if c == '{' {
        Some(TokenKind::Lbraces)
    } else if c == '}' {
        Some(TokenKind::Rbraces)
    } else {
        None
    }
}

/// The token that starts at or after position `p` of `input`, and the position
/// just after it: whitespace is skipped; `==` and `!=` are read as one token;
/// a run of letters is a keyword or an identifier; a run of digits is an
/// integer; `'\0'` or the end of the input is `Eof`, with an empty literal;
/// any other character is a token of its own, `Illegal` when it has no kind.
#[verifier::opaque]
pub open spec fn lex_token(input: Seq<char>, p: int) -> (SToken, int) {
    let q = skip_ws(input, p);
    let c = char_at(input, q);
    if c == '=' && char_at(input, q + 1) == '=' {
        (SToken { kind: TokenKind::Equal, literal: seq!['=', '='] }, q + 2)
    } else if c == '!' && char_at(input, q + 1) == '=' {
        (SToken { kind: TokenKind::NotEqual, literal: seq!['!', '='] }, q + 2)
    } else if c == '\0' {
        (SToken { kind: TokenKind::Eof, literal: seq![] }, step(input, q))
    } else if is_letter(c) {
        let e = word_end(input, q);
        let word = input.subrange(q, e);
        (SToken { kind: keyword_kind(word), literal: word }, e)
    } else if is_digit(c) {
        let e = digits_end(input, q);
        (SToken { kind: TokenKind::Int, literal: input.subrange(q, e) }, e)
    } else {
        match single_kind(c) {
            Some(k) => (SToken { kind: k, literal: seq![c] }, q + 1),
            None => (SToken { kind: TokenKind::Illegal, literal: seq![c] }, q + 1),
        }
    }
}

pub proof fn lemma_skip_ws_bounds(input: Seq<char>, p: int)
    requires
        0 <= p <= input.len(),
    ensures
        p <= skip_ws(input, p) <= input.len(),
        skip_ws(input, p) < input.len() ==> !is_whitespace(input[skip_ws(input, p)]),
    decreases input.len() - p,
{
    if 0 <= p < input.len() && is_whitespace(input[p]) {
        lemma_skip_ws_bounds(input, p + 1);
    }
}

pub proof fn lemma_word_end_bounds(input: Seq<char>, p: int)
    requires
        0 <= p <= input.len(),
    ensures
        p <= word_end(input, p) <= input.len(),
        forall|i: int| p <= i < word_end(input, p) ==> is_letter(#[trigger] input[i]),
    decreases input.len() - p,
{
    if 0 <= p < input.len() && is_letter(input[p]) {
        lemma_word_end_bounds(input, p + 1);
    }
}

pub proof fn lemma_digits_end_bounds(input: Seq<char>, p: int)
    requires
        0 <= p <= input.len(),
    ensures
        p <= digits_end(input, p) <= input.len(),
        forall|i: int| p <= i < digits_end(input, p) ==> is_digit(#[trigger] input[i]),
    decreases input.len() - p,
{
    if 0 <= p < input.len() && is_digit(input[p]) {
        lemma_digits_end_bounds(input, p + 1);
    }
}

/// Lexing never moves backwards nor past the end, and a token other than `Eof`
/// always consumes input.
pub proof fn lemma_lex_token_advances(input: Seq<char>, p: int)
    requires
        0 <= p <= input.len(),
    ensures
        p <= lex_token(input, p).1 <= input.len(),
        lex_token(input, p).0.kind != TokenKind::Eof ==> p < lex_token(input, p).1,
        lex_token(input, p).1 == p ==> lex_token(input, p).0.kind == TokenKind::Eof,
{
    reveal(lex_token);
    let q = skip_ws(input, p);
    lemma_skip_ws_bounds(input, p);
    let c = char_at(input, q);
    if is_letter(c) {
        lemma_word_end_bounds(input, q);
        if q < input.len() {
            lemma_word_end_bounds(input, q + 1);
            assert(word_end(input, q) > q);
        }
    }
    if is_digit(c) {
        lemma_digits_end_bounds(input, q);
        if q < input.len() {
            lemma_digits_end_bounds(input, q + 1);
            assert(digits_end(input, q) > q);
        }
    }
}

/// The literal of an `Int` token is a non-empty run of decimal digits.
pub proof fn lemma_int_token_digits(input: Seq<char>, p: int)
    requires
        0 <= p <= input.len(),
        lex_token(input, p).0.kind == TokenKind::Int,
    ensures
        lex_token(input, p).0.literal.len() > 0,
        forall|i: int|
            0 <= i < lex_token(input, p).0.literal.len() ==> is_digit(
                #[trigger] lex_token(input, p).0.literal[i],
            ),
{
    reveal(lex_token);
    let q = skip_ws(input, p);
    lemma_skip_ws_bounds(input, p);
    let c = char_at(input, q);
    if is_letter(c) {
        let e = word_end(input, q);
        let w = input.subrange(q, e);
        assert(keyword_kind(w) != TokenKind::Int);
    }
    assert(is_digit(c));
    lemma_digits_end_bounds(input, q);
    lemma_digits_end_bounds(input, q + 1);
    let e = digits_end(input, q);
    assert forall|i: int| 0 <= i < e - q implies is_digit(#[trigger] input.subrange(q, e)[i]) by {
        assert(input.subrange(q, e)[i] == input[q + i]);
    }
}

/// A lexer over a fixed input, reading one token at a time.
pub struct Lexer {
    input: Vec<char>,
    position: usize,
    read_position: usize,
    ch: char,
}

impl Lexer {
    /// The text this lexer reads.
    pub closed spec fn source(&self) -> Seq<char> {
        self.input@
    }

    /// The position of the character the lexer is looking at.
    pub closed spec fn pos(&self) -> int {
        self.position as int
    }

    /// The position of the next character to read: always one past `pos()`.
    pub closed spec fn read_pos(&self) -> int {
        self.read_position as int
    }

    /// The character the lexer is looking at (`'\0'` past the end).
    pub closed spec fn current(&self) -> char {
        self.ch
    }

    /// The lexer stands at most one past the last character, reads the
    /// character after the one it looks at, and has room to count one past
    /// the end.
    pub closed spec fn wf(&self) -> bool {
        &&& self.input.len() < usize::MAX
        &&& self.position <= self.input.len()
        &&& self.read_position == self.position + 1
        &&& self.ch == char_at(self.input@, self.position as int)
    }

    /// A well-formed lexer stands within its input.
    pub proof fn lemma_pos_bounds(&self)
        requires
            self.wf(),
        ensures
            0 <= self.pos() <= self.source().len(),
    {
    }

    /// A lexer at the start of `input`: looking at its first character
    /// (`'\0'` when it is empty), with the next one to read after it. (The
    /// length bound is a machine limit: the lexer counts one past the end.)
    pub fn new(input: &str) -> (lex: Lexer)
        requires
            input@.len() < usize::MAX,
        ensures
            lex.wf(),
            lex.source() == input@,
            lex.pos() == 0,
            lex.read_pos() == 1,
            lex.current() == char_at(input@, 0),
    {
        let mut lex = Lexer { position: 0, read_position: 0, input: str_chars(input), ch: '\0' };
        lex.read_char();
        lex
    }

    /// Moves onto the next character. Past the end the lexer stays one past
    /// the last character, looking at `'\0'`, where the counters would
    /// otherwise keep growing with each read.
    fn read_char(&mut self)
        requires
            old(self).input.len() < usize::MAX,
        ensures
            final(self).wf(),
            final(self).input == old(self).input,
            final(self).position == (if old(self).read_position <= old(self).input.len() {
                old(self).read_position as int
            } else {
                old(self).input.len() as int
            }),
    {
        if self.read_position >= self.input.len() {
            self.ch = '\0';
            self.position = self.input.len();
        } else {
            self.ch = self.input[self.read_position];
            self.position = self.read_position;
        }
        self.read_position = self.position + 1;
    }

    fn peek_char(&self) -> (c: char)
        requires
            self.wf(),
        ensures
            c == char_at(self.input@, self.position + 1),
    {
        if self.read_position >= self.input.len() {
            '\0'
        } else {
            self.input[self.read_position]
        }
    }

    fn skip_whitespace(&mut self)
        requires
            old(self).wf(),
        ensures
            final(self).wf(),
            final(self).input == old(self).input,
            final(self).position == skip_ws(old(self).input@, old(self).position as int),
    {
        while self.ch == ' ' || self.ch == '\t' || self.ch == '\n' || self.ch == '\r'
            invariant
                self.wf(),
                self.input == old(self).input,
                skip_ws(self.input@, self.position as int) == skip_ws(
                    old(self).input@,
                    old(self).position as int,
                ),
            decreases self.input.len() - self.position,
        {
            self.read_char();
        }
    }

    fn read_identifier(&mut self) -> (word: String)
        requires
            old(self).wf(),
        ensures
            final(self).wf(),
            final(self).input == old(self).input,
            final(self).position == word_end(old(self).input@, old(self).position as int),
            word@ == old(self).input@.subrange(old(self).position as int, final(self).position as int),
    {
        let start = self.position;
        proof {
            lemma_word_end_bounds(self.input@, start as int);
        }
        while is_letter_char(self.ch)
            invariant
                self.wf(),
                self.input == old(self).input,
                start == old(self).position,
                start <= self.position,
                word_end(self.input@, self.position as int) == word_end(self.input@, start as int),
            decreases self.input.len() - self.position,
        {
            self.read_char();
        }
        string_from_chars(&self.input, start, self.position)
    }

    fn read_number(&mut self) -> (digits: String)
        requires
            old(self).wf(),
        ensures
            final(self).wf(),
            final(self).input == old(self).input,
            final(self).position == digits_end(old(self).input@, old(self).position as int),
            digits@ == old(self).input@.subrange(old(self).position as int, final(self).position as int),
    {
        let start = self.position;
        while is_digit_char(self.ch)
            invariant
                self.wf(),
                self.input == old(self).input,
                start == old(self).position,
                start <= self.position,
                digits_end(self.input@, self.position as int) == digits_end(self.input@, start as int),
            decreases self.input.len() - self.position,
        {
            self.read_char();
        }
        string_from_chars(&self.input, start, self.position)
    }

    /// The next token, read from where the lexer stands.
    pub fn next_token(&mut self) -> (token: Token)
        requires
            old(self).wf(),
        ensures
            final(self).wf(),
            final(self).source() == old(self).source(),
            token@ == lex_token(old(self).source(), old(self).pos()).0,
            final(self).pos() == lex_token(old(self).source(), old(self).pos()).1,
    {
        reveal(lex_token);
        self.skip_whitespace();
        let ghost q = self.position as int;
        proof {
            lemma_skip_ws_bounds(self.input@, old(self).position as int);
        }
        let c = self.ch;
        if c == '=' && self.peek_char() == '=' {
            self.read_char();
            self.read_char();
            let mut lit = char_string('=');
            lit.push('=');
            assert(lit@ =~= seq!['=', '=']);
            return Token { kind: TokenKind::Equal, literal: lit };
        }
        if c == '!' && self.peek_char() == '=' {
            self.read_char();
            self.read_char();
            let mut lit = char_string('!');
            lit.push('=');
            assert(lit@ =~= seq!['!', '=']);
            return Token { kind: TokenKind::NotEqual, literal: lit };
        }
        if c == '\0' {
            self.read_char();
            return Token { kind: TokenKind::Eof, literal: String::new() };
        }
        if is_letter_char(c) {
            let literal = self.read_identifier();
            let kind = lookup_ident(&literal);
            return Token { kind, literal };
        }
        if is_digit_char(c) {
            let literal = self.read_number();
            return Token { kind: TokenKind::Int, literal };
        }
        let kind = match single_char_kind(c) {
            Some(k) => k,
            None => TokenKind::Illegal,
        };
        let token = Lexer::new_token(kind, c);
        self.read_char();
        token
    }

    fn new_token(kind: TokenKind, ch: char) -> (token: Token)
        ensures
            token.kind == kind,
            token.literal@ == seq![ch],
    {
        Token { kind: kind, literal: char_string(ch) }
    }
}

fn is_letter_char(c: char) -> (r: bool)
    ensures
        r == is_letter(c),
{
    let u = c as u32;
    (97 <= u && u <= 122) || (65 <= u && u <= 90) || c == '_'
}

fn is_digit_char(c: char) -> (r: bool)
    ensures
        r == is_digit(c),
{
    let u = c as u32;
    48 <= u && u <= 57
}

fn single_char_kind(c: char) -> (k: Option<TokenKind>)
    ensures
        k == single_kind(c),
{
    if c == '=' {
        Some(TokenKind::Assign)
    } else if c == '+' {
        Some(TokenKind::Plus)
    } else if c == '-' {
        Some(TokenKind::Minus)
    } else if c == '!' {
        Some(TokenKind::Bang)
    } else if c == '*' {
        Some(TokenKind::Asterisk)
    } else if c == '/' {
        Some(TokenKind::Slash)
    } else if c == '<' {
        Some(TokenKind::LessThan)
    } else if c == '>' {
        Some(TokenKind::GreaterThan)
    } else if c == ';' {
        Some(TokenKind::Semicolon)
    } else if c == ',' {
        Some(TokenKind::Comma)
    } else if c == '(' {
        Some(TokenKind::Lparen)
    } else if c == ')' {
        Some(TokenKind::Rparen)
    } else if c == '{' {
        Some(TokenKind::Lbraces)
    } else if c == '}' {
        Some(TokenKind::Rbraces)
    } else {
        None
    }
}

// ---------------------------------------------------------------------------
// Laws of words.

/// An ASCII letter of either case, or `_`.
pub open spec fn is_word_char(c: char) -> bool {
    ('a' <= c && c <= 'z') || ('A' <= c && c <= 'Z') || c == '_'
}

/// Every ASCII letter, upper or lower case, and `_` is a letter; digits,
/// whitespace and the operator and delimiter characters are not.
pub proof fn law_letters(c: char)
    ensures
        is_word_char(c) ==> is_letter(c),
        is_letter(c) ==> is_word_char(c),
        is_digit(c) ==> !is_letter(c),
        is_whitespace(c) ==> !is_letter(c),
        single_kind(c) is Some ==> !is_letter(c),
{
}

proof fn lemma_word_end_of_run(input: Seq<char>, q: int, e: int)
    requires
        0 <= q <= e <= input.len(),
        forall|i: int| q <= i < e ==> is_word_char(#[trigger] input[i]),
        e == input.len() || !is_word_char(input[e]),
    ensures
        word_end(input, q) == e,
    decreases e - q,
{
    if q < e {
        law_letters(input[q]);
        lemma_word_end_of_run(input, q + 1, e);
    } else if e < input.len() {
        law_letters(input[e]);
    }
}

/// A run `w` of ASCII letters and `_` (of either case), ended by the end of
/// the input or by any other character, is read as one token whose text is
/// all of `w`: a keyword if `w` spells one, else an identifier.
pub proof fn law_word_is_one_token(input: Seq<char>, p: int, e: int)
    requires
        0 <= p < e <= input.len(),
        forall|i: int| p <= i < e ==> is_word_char(#[trigger] input[i]),
        e == input.len() || !is_word_char(input[e]),
    ensures
        lex_token(input, p) == (
            SToken { kind: keyword_kind(input.subrange(p, e)), literal: input.subrange(p, e) },
            e,
        ),
        !(input.subrange(p, e) == seq!['f', 'n'] || input.subrange(p, e) == seq!['l', 'e', 't']
            || input.subrange(p, e) == seq!['t', 'r', 'u', 'e'] || input.subrange(p, e) == seq![
            'f',
            'a',
            'l',
            's',
            'e',
        ] || input.subrange(p, e) == seq!['i', 'f'] || input.subrange(p, e) == seq!['e', 'l', 's', 'e']
            || input.subrange(p, e) == seq!['r', 'e', 't', 'u', 'r', 'n']) ==> lex_token(input, p).0.kind
            == TokenKind::Ident,
{
    reveal(lex_token);
    assert(is_word_char(input[p]));
    law_letters(input[p]);
    assert(skip_ws(input, p) == p);
    lemma_word_end_of_run(input, p, e);
}

/// Spaces, tabs and line breaks before a token are skipped: the token read
/// from a blank is the one read from just after it.
pub proof fn law_blanks_skipped(input: Seq<char>, p: int)
    requires
        0 <= p < input.len(),
        input[p] == ' ' || input[p] == '\t' || input[p] == '\n' || input[p] == '\r',
    ensures
        lex_token(input, p) == lex_token(input, p + 1),
{
    reveal(lex_token);
}

proof fn lemma_decimal_digit(c: char)
    ensures
        is_digit(c) <==> ('0' <= c && c <= '9'),
{
}

proof fn lemma_digits_end_of_run(input: Seq<char>, q: int, e: int)
    requires
        0 <= q <= e <= input.len(),
        forall|i: int| q <= i < e ==> '0' <= #[trigger] input[i] && input[i] <= '9',
        e == input.len() || !('0' <= input[e] && input[e] <= '9'),
    ensures
        digits_end(input, q) == e,
    decreases e - q,
{
    if q < e {
        lemma_decimal_digit(input[q]);
        lemma_digits_end_of_run(input, q + 1, e);
    } else if e < input.len() {
        lemma_decimal_digit(input[e]);
    }
}

/// A run of decimal digits, ended by the end of the input or by any other
/// character, is read as one integer token whose text is all of the run.
pub proof fn law_digits_are_one_token(input: Seq<char>, p: int, e: int)
    requires
        0 <= p < e <= input.len(),
        forall|i: int| p <= i < e ==> '0' <= #[trigger] input[i] && input[i] <= '9',
        e == input.len() || !('0' <= input[e] && input[e] <= '9'),
    ensures
        lex_token(input, p) == (
            SToken { kind: TokenKind::Int, literal: input.subrange(p, e) },
            e,
        ),
{
    reveal(lex_token);
    assert('0' <= input[p] && input[p] <= '9');
    lemma_decimal_digit(input[p]);
    law_letters(input[p]);
    assert(skip_ws(input, p) == p);
    lemma_digits_end_of_run(input, p, e);
}

/// Each operator and delimiter character is a token of its own, but for
/// `==` and `!=`, which are read as one token each.
pub proof fn law_operator_tokens(input: Seq<char>, p: int)
    requires
        0 <= p < input.len(),
    ensures
        input[p] == '=' && char_at(input, p + 1) == '=' ==> lex_token(input, p) == (
            SToken { kind: TokenKind::Equal, literal: seq!['=', '='] },
            p + 2,
        ),
        input[p] == '!' && char_at(input, p + 1) == '=' ==> lex_token(input, p) == (
            SToken { kind: TokenKind::NotEqual, literal: seq!['!', '='] },
            p + 2,
        ),
        input[p] == '=' && char_at(input, p + 1) != '=' ==> lex_token(input, p) == (
            SToken { kind: TokenKind::Assign, literal: seq!['='] },
            p + 1,
        ),
        input[p] == '!' && char_at(input, p + 1) != '=' ==> lex_token(input, p) == (
            SToken { kind: TokenKind::Bang, literal: seq!['!'] },
            p + 1,
        ),
        input[p] == '+' ==> lex_token(input, p) == (
            SToken { kind: TokenKind::Plus, literal: seq!['+'] },
            p + 1,
        ),
        input[p] == '-' ==> lex_token(input, p) == (
            SToken { kind: TokenKind::Minus, literal: seq!['-'] },
            p + 1,
        ),
        input[p] == '*' ==> lex_token(input, p) == (
            SToken { kind: TokenKind::Asterisk, literal: seq!['*'] },
            p + 1,
        ),
        input[p] == '/' ==> lex_token(input, p) == (
            SToken { kind: TokenKind::Slash, literal: seq!['/'] },
            p + 1,
        ),
        input[p] == '<' ==> lex_token(input, p) == (
            SToken { kind: TokenKind::LessThan, literal: seq!['<'] },
            p + 1,
        ),
        input[p] == '>' ==> lex_token(input, p) == (
            SToken { kind: TokenKind::GreaterThan, literal: seq!['>'] },
            p + 1,
        ),
        input[p] == ',' ==> lex_token(input, p) == (
            SToken { kind: TokenKind::Comma, literal: seq![','] },
            p + 1,
        ),
        input[p] == ';' ==> lex_token(input, p) == (
            SToken { kind: TokenKind::Semicolon, literal: seq![';'] },
            p + 1,
        ),
        input[p] == '(' ==> lex_token(input, p) == (
            SToken { kind: TokenKind::Lparen, literal: seq!['('] },
            p + 1,
        ),
        input[p] == ')' ==> lex_token(input, p) == (
            SToken { kind: TokenKind::Rparen, literal: seq![')'] },
            p + 1,
        ),
        input[p] == '{' ==> lex_token(input, p) == (
            SToken { kind: TokenKind::Lbraces, literal: seq!['{'] },
            p + 1,
        ),
        input[p] == '}' ==> lex_token(input, p) == (
            SToken { kind: TokenKind::Rbraces, literal: seq!['}'] },
            p + 1,
        ),
{
    reveal(lex_token);
    if !is_whitespace(input[p]) {
        assert(skip_ws(input, p) == p);
    }
}

/// The end of the input, and anything after it, reads as `Eof` with no text.
pub proof fn law_end_is_eof(input: Seq<char>)
    ensures
        lex_token(input, input.len() as int) == (
            SToken { kind: TokenKind::Eof, literal: seq![] },
            input.len() as int,
        ),
{
    reveal(lex_token);
    assert(skip_ws(input, input.len() as int) == input.len());
}

} // verus!
