//! The abstract syntax tree, its mathematical model, and how it prints.
use vstd::prelude::*;
use vstd::string::*;
use crate::text::{join_spec, join_strings, string_views};
use crate::token::{default_token, SToken, Token};

verus! {

/// A statement.
#[derive(Debug)]
pub enum StatementNode {
    Let(LetStatement),
    Return(ReturnStatement),
    Expression(ExpressionStatement),
    Block(BlockStatement),
}

/// An expression.
#[derive(Debug)]
pub enum ExpressionNode {
    Empty,
    IdentifierNode(Identifier),
    Integer(IntegerLiteral),
    Prefix(PrefixExpression),
    Infix(InfixExpression),
    BooleanNode(Boolean),
    If(IfExpression),
    Funcion(FunctionLiteral),
    Call(CallExpression),
}

/// A whole program: its statements in order.
#[derive(Debug)]
pub struct Program {
    pub statements: Vec<StatementNode>,
}

/// `let <name> = <value>;`
#[derive(Debug)]
pub struct LetStatement {
    pub token: Token,
    pub name: Identifier,
    pub value: Option<ExpressionNode>,
}

/// A name.
#[derive(Debug)]
pub struct Identifier {
    pub token: Token,
    pub value: String,
}

/// `return <value>;`
#[derive(Debug)]
pub struct ReturnStatement {
    pub token: Token,
    pub ret_value: Option<ExpressionNode>,
}

/// An expression used as a statement.
#[derive(Debug)]
pub struct ExpressionStatement {
    pub token: Token,
    pub expression: Option<ExpressionNode>,
}

/// An integer literal.
#[derive(Debug)]
pub struct IntegerLiteral {
    pub token: Token,
    pub value: i64,
}

/// `<operator><right>`
#[derive(Debug)]
pub struct PrefixExpression {
    pub token: Token,
    pub operator: String,
    pub right: Box<ExpressionNode>,
}

/// `<left> <operator> <right>`
#[derive(Debug)]
pub struct InfixExpression {
    pub token: Token,
    pub left: Box<ExpressionNode>,
    pub operator: String,
    pub right: Box<ExpressionNode>,
}

/// `true` or `false`.
#[derive(Debug)]
pub struct Boolean {
    pub token: Token,
    pub value: bool,
}

/// `if (<condition>) { .. } else { .. }`
#[derive(Debug)]
pub struct IfExpression {
    pub token: Token,
    pub condition: Box<ExpressionNode>,
    pub consequence: BlockStatement,
    pub alternative: Option<BlockStatement>,
}

/// `{ <statements> }`
#[derive(Debug)]
pub struct BlockStatement {
    pub token: Token,
    pub statements: Vec<StatementNode>,
}

/// `fn(<parameters>) { .. }`
#[derive(Debug)]
pub struct FunctionLiteral {
    pub token: Token,
    pub parameters: Vec<Identifier>,
    pub body: BlockStatement,
}

/// `<function>(<arguments>)`
#[derive(Debug)]
pub struct CallExpression {
    pub token: Token,
    pub function: Box<ExpressionNode>,
    pub arguments: Vec<ExpressionNode>,
}

// ---------------------------------------------------------------------------
// The mathematical model of the tree.

pub struct SIdent {
    pub token: SToken,
    pub value: Seq<char>,
}

pub enum SExpr {
    Empty,
    Ident(SIdent),
    Int { token: SToken, value: i64 },
    Prefix { token: SToken, operator: Seq<char>, right: Box<SExpr> },
    Infix { token: SToken, left: Box<SExpr>, operator: Seq<char>, right: Box<SExpr> },
    Bool { token: SToken, value: bool },
    If { token: SToken, condition: Box<SExpr>, consequence: SBlock, alternative: Option<SBlock> },
    Func { token: SToken, parameters: Seq<SIdent>, body: SBlock },
    Call { token: SToken, function: Box<SExpr>, arguments: Seq<SExpr> },
}

pub struct SBlock {
    pub token: SToken,
    pub statements: Seq<SStmt>,
}

pub enum SStmt {
    Let { token: SToken, name: SIdent, value: Option<SExpr> },
    Return { token: SToken, value: Option<SExpr> },
    Expr { token: SToken, expression: Option<SExpr> },
    Block(SBlock),
}

pub open spec fn ident_model(i: Identifier) -> SIdent {
    SIdent { token: i.token@, value: i.value@ }
}

pub open spec fn idents_model(v: Seq<Identifier>) -> Seq<SIdent> {
    v.map_values(|i: Identifier| ident_model(i))
}

#[verifier::opaque]
pub open spec fn expr_model(e: ExpressionNode) -> SExpr
    decreases e,
{
    match e {
        ExpressionNode::Empty => SExpr::Empty,
        ExpressionNode::IdentifierNode(i) => SExpr::Ident(ident_model(i)),
        ExpressionNode::Integer(i) => SExpr::Int { token: i.token@, value: i.value },
        ExpressionNode::Prefix(p) => SExpr::Prefix {
            token: p.token@,
            operator: p.operator@,
            right: Box::new(expr_model(*p.right)),
        },
        ExpressionNode::Infix(p) => SExpr::Infix {
            token: p.token@,
            left: Box::new(expr_model(*p.left)),
            operator: p.operator@,
            right: Box::new(expr_model(*p.right)),
        },
        ExpressionNode::BooleanNode(b) => SExpr::Bool { token: b.token@, value: b.value },
        ExpressionNode::If(i) => SExpr::If {
            token: i.token@,
            condition: Box::new(expr_model(*i.condition)),
            consequence: block_model(i.consequence),
            alternative: match i.alternative {
                Some(b) => Some(block_model(b)),
                None => None,
            },
        },
        ExpressionNode::Funcion(f) => SExpr::Func {
            token: f.token@,
            parameters: idents_model(f.parameters@),
            body: block_model(f.body),
        },
        ExpressionNode::Call(c) => SExpr::Call {
            token: c.token@,
            function: Box::new(expr_model(*c.function)),
            arguments: Seq::new(
                c.arguments@.len(),
                |k: int|
                    if 0 <= k < c.arguments@.len() {
                        expr_model(c.arguments@[k])
                    } else {
                        SExpr::Empty
                    },
            ),
        },
    }
}

#[verifier::opaque]
pub open spec fn opt_expr_model(e: Option<ExpressionNode>) -> Option<SExpr>
    decreases e,
{
    match e {
        Some(x) => Some(expr_model(x)),
        None => None,
    }
}

#[verifier::opaque]
pub open spec fn block_model(b: BlockStatement) -> SBlock
    decreases b,
{
    SBlock { token: b.token@, statements: stmts_model(b.statements) }
}

#[verifier::opaque]
pub open spec fn stmts_model(v: Vec<StatementNode>) -> Seq<SStmt>
    decreases v,
{
    Seq::new(
        v@.len(),
        |k: int|
            if 0 <= k < v@.len() {
                stmt_model(v@[k])
            } else {
                SStmt::Block(SBlock { token: SToken { kind: crate::token::TokenKind::Illegal, literal: seq![] }, statements: seq![] })
            },
    )
}

#[verifier::opaque]
pub open spec fn stmt_model(s: StatementNode) -> SStmt
    decreases s,
{
    match s {
        StatementNode::Let(l) => SStmt::Let {
            token: l.token@,
            name: ident_model(l.name),
            value: opt_expr_model(l.value),
        },
        StatementNode::Return(r) => SStmt::Return { token: r.token@, value: opt_expr_model(r.ret_value) },
        StatementNode::Expression(x) => SStmt::Expr {
            token: x.token@,
            expression: opt_expr_model(x.expression),
        },
        StatementNode::Block(b) => SStmt::Block(block_model(b)),
    }
}

// ---------------------------------------------------------------------------
// How the tree prints.

/// The concatenation of `parts`, in order.
pub open spec fn concat_spec(parts: Seq<Seq<char>>) -> Seq<char>
    decreases parts.len(),
{
    if parts.len() == 0 {
        seq![]
    } else {
        concat_spec(parts.drop_last()) + parts.last()
    }
}

pub open spec fn ident_values(v: Seq<SIdent>) -> Seq<Seq<char>> {
    v.map_values(|i: SIdent| i.value)
}

/// How an expression prints: prefix and infix expressions fully parenthesized.
pub open spec fn print_expr(e: SExpr) -> Seq<char>
    decreases e,
{
    match e {
        SExpr::Empty => seq![],
        SExpr::Ident(i) => i.value,
        SExpr::Int { token, .. } => token.literal,
        SExpr::Prefix { operator, right, .. } => "("@ + operator + print_expr(*right) + ")"@,
        SExpr::Infix { left, operator, right, .. } => "("@ + print_expr(*left) + " "@ + operator
            + " "@ + print_expr(*right) + ")"@,
        SExpr::Bool { token, .. } => token.literal,
        SExpr::If { condition, consequence, alternative, .. } => "if"@ + print_expr(*condition)
            + " "@ + print_block(consequence) + match alternative {
            Some(b) => "else "@ + print_block(b),
            None => seq![],
        },
        SExpr::Func { token, parameters, body } => token.literal + "("@ + join_spec(
            ident_values(parameters),
            ", "@,
        ) + ")"@ + print_block(body),
        SExpr::Call { function, arguments, .. } => print_expr(*function) + "("@ + print_args(
            arguments,
        ) + ")"@,
    }
}

/// The printed arguments of a call, separated by `", "`.
pub open spec fn print_args(v: Seq<SExpr>) -> Seq<char>
    decreases v,
{
    if v.len() == 0 {
        seq![]
    } else if v.len() == 1 {
        print_expr(v[0])
    } else {
        print_args(v.subrange(0, v.len() - 1)) + ", "@ + print_expr(v[v.len() - 1])
    }
}

/// How a block prints: its statements one after another.
pub open spec fn print_block(b: SBlock) -> Seq<char>
    decreases b,
{
    print_stmts(b.statements)
}

pub open spec fn print_stmts(v: Seq<SStmt>) -> Seq<char>
    decreases v,
{
    if v.len() == 0 {
        seq![]
    } else {
        print_stmts(v.subrange(0, v.len() - 1)) + print_stmt(v[v.len() - 1])
    }
}

/// How a statement prints.
pub open spec fn print_stmt(s: SStmt) -> Seq<char>
    decreases s,
{
    match s {
        SStmt::Let { token, name, value } => token.literal + " "@ + name.value + " = "@ + match value {
            Some(v) => print_expr(v),
            None => seq![],
        } + ";"@,
        SStmt::Return { token, value } => token.literal + " "@ + match value {
            Some(v) => print_expr(v),
            None => seq![],
        } + ";"@,
        SStmt::Expr { expression, .. } => match expression {
            Some(v) => print_expr(v),
            None => seq![],
        },
        SStmt::Block(b) => print_block(b),
    }
}

/// The literal of the token an expression starts with (empty for no expression).
pub open spec fn expr_literal(e: SExpr) -> Seq<char> {
    match e {
        SExpr::Empty => seq![],
        SExpr::Ident(i) => i.token.literal,
        SExpr::Int { token, .. } => token.literal,
        SExpr::Prefix { token, .. } => token.literal,
        SExpr::Infix { token, .. } => token.literal,
        SExpr::Bool { token, .. } => token.literal,
        SExpr::If { token, .. } => token.literal,
        SExpr::Func { token, .. } => token.literal,
        SExpr::Call { token, .. } => token.literal,
    }
}

/// The literal of the token a statement starts with.
pub open spec fn stmt_literal(s: SStmt) -> Seq<char> {
    match s {
        SStmt::Let { token, .. } => token.literal,
        SStmt::Return { token, .. } => token.literal,
        SStmt::Expr { token, .. } => token.literal,
        SStmt::Block(b) => b.token.literal,
    }
}

fn print_expression(e: &ExpressionNode) -> (s: String)
    ensures
        s@ == print_expr(expr_model(*e)),
    decreases e,
{
    proof {
        lemma_expr_model(*e);
    }
    match e {
        ExpressionNode::Empty => {
            let out = String::new();
            assert(out@ =~= print_expr(expr_model(*e)));
            out
        },
        ExpressionNode::IdentifierNode(i) => i.value.clone(),
        ExpressionNode::Integer(i) => i.token.literal.clone(),
        ExpressionNode::Prefix(p) => print_prefix(p),
        ExpressionNode::Infix(p) => print_infix(p),
        ExpressionNode::BooleanNode(b) => b.token.literal.clone(),
        ExpressionNode::If(i) => print_if(i),
        ExpressionNode::Funcion(f) => print_function(f),
        ExpressionNode::Call(c) => print_call(c),
    }
}

fn print_prefix(p: &PrefixExpression) -> (s: String)
    ensures
        s@ == print_expr(expr_model(ExpressionNode::Prefix(*p))),
    decreases p,
{
    proof {
        lemma_expr_model(ExpressionNode::Prefix(*p));
    }
    let mut out = String::new();
    out.append("(");
    out.append(p.operator.as_str());
    let right = print_expression(&p.right);
    out.append(right.as_str());
    out.append(")");
    out
}

fn print_infix(p: &InfixExpression) -> (s: String)
    ensures
        s@ == print_expr(expr_model(ExpressionNode::Infix(*p))),
    decreases p,
{
    proof {
        lemma_expr_model(ExpressionNode::Infix(*p));
    }
    let mut out = String::new();
    out.append("(");
    let left = print_expression(&p.left);
    out.append(left.as_str());
    out.append(" ");
    out.append(p.operator.as_str());
    out.append(" ");
    let right = print_expression(&p.right);
    out.append(right.as_str());
    out.append(")");
    out
}

fn print_if(i: &IfExpression) -> (s: String)
    ensures
        s@ == print_expr(expr_model(ExpressionNode::If(*i))),
    decreases i,
{
    proof {
        lemma_expr_model(ExpressionNode::If(*i));
        lemma_block_model(i.consequence);
        if let Some(b) = &i.alternative {
            lemma_block_model(*b);
        }
    }
    let mut out = String::new();
    out.append("if");
    let cond = print_expression(&i.condition);
    out.append(cond.as_str());
    out.append(" ");
    let cons = print_statements(&i.consequence.statements);
    assert(block_model(i.consequence).statements == stmts_model(i.consequence.statements));
    out.append(cons.as_str());
    let ghost before_alt = out@;
    assert(cond@ == print_expr(expr_model(*i.condition)));
    match &i.alternative {
        Some(alt) => {
            out.append("else ");
            let a = print_statements(&alt.statements);
            assert(block_model(*alt).statements == stmts_model(alt.statements));
            out.append(a.as_str());
            assert(out@ =~= before_alt + ("else "@ + print_block(block_model(*alt))));
        },
        None => {
            assert(out@ =~= before_alt + seq![]);
        },
    }
    let ghost alt_model = match &i.alternative {
        Some(b) => Some(block_model(*b)),
        None => None,
    };
    let ghost m = expr_model(ExpressionNode::If(*i));
    assert(m == SExpr::If {
        token: i.token@,
        condition: Box::new(expr_model(*i.condition)),
        consequence: block_model(i.consequence),
        alternative: alt_model,
    });
    assert(cons@ == print_block(block_model(i.consequence)));
    assert(out@ =~= "if"@ + print_expr(expr_model(*i.condition)) + " "@ + print_block(
        block_model(i.consequence),
    ) + match alt_model {
        Some(b) => "else "@ + print_block(b),
        None => seq![],
    });
    out
}

fn print_function(f: &FunctionLiteral) -> (s: String)
    ensures
        s@ == print_expr(expr_model(ExpressionNode::Funcion(*f))),
    decreases f,
{
    proof {
        lemma_expr_model(ExpressionNode::Funcion(*f));
        lemma_block_model(f.body);
    }
    let mut params: Vec<String> = Vec::new();
    let mut k: usize = 0;
    while k < f.parameters.len()
        invariant
            k <= f.parameters.len(),
            params@.len() == k,
            forall|j: int| 0 <= j < k ==> #[trigger] params@[j]@ == f.parameters@[j].value@,
        decreases f.parameters.len() - k,
    {
        params.push(f.parameters[k].value.clone());
        k = k + 1;
    }
    assert(string_views(params@) =~= ident_values(idents_model(f.parameters@)));
    let mut out = f.token.literal.clone();
    out.append("(");
    let joined = join_strings(&params, ", ");
    out.append(joined.as_str());
    out.append(")");
    let body = print_statements(&f.body.statements);
    assert(block_model(f.body).statements == stmts_model(f.body.statements));
    out.append(body.as_str());
    let ghost m = expr_model(ExpressionNode::Funcion(*f));
    assert(m == SExpr::Func {
        token: f.token@,
        parameters: idents_model(f.parameters@),
        body: block_model(f.body),
    });
    assert(joined@ == join_spec(ident_values(idents_model(f.parameters@)), ", "@));
    assert(body@ == print_block(block_model(f.body)));
    out
}

#[verifier::loop_isolation(false)]
fn print_call(c: &CallExpression) -> (s: String)
    ensures
        s@ == print_expr(expr_model(ExpressionNode::Call(*c))),
    decreases c,
{
    proof {
        lemma_expr_model(ExpressionNode::Call(*c));
    }
    let ghost args_model = match expr_model(ExpressionNode::Call(*c)) {
        SExpr::Call { arguments, .. } => arguments,
        _ => seq![],
    };
    assert(args_model.len() == c.arguments@.len());
    assert(forall|j: int|
        0 <= j < c.arguments@.len() ==> #[trigger] args_model[j] == expr_model(c.arguments@[j]));
    let mut out = print_expression(&c.function);
    out.append("(");
    let ghost start = out@;
    let mut k: usize = 0;
    while k < c.arguments.len()
        invariant
            k <= c.arguments.len(),
            out@ == start + print_args(args_model.take(k as int)),
        decreases c.arguments.len() - k,
    {
        proof {
            assert(decreases_to!(*c => c.arguments@[k as int]));
        }
        if k != 0 {
            out.append(", ");
        }
        let a = print_expression(&c.arguments[k]);
        out.append(a.as_str());
        assert(args_model.take(k + 1).subrange(0, k as int) =~= args_model.take(k as int));
        k = k + 1;
    }
    assert(args_model.take(c.arguments.len() as int) =~= args_model);
    out.append(")");
    out
}

fn print_statements(v: &Vec<StatementNode>) -> (s: String)
    ensures
        s@ == print_stmts(stmts_model(*v)),
    decreases v,
{
    proof {
        lemma_stmts_model(*v);
    }
    let mut out = String::new();
    let ghost m = stmts_model(*v);
    let mut k: usize = 0;
    while k < v.len()
        invariant
            k <= v.len(),
            m == stmts_model(*v),
            out@ == print_stmts(m.take(k as int)),
        decreases v.len() - k,
    {
        proof {
            lemma_stmts_model(*v);
        }
        let p = print_statement(&v[k]);
        out.append(p.as_str());
        assert(m.take(k + 1).subrange(0, k as int) =~= m.take(k as int));
        k = k + 1;
    }
    assert(m.take(v.len() as int) =~= m);
    out
}

fn print_statement(st: &StatementNode) -> (s: String)
    ensures
        s@ == print_stmt(stmt_model(*st)),
    decreases st,
{
    proof {
        lemma_stmt_model(*st);
        if let StatementNode::Block(b) = st {
            lemma_block_model(*b);
        }
    }
    match st {
        StatementNode::Let(l) => print_let(l),
        StatementNode::Return(r) => print_return(r),
        StatementNode::Expression(x) => print_expression_statement(x),
        StatementNode::Block(b) => print_statements(&b.statements),
    }
}

fn print_let(l: &LetStatement) -> (s: String)
    ensures
        s@ == print_stmt(stmt_model(StatementNode::Let(*l))),
    decreases l,
{
    proof {
        lemma_stmt_model(StatementNode::Let(*l));
        lemma_opt_expr_model(l.value);
    }
    let mut out = l.token.literal.clone();
    out.append(" ");
    out.append(l.name.value.as_str());
    out.append(" = ");
    match &l.value {
        Some(v) => {
            let p = print_expression(v);
            out.append(p.as_str());
        },
        None => {},
    }
    out.append(";");
    out
}

fn print_return(r: &ReturnStatement) -> (s: String)
    ensures
        s@ == print_stmt(stmt_model(StatementNode::Return(*r))),
    decreases r,
{
    proof {
        lemma_stmt_model(StatementNode::Return(*r));
        lemma_opt_expr_model(r.ret_value);
    }
    let mut out = r.token.literal.clone();
    out.append(" ");
    match &r.ret_value {
        Some(v) => {
            let p = print_expression(v);
            out.append(p.as_str());
        },
        None => {},
    }
    out.append(";");
    out
}

fn print_expression_statement(x: &ExpressionStatement) -> (s: String)
    ensures
        s@ == print_stmt(stmt_model(StatementNode::Expression(*x))),
    decreases x,
{
    proof {
        lemma_stmt_model(StatementNode::Expression(*x));
        lemma_opt_expr_model(x.expression);
    }
    match &x.expression {
        Some(v) => print_expression(v),
        None => {
            let out = String::new();
            assert(out@ =~= seq![]);
            out
        },
    }
}

/// What every node of the tree offers: the literal of the token it starts
/// with, and how it prints.
pub trait Node {
    spec fn literal_spec(&self) -> Seq<char>;

    spec fn print_spec(&self) -> Seq<char>;

    fn token_literal(&self) -> (s: String)
        ensures
            s@ == self.literal_spec(),
    ;

    fn print_string(&self) -> (s: String)
        ensures
            s@ == self.print_spec(),
    ;
}

impl Node for StatementNode {
    open spec fn literal_spec(&self) -> Seq<char> {
        stmt_literal(stmt_model(*self))
    }

    open spec fn print_spec(&self) -> Seq<char> {
        print_stmt(stmt_model(*self))
    }

    fn token_literal(&self) -> (s: String) {
        proof {
            lemma_stmt_model(*self);
            if let StatementNode::Block(b) = self {
                lemma_block_model(*b);
            }
        }
        match self {
            StatementNode::Let(stmt) => stmt.token.literal.clone(),
            StatementNode::Return(stmt) => stmt.token.literal.clone(),
            StatementNode::Expression(stmt) => stmt.token.literal.clone(),
            StatementNode::Block(stmt) => stmt.token.literal.clone(),
        }
    }

    fn print_string(&self) -> (s: String) {
        print_statement(self)
    }
}

impl Node for ExpressionNode {
    open spec fn literal_spec(&self) -> Seq<char> {
        expr_literal(expr_model(*self))
    }

    open spec fn print_spec(&self) -> Seq<char> {
        print_expr(expr_model(*self))
    }

    fn token_literal(&self) -> (s: String) {
        proof {
            lemma_expr_model(*self);
        }
        match self {
            ExpressionNode::IdentifierNode(x) => x.token.literal.clone(),
            ExpressionNode::Integer(x) => x.token.literal.clone(),
            ExpressionNode::Prefix(x) => x.token.literal.clone(),
            ExpressionNode::Infix(x) => x.token.literal.clone(),
            ExpressionNode::BooleanNode(x) => x.token.literal.clone(),
            ExpressionNode::If(x) => x.token.literal.clone(),
            ExpressionNode::Funcion(x) => x.token.literal.clone(),
            ExpressionNode::Call(x) => x.token.literal.clone(),
            ExpressionNode::Empty => {
                let out = String::new();
                assert(out@ =~= seq![]);
                out
            },
        }
    }

    fn print_string(&self) -> (s: String) {
        print_expression(self)
    }
}

impl Node for Program {
    open spec fn literal_spec(&self) -> Seq<char> {
        if self.statements@.len() > 0 {
            stmt_literal(stmt_model(self.statements@[0]))
        } else {
            seq![]
        }
    }

    open spec fn print_spec(&self) -> Seq<char> {
        print_stmts(stmts_model(self.statements))
    }

    fn token_literal(&self) -> (s: String) {
        if self.statements.len() > 0 {
            self.statements[0].token_literal()
        } else {
            let out = String::new();
            assert(out@ =~= seq![]);
            out
        }
    }

    fn print_string(&self) -> (s: String) {
        print_statements(&self.statements)
    }
}

impl Node for BlockStatement {
    open spec fn literal_spec(&self) -> Seq<char> {
        self.token.literal@
    }

    open spec fn print_spec(&self) -> Seq<char> {
        print_stmts(stmts_model(self.statements))
    }

    fn token_literal(&self) -> (s: String) {
        self.token.literal.clone()
    }

    fn print_string(&self) -> (s: String) {
        print_statements(&self.statements)
    }
}

impl Node for Identifier {
    open spec fn literal_spec(&self) -> Seq<char> {
        self.token.literal@
    }

    open spec fn print_spec(&self) -> Seq<char> {
        self.value@
    }

    fn token_literal(&self) -> (s: String) {
        self.token.literal.clone()
    }

    fn print_string(&self) -> (s: String) {
        self.value.clone()
    }
}

impl Node for LetStatement {
    open spec fn literal_spec(&self) -> Seq<char> {
        self.token.literal@
    }

    open spec fn print_spec(&self) -> Seq<char> {
        print_stmt(stmt_model(StatementNode::Let(*self)))
    }

    fn token_literal(&self) -> (s: String) {
        self.token.literal.clone()
    }

    fn print_string(&self) -> (s: String) {
        print_let(self)
    }
}

impl Node for ReturnStatement {
    open spec fn literal_spec(&self) -> Seq<char> {
        self.token.literal@
    }

    open spec fn print_spec(&self) -> Seq<char> {
        print_stmt(stmt_model(StatementNode::Return(*self)))
    }

    fn token_literal(&self) -> (s: String) {
        self.token.literal.clone()
    }

    fn print_string(&self) -> (s: String) {
        print_return(self)
    }
}

impl Node for ExpressionStatement {
    open spec fn literal_spec(&self) -> Seq<char> {
        self.token.literal@
    }

    open spec fn print_spec(&self) -> Seq<char> {
        print_stmt(stmt_model(StatementNode::Expression(*self)))
    }

    fn token_literal(&self) -> (s: String) {
        self.token.literal.clone()
    }

    fn print_string(&self) -> (s: String) {
        print_expression_statement(self)
    }
}

impl Node for IntegerLiteral {
    open spec fn literal_spec(&self) -> Seq<char> {
        self.token.literal@
    }

    open spec fn print_spec(&self) -> Seq<char> {
        self.token.literal@
    }

    fn token_literal(&self) -> (s: String) {
        self.token.literal.clone()
    }

    fn print_string(&self) -> (s: String) {
        self.token.literal.clone()
    }
}

impl Node for Boolean {
    open spec fn literal_spec(&self) -> Seq<char> {
        self.token.literal@
    }

    open spec fn print_spec(&self) -> Seq<char> {
        self.token.literal@
    }

    fn token_literal(&self) -> (s: String) {
        self.token.literal.clone()
    }

    fn print_string(&self) -> (s: String) {
        self.token.literal.clone()
    }
}

impl Node for PrefixExpression {
    open spec fn literal_spec(&self) -> Seq<char> {
        self.token.literal@
    }

    open spec fn print_spec(&self) -> Seq<char> {
        print_expr(expr_model(ExpressionNode::Prefix(*self)))
    }

    fn token_literal(&self) -> (s: String) {
        self.token.literal.clone()
    }

    fn print_string(&self) -> (s: String) {
        print_prefix(self)
    }
}

impl Node for InfixExpression {
    open spec fn literal_spec(&self) -> Seq<char> {
        self.token.literal@
    }

    open spec fn print_spec(&self) -> Seq<char> {
        print_expr(expr_model(ExpressionNode::Infix(*self)))
    }

    fn token_literal(&self) -> (s: String) {
        self.token.literal.clone()
    }

    fn print_string(&self) -> (s: String) {
        print_infix(self)
    }
}

impl Node for IfExpression {
    open spec fn literal_spec(&self) -> Seq<char> {
        self.token.literal@
    }

    open spec fn print_spec(&self) -> Seq<char> {
        print_expr(expr_model(ExpressionNode::If(*self)))
    }

    fn token_literal(&self) -> (s: String) {
        self.token.literal.clone()
    }

    fn print_string(&self) -> (s: String) {
        print_if(self)
    }
}

impl Node for FunctionLiteral {
    open spec fn literal_spec(&self) -> Seq<char> {
        self.token.literal@
    }

    open spec fn print_spec(&self) -> Seq<char> {
        print_expr(expr_model(ExpressionNode::Funcion(*self)))
    }

    fn token_literal(&self) -> (s: String) {
        self.token.literal.clone()
    }

    fn print_string(&self) -> (s: String) {
        print_function(self)
    }
}

impl Node for CallExpression {
    open spec fn literal_spec(&self) -> Seq<char> {
        self.token.literal@
    }

    open spec fn print_spec(&self) -> Seq<char> {
        print_expr(expr_model(ExpressionNode::Call(*self)))
    }

    fn token_literal(&self) -> (s: String) {
        self.token.literal.clone()
    }

    fn print_string(&self) -> (s: String) {
        print_call(self)
    }
}

/// The models of the expressions of a sequence, in order.
pub open spec fn exprs_model(v: Seq<ExpressionNode>) -> Seq<SExpr> {
    v.map_values(|e: ExpressionNode| expr_model(e))
}

/// The model of an expression, one level down.
pub proof fn lemma_expr_model(e: ExpressionNode)
    ensures
        expr_model(e) == (match e {
            ExpressionNode::Empty => SExpr::Empty,
            ExpressionNode::IdentifierNode(i) => SExpr::Ident(ident_model(i)),
            ExpressionNode::Integer(i) => SExpr::Int { token: i.token@, value: i.value },
            ExpressionNode::Prefix(p) => SExpr::Prefix {
                token: p.token@,
                operator: p.operator@,
                right: Box::new(expr_model(*p.right)),
            },
            ExpressionNode::Infix(p) => SExpr::Infix {
                token: p.token@,
                left: Box::new(expr_model(*p.left)),
                operator: p.operator@,
                right: Box::new(expr_model(*p.right)),
            },
            ExpressionNode::BooleanNode(b) => SExpr::Bool { token: b.token@, value: b.value },
            ExpressionNode::If(i) => SExpr::If {
                token: i.token@,
                condition: Box::new(expr_model(*i.condition)),
                consequence: block_model(i.consequence),
                alternative: match i.alternative {
                    Some(b) => Some(block_model(b)),
                    None => None,
                },
            },
            ExpressionNode::Funcion(f) => SExpr::Func {
                token: f.token@,
                parameters: idents_model(f.parameters@),
                body: block_model(f.body),
            },
            ExpressionNode::Call(c) => SExpr::Call {
                token: c.token@,
                function: Box::new(expr_model(*c.function)),
                arguments: exprs_model(c.arguments@),
            },
        }),
{
    reveal(expr_model);
    reveal(opt_expr_model);
    reveal(block_model);
    reveal(stmts_model);
    reveal(stmt_model);
    match e {
        ExpressionNode::Call(c) => {
            let args = c.arguments@;
            let m = expr_model(e);
            assert(m is Call);
            assert(m->arguments.len() == args.len());
            assert forall|k: int| 0 <= k < args.len() implies m->arguments[k] == exprs_model(args)[k] by {}
            assert(m->arguments =~= exprs_model(args));
        },
        _ => {},
    }
}

pub proof fn lemma_opt_expr_model(e: Option<ExpressionNode>)
    ensures
        opt_expr_model(e) == (match e {
            Some(x) => Some(expr_model(x)),
            None => None,
        }),
{
    reveal(opt_expr_model);
    reveal(expr_model);
    reveal(block_model);
    reveal(stmts_model);
    reveal(stmt_model);
}

/// The model of a statement, one level down.
pub proof fn lemma_stmt_model(s: StatementNode)
    ensures
        stmt_model(s) == (match s {
            StatementNode::Let(l) => SStmt::Let {
                token: l.token@,
                name: ident_model(l.name),
                value: opt_expr_model(l.value),
            },
            StatementNode::Return(r) => SStmt::Return {
                token: r.token@,
                value: opt_expr_model(r.ret_value),
            },
            StatementNode::Expression(x) => SStmt::Expr {
                token: x.token@,
                expression: opt_expr_model(x.expression),
            },
            StatementNode::Block(b) => SStmt::Block(block_model(b)),
        }),
{
    reveal(expr_model);
    reveal(opt_expr_model);
    reveal(block_model);
    reveal(stmts_model);
    reveal(stmt_model);
}

/// The model of a block.
pub proof fn lemma_block_model(b: BlockStatement)
    ensures
        block_model(b) == (SBlock { token: b.token@, statements: stmts_model(b.statements) }),
{
    reveal(expr_model);
    reveal(opt_expr_model);
    reveal(block_model);
    reveal(stmts_model);
    reveal(stmt_model);
}

/// The models of a sequence of statements, element by element.
pub proof fn lemma_stmts_model(v: Vec<StatementNode>)
    ensures
        stmts_model(v).len() == v@.len(),
        forall|k: int| 0 <= k < v@.len() ==> #[trigger] stmts_model(v)[k] == stmt_model(v@[k]),
{
    reveal(expr_model);
    reveal(opt_expr_model);
    reveal(block_model);
    reveal(stmts_model);
    reveal(stmt_model);
}

// ---------------------------------------------------------------------------
// Copies of trees.

impl Identifier {
    /// A copy of this identifier.
    pub fn duplicate(&self) -> (r: Identifier)
        ensures
            r == *self,
    {
        Identifier { token: self.token.duplicate(), value: self.value.clone() }
    }
}

/// A copy of a list of identifiers.
pub fn duplicate_identifiers(v: &Vec<Identifier>) -> (r: Vec<Identifier>)
    ensures
        r@ == v@,
{
    let mut r: Vec<Identifier> = Vec::new();
    let mut k: usize = 0;
    while k < v.len()
        invariant
            k <= v.len(),
            r@ == v@.take(k as int),
        decreases v.len() - k,
    {
        r.push(v[k].duplicate());
        k = k + 1;
        assert(r@ =~= v@.take(k as int));
    }
    assert(v@.take(v.len() as int) =~= v@);
    r
}

impl ExpressionNode {
    /// A copy of this expression, with the same model.
    pub fn duplicate(&self) -> (r: ExpressionNode)
        ensures
            expr_model(r) == expr_model(*self),
        decreases self,
    {
        proof {
            lemma_expr_model(*self);
        }
        let r = match self {
            ExpressionNode::Empty => ExpressionNode::Empty,
            ExpressionNode::IdentifierNode(i) => ExpressionNode::IdentifierNode(i.duplicate()),
            ExpressionNode::Integer(i) => ExpressionNode::Integer(
                IntegerLiteral { token: i.token.duplicate(), value: i.value },
            ),
            ExpressionNode::Prefix(p) => ExpressionNode::Prefix(
                PrefixExpression {
                    token: p.token.duplicate(),
                    operator: p.operator.clone(),
                    right: Box::new(p.right.duplicate()),
                },
            ),
            ExpressionNode::Infix(p) => ExpressionNode::Infix(
                InfixExpression {
                    token: p.token.duplicate(),
                    left: Box::new(p.left.duplicate()),
                    operator: p.operator.clone(),
                    right: Box::new(p.right.duplicate()),
                },
            ),
            ExpressionNode::BooleanNode(b) => ExpressionNode::BooleanNode(
                Boolean { token: b.token.duplicate(), value: b.value },
            ),
            ExpressionNode::If(i) => {
                let alternative = match &i.alternative {
                    Some(b) => Some(b.duplicate()),
                    None => None,
                };
                ExpressionNode::If(
                    IfExpression {
                        token: i.token.duplicate(),
                        condition: Box::new(i.condition.duplicate()),
                        consequence: i.consequence.duplicate(),
                        alternative,
                    },
                )
            },
            ExpressionNode::Funcion(f) => ExpressionNode::Funcion(
                FunctionLiteral {
                    token: f.token.duplicate(),
                    parameters: duplicate_identifiers(&f.parameters),
                    body: f.body.duplicate(),
                },
            ),
            ExpressionNode::Call(c) => ExpressionNode::Call(
                CallExpression {
                    token: c.token.duplicate(),
                    function: Box::new(c.function.duplicate()),
                    arguments: duplicate_expressions(&c.arguments),
                },
            ),
        };
        proof {
            lemma_expr_model(r);
        }
        r
    }
}

/// A copy of a list of expressions, with the same models.
pub fn duplicate_expressions(v: &Vec<ExpressionNode>) -> (r: Vec<ExpressionNode>)
    ensures
        exprs_model(r@) == exprs_model(v@),
    decreases v,
{
    let mut r: Vec<ExpressionNode> = Vec::new();
    let mut k: usize = 0;
    while k < v.len()
        invariant
            k <= v.len(),
            r@.len() == k,
            forall|j: int| 0 <= j < k ==> expr_model(#[trigger] r@[j]) == expr_model(v@[j]),
        decreases v.len() - k,
    {
        proof {
            assert(decreases_to!(*v => v@[k as int]));
        }
        let e = v[k].duplicate();
        r.push(e);
        k = k + 1;
    }
    assert(exprs_model(r@) =~= exprs_model(v@));
    r
}

/// A copy of an optional expression, with the same model.
pub fn duplicate_optional(o: &Option<ExpressionNode>) -> (r: Option<ExpressionNode>)
    ensures
        opt_expr_model(r) == opt_expr_model(*o),
    decreases o,
{
    proof {
        lemma_opt_expr_model(*o);
    }
    let r = match o {
        Some(e) => Some(e.duplicate()),
        None => None,
    };
    proof {
        lemma_opt_expr_model(r);
    }
    r
}

impl StatementNode {
    /// A copy of this statement, with the same model.
    pub fn duplicate(&self) -> (r: StatementNode)
        ensures
            stmt_model(r) == stmt_model(*self),
        decreases self,
    {
        proof {
            lemma_stmt_model(*self);
        }
        let r = match self {
            StatementNode::Let(l) => StatementNode::Let(
                LetStatement {
                    token: l.token.duplicate(),
                    name: l.name.duplicate(),
                    value: duplicate_optional(&l.value),
                },
            ),
            StatementNode::Return(x) => StatementNode::Return(
                ReturnStatement {
                    token: x.token.duplicate(),
                    ret_value: duplicate_optional(&x.ret_value),
                },
            ),
            StatementNode::Expression(x) => StatementNode::Expression(
                ExpressionStatement {
                    token: x.token.duplicate(),
                    expression: duplicate_optional(&x.expression),
                },
            ),
            StatementNode::Block(b) => StatementNode::Block(b.duplicate()),
        };
        proof {
            lemma_stmt_model(r);
        }
        r
    }
}

impl BlockStatement {
    /// A copy of this block, with the same model.
    pub fn duplicate(&self) -> (r: BlockStatement)
        ensures
            block_model(r) == block_model(*self),
        decreases self,
    {
        let r = BlockStatement {
            token: self.token.duplicate(),
            statements: duplicate_statements(&self.statements),
        };
        proof {
            lemma_block_model(r);
            lemma_block_model(*self);
        }
        r
    }
}

/// A copy of a list of statements, with the same models.
pub fn duplicate_statements(v: &Vec<StatementNode>) -> (r: Vec<StatementNode>)
    ensures
        stmts_model(r) == stmts_model(*v),
    decreases v,
{
    let mut r: Vec<StatementNode> = Vec::new();
    let mut k: usize = 0;
    while k < v.len()
        invariant
            k <= v.len(),
            r@.len() == k,
            forall|j: int| 0 <= j < k ==> stmt_model(#[trigger] r@[j]) == stmt_model(v@[j]),
        decreases v.len() - k,
    {
        proof {
            assert(decreases_to!(*v => v@[k as int]));
        }
        let s = v[k].duplicate();
        r.push(s);
        k = k + 1;
    }
    proof {
        lemma_stmts_model(r);
        lemma_stmts_model(*v);
    }
    assert(stmts_model(r) =~= stmts_model(*v));
    r
}

/// A sequence of statements prints as the concatenation of how each of them
/// prints, in order: so does a program, and so does a block.
pub proof fn law_statements_print_in_order(v: Seq<SStmt>)
    ensures
        print_stmts(v) == concat_spec(v.map_values(|s: SStmt| print_stmt(s))),
    decreases v.len(),
{
    if v.len() > 0 {
        let d = v.subrange(0, v.len() - 1);
        law_statements_print_in_order(d);
        assert(v.map_values(|s: SStmt| print_stmt(s)).drop_last() =~= d.map_values(
            |s: SStmt| print_stmt(s),
        ));
    }
}

impl Clone for ExpressionNode {
    /// A copy of this expression, with the same model.
    fn clone(&self) -> (r: Self)
        ensures
            expr_model(r) == expr_model(*self),
    {
        self.duplicate()
    }
}

// ---------------------------------------------------------------------------
// Copies through `Clone`, and empty nodes through `Default`.

impl Clone for StatementNode {
    /// A copy of this statement, with the same model.
    fn clone(&self) -> (r: Self)
        ensures
            stmt_model(r) == stmt_model(*self),
    {
        self.duplicate()
    }
}

impl Clone for BlockStatement {
    /// A copy of this block, with the same model.
    fn clone(&self) -> (r: Self)
        ensures
            block_model(r) == block_model(*self),
    {
        self.duplicate()
    }
}

impl Clone for Identifier {
    /// A copy of this identifier.
    fn clone(&self) -> (r: Self)
        ensures
            r == *self,
    {
        self.duplicate()
    }
}

impl Clone for IntegerLiteral {
    /// A copy of this literal.
    fn clone(&self) -> (r: Self)
        ensures
            r == *self,
    {
        IntegerLiteral { token: self.token.duplicate(), value: self.value }
    }
}

impl Clone for Boolean {
    /// A copy of this literal.
    fn clone(&self) -> (r: Self)
        ensures
            r == *self,
    {
        Boolean { token: self.token.duplicate(), value: self.value }
    }
}

impl Clone for LetStatement {
    /// A copy of this statement, with the same model.
    fn clone(&self) -> (r: Self)
        ensures
            r.token == self.token,
            r.name == self.name,
            opt_expr_model(r.value) == opt_expr_model(self.value),
    {
        LetStatement {
            token: self.token.duplicate(),
            name: self.name.duplicate(),
            value: duplicate_optional(&self.value),
        }
    }
}

impl Clone for ReturnStatement {
    /// A copy of this statement, with the same model.
    fn clone(&self) -> (r: Self)
        ensures
            r.token == self.token,
            opt_expr_model(r.ret_value) == opt_expr_model(self.ret_value),
    {
        ReturnStatement {
            token: self.token.duplicate(),
            ret_value: duplicate_optional(&self.ret_value),
        }
    }
}

impl Clone for ExpressionStatement {
    /// A copy of this statement, with the same model.
    fn clone(&self) -> (r: Self)
        ensures
            r.token == self.token,
            opt_expr_model(r.expression) == opt_expr_model(self.expression),
    {
        ExpressionStatement {
            token: self.token.duplicate(),
            expression: duplicate_optional(&self.expression),
        }
    }
}

impl Clone for PrefixExpression {
    /// A copy of this expression, with the same model.
    fn clone(&self) -> (r: Self)
        ensures
            r.token == self.token,
            r.operator == self.operator,
            expr_model(*r.right) == expr_model(*self.right),
    {
        PrefixExpression {
            token: self.token.duplicate(),
            operator: self.operator.clone(),
            right: Box::new(self.right.duplicate()),
        }
    }
}

impl Clone for InfixExpression {
    /// A copy of this expression, with the same model.
    fn clone(&self) -> (r: Self)
        ensures
            r.token == self.token,
            expr_model(*r.left) == expr_model(*self.left),
            r.operator == self.operator,
            expr_model(*r.right) == expr_model(*self.right),
    {
        InfixExpression {
            token: self.token.duplicate(),
            left: Box::new(self.left.duplicate()),
            operator: self.operator.clone(),
            right: Box::new(self.right.duplicate()),
        }
    }
}

impl Clone for IfExpression {
    /// A copy of this expression, with the same model.
    fn clone(&self) -> (r: Self)
        ensures
            r.token == self.token,
            expr_model(*r.condition) == expr_model(*self.condition),
            block_model(r.consequence) == block_model(self.consequence),
            r.alternative is Some <==> self.alternative is Some,
            r.alternative is Some ==> block_model(r.alternative->0) == block_model(
                self.alternative->0,
            ),
    {
        let alternative = match &self.alternative {
            Some(b) => Some(b.duplicate()),
            None => None,
        };
        IfExpression {
            token: self.token.duplicate(),
            condition: Box::new(self.condition.duplicate()),
            consequence: self.consequence.duplicate(),
            alternative,
        }
    }
}

impl Clone for FunctionLiteral {
    /// A copy of this function literal, with the same model.
    fn clone(&self) -> (r: Self)
        ensures
            r.token == self.token,
            r.parameters@ == self.parameters@,
            block_model(r.body) == block_model(self.body),
    {
        FunctionLiteral {
            token: self.token.duplicate(),
            parameters: duplicate_identifiers(&self.parameters),
            body: self.body.duplicate(),
        }
    }
}

impl Clone for CallExpression {
    /// A copy of this call, with the same model.
    fn clone(&self) -> (r: Self)
        ensures
            r.token == self.token,
            expr_model(*r.function) == expr_model(*self.function),
            exprs_model(r.arguments@) == exprs_model(self.arguments@),
    {
        CallExpression {
            token: self.token.duplicate(),
            function: Box::new(self.function.duplicate()),
            arguments: duplicate_expressions(&self.arguments),
        }
    }
}

impl Default for ExpressionNode {
    /// The empty expression.
    fn default() -> (r: Self)
        ensures
            r == ExpressionNode::Empty,
    {
        ExpressionNode::Empty
    }
}

impl Default for Identifier {
    /// An identifier with an empty token and no name.
    fn default() -> (r: Self)
        ensures
            r.token@ == default_token(),
            r.value@ == Seq::<char>::empty(),
    {
        Identifier { token: Token::default(), value: String::new() }
    }
}

impl Default for ReturnStatement {
    /// A `return` with an empty token and no value.
    fn default() -> (r: Self)
        ensures
            r.token@ == default_token(),
            r.ret_value is None,
    {
        ReturnStatement { token: Token::default(), ret_value: None }
    }
}

impl Default for ExpressionStatement {
    /// An expression statement with an empty token and no expression.
    fn default() -> (r: Self)
        ensures
            r.token@ == default_token(),
            r.expression is None,
    {
        ExpressionStatement { token: Token::default(), expression: None }
    }
}

impl Default for PrefixExpression {
    /// A prefix expression with an empty token, no operator and an empty operand.
    fn default() -> (r: Self)
        ensures
            r.token@ == default_token(),
            r.operator@ == Seq::<char>::empty(),
            *r.right == ExpressionNode::Empty,
    {
        PrefixExpression {
            token: Token::default(),
            operator: String::new(),
            right: Box::new(ExpressionNode::Empty),
        }
    }
}

impl Default for InfixExpression {
    /// An infix expression with an empty token, no operator and empty operands.
    fn default() -> (r: Self)
        ensures
            r.token@ == default_token(),
            *r.left == ExpressionNode::Empty,
            r.operator@ == Seq::<char>::empty(),
            *r.right == ExpressionNode::Empty,
    {
        InfixExpression {
            token: Token::default(),
            left: Box::new(ExpressionNode::Empty),
            operator: String::new(),
            right: Box::new(ExpressionNode::Empty),
        }
    }
}

impl Default for Boolean {
    /// `false`, with an empty token.
    fn default() -> (r: Self)
        ensures
            r.token@ == default_token(),
            r.value == false,
    {
        Boolean { token: Token::default(), value: false }
    }
}

impl Default for BlockStatement {
    /// A block with an empty token and no statements.
    fn default() -> (r: Self)
        ensures
            r.token@ == default_token(),
            r.statements@.len() == 0,
    {
        BlockStatement { token: Token::default(), statements: Vec::new() }
    }
}

impl Default for IfExpression {
    /// An `if` with an empty token, an empty condition, an empty block and no
    /// alternative.
    fn default() -> (r: Self)
        ensures
            r.token@ == default_token(),
            *r.condition == ExpressionNode::Empty,
            r.consequence.token@ == default_token(),
            r.consequence.statements@.len() == 0,
            r.alternative is None,
    {
        IfExpression {
            token: Token::default(),
            condition: Box::new(ExpressionNode::Empty),
            consequence: BlockStatement::default(),
            alternative: None,
        }
    }
}

impl Default for FunctionLiteral {
    /// A function literal with an empty token, no parameters and an empty body.
    fn default() -> (r: Self)
        ensures
            r.token@ == default_token(),
            r.parameters@.len() == 0,
            r.body.token@ == default_token(),
            r.body.statements@.len() == 0,
    {
        FunctionLiteral {
            token: Token::default(),
            parameters: Vec::new(),
            body: BlockStatement::default(),
        }
    }
}

impl Default for CallExpression {
    /// A call with an empty token, an empty function and no arguments.
    fn default() -> (r: Self)
        ensures
            r.token@ == default_token(),
            *r.function == ExpressionNode::Empty,
            r.arguments@.len() == 0,
    {
        CallExpression {
            token: Token::default(),
            function: Box::new(ExpressionNode::Empty),
            arguments: Vec::new(),
        }
    }
}

/// An `if` expression always prints its consequence after its condition,
/// with or without an `else`; with one, the print is that of the same `if`
/// without it, followed by `else ` and the alternative.
pub proof fn law_if_prints_consequence(token: SToken, cond: SExpr, cons: SBlock, alt: SBlock)
    ensures
        print_expr(
            SExpr::If { token, condition: Box::new(cond), consequence: cons, alternative: None },
        ) == "if"@ + print_expr(cond) + " "@ + print_block(cons),
        print_expr(
            SExpr::If { token, condition: Box::new(cond), consequence: cons, alternative: Some(alt) },
        ) == print_expr(
            SExpr::If { token, condition: Box::new(cond), consequence: cons, alternative: None },
        ) + "else "@ + print_block(alt),
{
    assert(("if"@ + print_expr(cond) + " "@ + print_block(cons) + seq![]) =~= ("if"@ + print_expr(
        cond,
    ) + " "@ + print_block(cons)));
    assert(("if"@ + print_expr(cond) + " "@ + print_block(cons) + ("else "@ + print_block(alt)))
        =~= ("if"@ + print_expr(cond) + " "@ + print_block(cons) + "else "@ + print_block(alt)));
}

} // verus!
