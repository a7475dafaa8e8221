//! The tree-walking evaluator of integer and boolean expressions.
use vstd::prelude::*;
use crate::ast::{
    ExpressionNode, Program, StatementNode, SExpr, SStmt, expr_model, opt_expr_model, stmt_model,
    stmts_model, lemma_expr_model, lemma_opt_expr_model, lemma_stmt_model, lemma_stmts_model,
};
use crate::object::Object;
use crate::token::SToken;
use crate::text::str_chars;

verus! {

// ---------------------------------------------------------------------------
// What evaluation gives. `None` stands for an evaluation that cannot finish:
// an arithmetic overflow or a division by zero.

/// `!` applied to a value: booleans are negated, `null` and `0` are falsy,
/// every other value is truthy.
pub open spec fn bang_value(right: Object) -> Object {
    match right {
        Object::Boolean(b) => Object::Boolean(!b),
        Object::Null => Object::Boolean(true),
        Object::Integer(i) => Object::Boolean(i == 0),
        _ => Object::Boolean(false),
    }
}

/// `-` applied to a value: integers are negated, anything else gives `null`.
pub open spec fn minus_value(right: Object) -> Option<Object> {
    match right {
        Object::Integer(i) => if i == i64::MIN {
            None
        } else {
            Some(Object::Integer((-i) as i64))
        },
        _ => Some(Object::Null),
    }
}

/// A prefix operator applied to a value.
pub open spec fn prefix_value(op: Seq<char>, right: Object) -> Option<Object> {
    if op == seq!['!'] {
        Some(bang_value(right))
    } else if op == seq!['-'] {
        minus_value(right)
    } else {
        Some(Object::Null)
    }
}

pub open spec fn checked_integer(v: Option<i64>) -> Option<Object> {
    match v {
        Some(x) => Some(Object::Integer(x)),
        None => None,
    }
}

/// An infix operator applied to two integers: arithmetic and comparisons.
pub open spec fn integer_infix_value(op: Seq<char>, l: i64, r: i64) -> Option<Object> {
    if op == seq!['+'] {
        checked_integer(l.checked_add(r))
    } else if op == seq!['-'] {
        checked_integer(l.checked_sub(r))
    } else if op == seq!['*'] {
        checked_integer(l.checked_mul(r))
    } else if op == seq!['/'] {
        checked_integer(l.checked_div(r))
    } else if op == seq!['<'] {
        Some(Object::Boolean(l < r))
    } else if op == seq!['>'] {
        Some(Object::Boolean(l > r))
    } else if op == seq!['=', '='] {
        Some(Object::Boolean(l == r))
    } else if op == seq!['!', '='] {
        Some(Object::Boolean(l != r))
    } else {
        Some(Object::Null)
    }
}

/// An infix operator applied to two values: integers with integers,
/// booleans with booleans (`==`, `!=`); anything else gives `null`.
pub open spec fn infix_value(op: Seq<char>, left: Object, right: Object) -> Option<Object> {
    match (left, right) {
        (Object::Integer(l), Object::Integer(r)) => integer_infix_value(op, l, r),
        (Object::Boolean(l), Object::Boolean(r)) => if op == seq!['=', '='] {
            Some(Object::Boolean(l == r))
        } else if op == seq!['!', '='] {
            Some(Object::Boolean(l != r))
        } else {
            Some(Object::Null)
        },
        _ => Some(Object::Null),
    }
}

/// The value of an expression: integer and boolean literals, prefix and infix
/// operators; any other expression is `null`.
pub open spec fn eval_expr(e: SExpr) -> Option<Object>
    decreases e,
{
    match e {
        SExpr::Int { value, .. } => Some(Object::Integer(value)),
        SExpr::Bool { value, .. } => Some(Object::Boolean(value)),
        SExpr::Prefix { operator, right, .. } => match eval_expr(*right) {
            Some(r) => prefix_value(operator, r),
            None => None,
        },
        SExpr::Infix { left, operator, right, .. } => match eval_expr(*left) {
            Some(l) => match eval_expr(*right) {
                Some(r) => infix_value(operator, l, r),
                None => None,
            },
            None => None,
        },
        _ => Some(Object::Null),
    }
}

/// The value of a statement: that of its expression for an expression
/// statement, `null` for any other statement.
pub open spec fn eval_stmt(s: SStmt) -> Option<Object> {
    match s {
        SStmt::Expr { expression, .. } => match expression {
            Some(x) => eval_expr(x),
            None => Some(Object::Null),
        },
        _ => Some(Object::Null),
    }
}

/// The value of a program: that of its last statement (`null` when it has
/// none), every statement being evaluated in turn.
pub open spec fn eval_stmts(v: Seq<SStmt>) -> Option<Object>
    decreases v.len(),
{
    if v.len() == 0 {
        Some(Object::Null)
    } else {
        match eval_stmts(v.drop_last()) {
            Some(_) => eval_stmt(v.last()),
            None => None,
        }
    }
}

// ---------------------------------------------------------------------------

fn op_is1(op: &String, a: char) -> (r: bool)
    ensures
        r == (op@ == seq![a]),
{
    let w = str_chars(op.as_str());
    let r = w.len() == 1 && w[0] == a;
    if r {
        assert(w@ =~= seq![a]);
    }
    r
}

fn op_is2(op: &String, a: char, b: char) -> (r: bool)
    ensures
        r == (op@ == seq![a, b]),
{
    let w = str_chars(op.as_str());
    let r = w.len() == 2 && w[0] == a && w[1] == b;
    if r {
        assert(w@ =~= seq![a, b]);
    }
    r
}

/// The evaluator.
pub struct Evaluator {}

impl Evaluator {
    pub fn new() -> Evaluator {
        Evaluator {  }
    }

    /// The value of the program's last statement (`null` for an empty
    /// program), every statement evaluated in turn.
    pub fn eval_program(&self, program: Program) -> (r: Object)
        requires
            eval_stmts(stmts_model(program.statements)) is Some,
        ensures
            Some(r) == eval_stmts(stmts_model(program.statements)),
    {
        match self.try_eval_program(program) {
            Some(r) => r,
            None => Object::Null,
        }
    }

    /// The value of the program as `eval_program` gives it, or `None` where
    /// an overflow or a division by zero stops the evaluation.
    pub fn try_eval_program(&self, program: Program) -> (r: Option<Object>)
        ensures
            r == eval_stmts(stmts_model(program.statements)),
    {
        let ghost m = stmts_model(program.statements);
        proof {
            lemma_stmts_model(program.statements);
        }
        let statements = &program.statements;
        let mut result = Object::Null;
        let mut k: usize = 0;
        while k < statements.len()
            invariant
                k <= statements.len(),
                m == stmts_model(program.statements),
                m.len() == statements@.len(),
                forall|j: int| 0 <= j < statements@.len() ==> #[trigger] m[j] == stmt_model(statements@[j]),
                eval_stmts(m.take(k as int)) == Some(result),
            decreases statements.len() - k,
        {
            assert(m.take(k + 1).drop_last() =~= m.take(k as int));
            assert(m[k as int] == stmt_model(statements@[k as int]));
            match self.eval_statement(&statements[k]) {
                Some(v) => {
                    result = v;
                },
                None => {
                    proof {
                        lemma_eval_stmts_stops(m, k as int + 1);
                    }

                    return None;
                },
            }
            k = k + 1;
        }
        assert(m.take(statements.len() as int) =~= m);
        Some(result)
    }

    fn eval_statement(&self, stmt: &StatementNode) -> (r: Option<Object>)
        ensures
            r == eval_stmt(stmt_model(*stmt)),
    {
        proof {
            lemma_stmt_model(*stmt);
        }
        match stmt {
            StatementNode::Expression(exp) => self.eval_expression(&exp.expression),
            _ => Some(Object::Null),
        }
    }

    fn eval_expression(&self, expression: &Option<ExpressionNode>) -> (r: Option<Object>)
        ensures
            r == match opt_expr_model(*expression) {
                Some(x) => eval_expr(x),
                None => Some(Object::Null),
            },
    {
        proof {
            lemma_opt_expr_model(*expression);
        }
        match expression {
            Some(exp) => self.eval_node(exp),
            None => Some(Object::Null),
        }
    }

    fn eval_node(&self, exp: &ExpressionNode) -> (r: Option<Object>)
        ensures
            r == eval_expr(expr_model(*exp)),
        decreases exp,
    {
        proof {
            lemma_expr_model(*exp);
        }
        match exp {
            ExpressionNode::Integer(lit) => Some(Object::Integer(lit.value)),
            ExpressionNode::BooleanNode(boolean) => Some(
                Self::native_bool_to_boolean_object(boolean.value),
            ),
            ExpressionNode::Prefix(pre) => {
                match self.eval_node(&pre.right) {
                    Some(right) => Self::eval_prefix_expresion(&pre.operator, right),
                    None => None,
                }
            },
            ExpressionNode::Infix(inf) => {
                match self.eval_node(&inf.left) {
                    Some(left) => match self.eval_node(&inf.right) {
                        Some(right) => Self::eval_infix_expression(&inf.operator, &left, &right),
                        None => None,
                    },
                    None => None,
                }
            },
            _ => Some(Object::Null),
        }
    }

    fn eval_infix_expression(operator: &String, left: &Object, right: &Object) -> (r: Option<
        Object,
    >)
        ensures
            r == infix_value(operator@, *left, *right),
    {
        match (left, right) {
            (Object::Integer(l), Object::Integer(r)) => {
                Self::eval_integer_infix_expression(operator, *l, *r)
            },
            (Object::Boolean(l), Object::Boolean(r)) => {
                if op_is2(operator, '=', '=') {
                    Some(Self::native_bool_to_boolean_object(*l == *r))
                } else if op_is2(operator, '!', '=') {
                    Some(Self::native_bool_to_boolean_object(*l != *r))
                } else {
                    Some(Object::Null)
                }
            },
            _ => Some(Object::Null),
        }
    }

    fn eval_integer_infix_expression(op: &String, left: i64, right: i64) -> (r: Option<Object>)
        ensures
            r == integer_infix_value(op@, left, right),
    {
        if op_is1(op, '+') {
            match left.checked_add(right) {
                Some(v) => Some(Object::Integer(v)),
                None => None,
            }
        } else if op_is1(op, '-') {
            match left.checked_sub(right) {
                Some(v) => Some(Object::Integer(v)),
                None => None,
            }
        } else if op_is1(op, '*') {
            match left.checked_mul(right) {
                Some(v) => Some(Object::Integer(v)),
                None => None,
            }
        } else if op_is1(op, '/') {
            match left.checked_div(right) {
                Some(v) => Some(Object::Integer(v)),
                None => None,
            }
        } else if op_is1(op, '<') {
            Some(Self::native_bool_to_boolean_object(left < right))
        } else if op_is1(op, '>') {
            Some(Self::native_bool_to_boolean_object(left > right))
        } else if op_is2(op, '=', '=') {
            Some(Self::native_bool_to_boolean_object(left == right))
        } else if op_is2(op, '!', '=') {
            Some(Self::native_bool_to_boolean_object(left != right))
        } else {
            Some(Object::Null)
        }
    }

    fn eval_prefix_expresion(operator: &String, right: Object) -> (r: Option<Object>)
        ensures
            r == prefix_value(operator@, right),
    {
        if op_is1(operator, '!') {
            Some(Self::eval_bang_operator(right))
        } else if op_is1(operator, '-') {
            Self::eval_minus_operator(right)
        } else {
            Some(Object::Null)
        }
    }

    fn eval_bang_operator(right: Object) -> (r: Object)
        ensures
            r == bang_value(right),
    {
        match right {
            Object::Boolean(true) => Object::Boolean(false),
            Object::Boolean(false) => Object::Boolean(true),
            Object::Null => Object::Boolean(true),
            Object::Integer(i) => if i != 0 {
                Object::Boolean(false)
            } else {
                Object::Boolean(true)
            },
            _ => Object::Boolean(false),
        }
    }

    fn eval_minus_operator(right: Object) -> (r: Option<Object>)
        ensures
            r == minus_value(right),
    {
        match right {
            Object::Integer(i) => if i == i64::MIN {
                None
            } else {
                Some(Object::Integer(-i))
            },
            _ => Some(Object::Null),
        }
    }

    fn native_bool_to_boolean_object(b: bool) -> (r: Object)
        ensures
            r == Object::Boolean(b),
    {
        if b {
            Object::Boolean(true)
        } else {
            Object::Boolean(false)
        }
    }
}

/// Once a statement fails, the whole program does.
proof fn lemma_eval_stmts_stops(m: Seq<SStmt>, n: int)
    requires
        1 <= n <= m.len(),
        eval_stmt(m[n - 1]) is None,
    ensures
        eval_stmts(m) is None,
    decreases m.len(),
{
    if n < m.len() {
        lemma_eval_stmts_stops(m.drop_last(), n);
        assert(m.drop_last()[n - 1] == m[n - 1]);
    } else {
        assert(m.last() == m[n - 1]);
    }
}

// ---------------------------------------------------------------------------
// Laws of evaluation.

/// The expression `<op><right>`.
pub open spec fn prefix_expr(token: SToken, op: Seq<char>, right: SExpr) -> SExpr {
    SExpr::Prefix { token, operator: op, right: Box::new(right) }
}

/// The expression `<left> <op> <right>`.
pub open spec fn infix_expr(token: SToken, left: SExpr, op: Seq<char>, right: SExpr) -> SExpr {
    SExpr::Infix { token, left: Box::new(left), operator: op, right: Box::new(right) }
}

/// The operator spellings differ from one another.
proof fn lemma_operators_distinct()
    ensures
        seq!['!'] != seq!['-'],
        seq!['+'] != seq!['-'],
        seq!['+'] != seq!['*'],
        seq!['-'] != seq!['*'],
        seq!['+'] != seq!['/'],
        seq!['-'] != seq!['/'],
        seq!['*'] != seq!['/'],
        seq!['+'] != seq!['<'],
        seq!['-'] != seq!['<'],
        seq!['*'] != seq!['<'],
        seq!['/'] != seq!['<'],
        seq!['+'] != seq!['>'],
        seq!['-'] != seq!['>'],
        seq!['*'] != seq!['>'],
        seq!['/'] != seq!['>'],
        seq!['<'] != seq!['>'],
        seq!['=', '='] != seq!['!', '='],
        seq!['+'] != seq!['=', '='],
        seq!['-'] != seq!['=', '='],
        seq!['*'] != seq!['=', '='],
        seq!['/'] != seq!['=', '='],
        seq!['<'] != seq!['=', '='],
        seq!['>'] != seq!['=', '='],
        seq!['+'] != seq!['!', '='],
        seq!['-'] != seq!['!', '='],
        seq!['*'] != seq!['!', '='],
        seq!['/'] != seq!['!', '='],
        seq!['<'] != seq!['!', '='],
        seq!['>'] != seq!['!', '='],
{
    assert(seq!['!'][0] != seq!['-'][0]);
    assert(seq!['+'][0] != seq!['-'][0]);
    assert(seq!['+'][0] != seq!['*'][0]);
    assert(seq!['-'][0] != seq!['*'][0]);
    assert(seq!['+'][0] != seq!['/'][0]);
    assert(seq!['-'][0] != seq!['/'][0]);
    assert(seq!['*'][0] != seq!['/'][0]);
    assert(seq!['+'][0] != seq!['<'][0]);
    assert(seq!['-'][0] != seq!['<'][0]);
    assert(seq!['*'][0] != seq!['<'][0]);
    assert(seq!['/'][0] != seq!['<'][0]);
    assert(seq!['+'][0] != seq!['>'][0]);
    assert(seq!['-'][0] != seq!['>'][0]);
    assert(seq!['*'][0] != seq!['>'][0]);
    assert(seq!['/'][0] != seq!['>'][0]);
    assert(seq!['<'][0] != seq!['>'][0]);
    assert(seq!['=', '='][0] != seq!['!', '='][0]);
    assert(seq!['+'].len() != seq!['=', '='].len());
}

/// Negating a boolean twice gives it back.
pub proof fn law_double_bang(e: SExpr, t1: SToken, t2: SToken, b: bool)
    requires
        eval_expr(e) == Some(Object::Boolean(b)),
    ensures
        eval_expr(prefix_expr(t1, seq!['!'], prefix_expr(t2, seq!['!'], e))) == Some(
            Object::Boolean(b),
        ),
{
    lemma_operators_distinct();
    let inner = prefix_expr(t2, seq!['!'], e);
    assert(eval_expr(inner) == Some(Object::Boolean(!b)));
}

/// `!` of an integer is true exactly for zero, and `!!` of an integer is
/// true exactly for any other integer.
pub proof fn law_bang_integer(e: SExpr, t1: SToken, t2: SToken, i: i64)
    requires
        eval_expr(e) == Some(Object::Integer(i)),
    ensures
        eval_expr(prefix_expr(t1, seq!['!'], e)) == Some(Object::Boolean(i == 0)),
        eval_expr(prefix_expr(t1, seq!['!'], prefix_expr(t2, seq!['!'], e))) == Some(
            Object::Boolean(i != 0),
        ),
{
    lemma_operators_distinct();
    let inner = prefix_expr(t2, seq!['!'], e);
    assert(eval_expr(inner) == Some(Object::Boolean(i == 0)));
}

/// `a < b` and `b > a` have the same value.
pub proof fn law_less_is_flipped_greater(l: SExpr, r: SExpr, t1: SToken, t2: SToken)
    ensures
        eval_expr(infix_expr(t1, l, seq!['<'], r)) is Some ==> eval_expr(
            infix_expr(t1, l, seq!['<'], r),
        ) == eval_expr(infix_expr(t2, r, seq!['>'], l)),
{
    lemma_operators_distinct();
}

/// On two integers or two booleans, `!=` is the negation of `==`.
pub proof fn law_not_equal_negates_equal(l: SExpr, r: SExpr, t1: SToken, t2: SToken, c: bool)
    requires
        eval_expr(infix_expr(t1, l, seq!['=', '='], r)) == Some(Object::Boolean(c)),
    ensures
        eval_expr(infix_expr(t2, l, seq!['!', '='], r)) == Some(Object::Boolean(!c)),
{
    lemma_operators_distinct();
}

/// Integer addition and multiplication do not depend on the order of their
/// operands, overflow included.
pub proof fn law_add_mul_commute(l: SExpr, r: SExpr, t1: SToken, t2: SToken, a: i64, b: i64)
    requires
        eval_expr(l) == Some(Object::Integer(a)),
        eval_expr(r) == Some(Object::Integer(b)),
    ensures
        eval_expr(infix_expr(t1, l, seq!['+'], r)) == eval_expr(infix_expr(t2, r, seq!['+'], l)),
        eval_expr(infix_expr(t1, l, seq!['*'], r)) == eval_expr(infix_expr(t2, r, seq!['*'], l)),
{
    lemma_operators_distinct();
    assert(a * b == b * a) by (nonlinear_arith);
}

/// Integer arithmetic within range is that of the integers; `/` rounds
/// toward zero.
pub proof fn law_integer_arithmetic(l: SExpr, r: SExpr, t: SToken, a: i64, b: i64)
    requires
        eval_expr(l) == Some(Object::Integer(a)),
        eval_expr(r) == Some(Object::Integer(b)),
    ensures
        i64::MIN <= a + b <= i64::MAX ==> eval_expr(infix_expr(t, l, seq!['+'], r)) == Some(
            Object::Integer((a + b) as i64),
        ),
        i64::MIN <= a - b <= i64::MAX ==> eval_expr(infix_expr(t, l, seq!['-'], r)) == Some(
            Object::Integer((a - b) as i64),
        ),
        i64::MIN <= a * b <= i64::MAX ==> eval_expr(infix_expr(t, l, seq!['*'], r)) == Some(
            Object::Integer((a * b) as i64),
        ),
        a >= 0 && b > 0 ==> eval_expr(infix_expr(t, l, seq!['/'], r)) == Some(
            Object::Integer((a / b) as i64),
        ),
        b == 0 ==> eval_expr(infix_expr(t, l, seq!['/'], r)) is None,
{
    lemma_operators_distinct();
    if a >= 0 && b > 0 {
        assert(0 <= a / b <= a) by (nonlinear_arith)
            requires
                a >= 0,
                b > 0,
        ;
    }
}

/// A program's value is that of its last statement, once every statement
/// before it has been evaluated.
pub proof fn law_program_value_is_last(v: Seq<SStmt>, s: SStmt)
    ensures
        eval_stmts(v.push(s)) == match eval_stmts(v) {
            Some(_) => eval_stmt(s),
            None => None,
        },
{
    assert(v.push(s).drop_last() =~= v);
}

/// Comparisons of two integers compare them as signed numbers: `<`, `>`,
/// `==` and `!=` give exactly the mathematical answer.
pub proof fn law_integer_comparisons(l: SExpr, r: SExpr, t: SToken, a: i64, b: i64)
    requires
        eval_expr(l) == Some(Object::Integer(a)),
        eval_expr(r) == Some(Object::Integer(b)),
    ensures
        eval_expr(infix_expr(t, l, seq!['<'], r)) == Some(Object::Boolean((a as int) < (b as int))),
        eval_expr(infix_expr(t, l, seq!['>'], r)) == Some(Object::Boolean((a as int) > (b as int))),
        eval_expr(infix_expr(t, l, seq!['=', '='], r)) == Some(
            Object::Boolean((a as int) == (b as int)),
        ),
        eval_expr(infix_expr(t, l, seq!['!', '='], r)) == Some(
            Object::Boolean((a as int) != (b as int)),
        ),
        a < 0 && b >= 0 ==> eval_expr(infix_expr(t, l, seq!['<'], r)) == Some(Object::Boolean(true)),
{
    lemma_operators_distinct();
}

/// Comparing two booleans with `==` and `!=` tells whether they are equal.
pub proof fn law_boolean_comparisons(l: SExpr, r: SExpr, t: SToken, a: bool, b: bool)
    requires
        eval_expr(l) == Some(Object::Boolean(a)),
        eval_expr(r) == Some(Object::Boolean(b)),
    ensures
        eval_expr(infix_expr(t, l, seq!['=', '='], r)) == Some(Object::Boolean(a == b)),
        eval_expr(infix_expr(t, l, seq!['!', '='], r)) == Some(Object::Boolean(a != b)),
{
    lemma_operators_distinct();
}

/// `-` negates an integer (and cannot negate the smallest one); `-` of a
/// boolean, and `!` or `-` spelled otherwise, give `null`.
pub proof fn law_minus(e: SExpr, t: SToken, a: i64, b: bool)
    ensures
        eval_expr(e) == Some(Object::Integer(a)) && a != i64::MIN ==> eval_expr(
            prefix_expr(t, seq!['-'], e),
        ) == Some(Object::Integer((0 - a) as i64)),
        eval_expr(e) == Some(Object::Integer(a)) && a != i64::MIN ==> 0 - a == (match eval_expr(
            prefix_expr(t, seq!['-'], e),
        ) {
            Some(Object::Integer(x)) => x as int,
            _ => 0,
        }),
        eval_expr(e) == Some(Object::Integer(i64::MIN)) ==> eval_expr(prefix_expr(t, seq!['-'], e))
            is None,
        eval_expr(e) == Some(Object::Boolean(b)) ==> eval_expr(prefix_expr(t, seq!['-'], e)) == Some(
            Object::Null,
        ),
{
    lemma_operators_distinct();
}

/// A literal evaluates to its value.
pub proof fn law_literals(t: SToken, i: i64, b: bool)
    ensures
        eval_expr(SExpr::Int { token: t, value: i }) == Some(Object::Integer(i)),
        eval_expr(SExpr::Bool { token: t, value: b }) == Some(Object::Boolean(b)),
{
}

} // verus!
