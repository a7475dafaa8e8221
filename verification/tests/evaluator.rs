use lib::evaluator::Evaluator;
use lib::lexer::Lexer;
use lib::object::Object;
use lib::parser::Parser;

#[test]
fn test_eval_integer_expr() {
    let tests = vec![
        ("5", 5),
        ("10", 10),
        ("-5", -5),
        ("-10", -10),
        ("5 + 5 + 5 + 5 - 10", 10),
        ("2 * 2 * 2 * 2 * 2", 32),
        ("-50 + 100 + -50", 0),
        ("5 * 2 + 10", 20),
        ("5 + 2 * 10", 25),
        ("20 + 2 * -10", 0),
        ("50 / 2 * 2 + 10", 60),
        ("2 * (5 + 10)", 30),
        ("3 * 3 * 3 + 10", 37),
        ("3 * (3 * 3) + 10", 37),
        ("(5 + 10 * 2 + 15 / 3) * 2 + -10", 50),
    ];
    for test in tests {
        let (input, val) = test;

        let eval = test_eval(input);
        test_integer_object(eval, val);
    }
}

#[test]
fn test_eval_boolean_expr() {
    let tests = vec![
        ("true", true),
        ("false", false),
        ("1 < 2", true),
        ("1 > 2", false),
        ("1 > 1", false),
        ("1 == 1", true),
        ("1 != 1", false),
        ("1 == 2", false),
        ("1 != 2", true),
        ("true == true", true),
        ("false == false", true),
        ("true == false", false),
        ("true != false", true),
        ("false != true", true),
        ("(1 < 2) == true", true),
        ("(1 < 2) == false", false),
        ("(1 > 2) == true", false),
        ("(1 > 2) == false", true),
        ("(10 * 10 > 5) == (5 * 5 == 25)", true),
        ("(10 * 10 > 5) != (5 * 5 == 25)", false),
        ("(10 * 10 > 123) == (5 * 5 == 25)", false),
        ("(10 * 10 > 123) != (5 * 5 == 25)", true),
    ];
    for test in tests {
        let (input, val) = test;

        let evaluated = test_eval(input);
        test_boolean_object(evaluated, val);
    }
}

#[test]
fn test_bang_operator() {
    let tests = vec![
        ("!true", false),
        ("!false", true),
        ("!5", false),
        ("!!true", true),
        ("!!false", false),
        ("!!5", true),
        ("!0", true),
        ("!1", false),
    ];

    for test in tests {
        let (input, val) = test;

        let evaluated = test_eval(input);
        test_boolean_object(evaluated, val);
    }
}

fn test_eval(input: &str) -> Object {
    let lexer = Lexer::new(input);
    let mut parser = Parser::new(lexer);
    let program = parser.parse_program();
    let evaluator = Evaluator::new();

    evaluator.eval_program(program.unwrap())
}

fn try_eval(input: &str) -> Option<Object> {
    let lexer = Lexer::new(input);
    let mut parser = Parser::new(lexer);
    let program = parser.parse_program().unwrap();
    Evaluator::new().try_eval_program(program)
}

fn test_integer_object(obj: Object, value: i64) {
    match obj {
        Object::Integer(int) => assert_eq!(
            int, value,
            "object has wrong value, expected '{}'. got = {}",
            value, int
        ),
        other => panic!("object is not integer. got = {:?}", other),
    }
}

fn test_boolean_object(obj: Object, value: bool) {
    match obj {
        Object::Boolean(boolean) => assert_eq!(
            boolean, value,
            "object has wrong value, expected '{}'. got = {}",
            value, boolean
        ),
        other => panic!("object is not boolean. got = {:?}", other),
    }
}

fn is_null(obj: Object) -> bool {
    matches!(obj, Object::Null)
}

#[test]
fn double_bang_gives_booleans_back() {
    test_boolean_object(test_eval("!!(1 < 2)"), true);
    test_boolean_object(test_eval("!!(2 < 1)"), false);
    test_boolean_object(test_eval("!!0"), false);
    test_boolean_object(test_eval("!!-3"), true);
}

#[test]
fn less_than_is_flipped_greater_than() {
    test_boolean_object(test_eval("3 < 7"), true);
    test_boolean_object(test_eval("7 > 3"), true);
    test_boolean_object(test_eval("7 < 3"), false);
    test_boolean_object(test_eval("3 > 7"), false);
}

#[test]
fn not_equal_negates_equal() {
    test_boolean_object(test_eval("4 == 4"), true);
    test_boolean_object(test_eval("4 != 4"), false);
    test_boolean_object(test_eval("true == false"), false);
    test_boolean_object(test_eval("true != false"), true);
}

#[test]
fn addition_and_multiplication_commute() {
    test_integer_object(test_eval("6 + 9"), 15);
    test_integer_object(test_eval("9 + 6"), 15);
    test_integer_object(test_eval("6 * -9"), -54);
    test_integer_object(test_eval("-9 * 6"), -54);
}

#[test]
fn division_rounds_toward_zero() {
    test_integer_object(test_eval("7 / 2"), 3);
    test_integer_object(test_eval("-7 / 2"), -3);
    test_integer_object(test_eval("7 / -2"), -3);
    test_integer_object(test_eval("-7 / -2"), 3);
}

#[test]
fn value_is_that_of_the_last_statement() {
    test_integer_object(test_eval("1; 2; 3"), 3);
    test_boolean_object(test_eval("1; true"), true);
    assert!(is_null(test_eval("5; let x = 5;")));
    assert!(is_null(test_eval("")));
}

#[test]
fn other_expressions_are_null() {
    assert!(is_null(test_eval("foo")));
    assert!(is_null(test_eval("1 == true")));
    assert!(is_null(test_eval("true + true")));
    assert!(is_null(test_eval("-true")));
    assert!(is_null(test_eval("fn(x) { x }")));
    assert!(is_null(test_eval("if (true) { 1 }")));
    test_boolean_object(test_eval("!foo"), true);
    test_boolean_object(test_eval("!(1 == true)"), true);
}

#[test]
fn overflow_and_division_by_zero_stop_evaluation() {
    assert!(try_eval("1 / 0").is_none());
    assert!(try_eval("9223372036854775807 + 1").is_none());
    assert!(try_eval("-9223372036854775807 - 2").is_none());
    assert!(try_eval("4611686018427387904 * 2").is_none());
    assert!(try_eval("1 / 0; 5").is_none());
    assert!(try_eval("-9223372036854775807 - 1").is_some());
    assert!(try_eval("-(-9223372036854775807 - 1)").is_none());
    assert!(try_eval("(-9223372036854775807 - 1) / -1").is_none());
    match try_eval("9223372036854775807 - 1") {
        Some(Object::Integer(v)) => assert_eq!(v, 9223372036854775806),
        other => panic!("unexpected {:?}", other),
    }
}
