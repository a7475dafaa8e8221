use lib::repl::{evaluate_line, parse_errors_text, LineOutcome};

fn outcome(input: &str) -> (String, Option<String>) {
    match evaluate_line(input) {
        LineOutcome::Evaluated { errors, value } => (errors, value),
        LineOutcome::Unparsable => panic!("unparsable: {}", input),
    }
}

#[test]
fn evaluates_a_line() {
    assert_eq!(outcome("5 + 5"), (String::new(), Some("10".to_string())));
    assert_eq!(outcome("1 < 2 == true"), (String::new(), Some("true".to_string())));
    assert_eq!(outcome("x"), (String::new(), Some("null".to_string())));
    assert_eq!(outcome(""), (String::new(), Some("null".to_string())));
}

#[test]
fn reports_parse_errors_then_evaluates() {
    assert_eq!(
        outcome("let = 5;"),
        (
            "Parser errors found!\n\t>> expected next token to be 'Ident', got '=' instead\n\t>> no prefix parse function for = found\n".to_string(),
            Some("5".to_string())
        )
    );
}

#[test]
fn stops_where_evaluation_cannot_finish() {
    assert_eq!(outcome("10 / 0"), (String::new(), None));
}

#[test]
fn stops_where_parsing_cannot_go_on() {
    assert!(matches!(evaluate_line("if (;) { x }"), LineOutcome::Unparsable));
}

#[test]
fn error_report_format() {
    assert_eq!(parse_errors_text(&vec![]), "Parser errors found!\n");
    assert_eq!(
        parse_errors_text(&vec!["a".to_string(), "b".to_string()]),
        "Parser errors found!\n\t>> a\n\t>> b\n"
    );
}
