//! What the read-eval-print loop does with one line of input: the text it
//! prints for it, or where it cannot go on.
use vstd::prelude::*;
use crate::evaluator::{eval_stmts, Evaluator};
use crate::lexer::Lexer;
use crate::object::{display_text, object_model};
use crate::parser::{parsed_program_loop, Parser};
use crate::text::string_views;

verus! {

/// The report of parser errors: a heading, then each error on a line of its
/// own after a tab and `>> `.
pub open spec fn errors_text(errs: Seq<Seq<char>>) -> Seq<char>
    decreases errs.len(),
{
    if errs.len() == 0 {
        "Parser errors found!\n"@
    } else {
        errors_text(errs.drop_last()) + "\t>> "@ + errs.last() + "\n"@
    }
}

/// The text of the report of the given parser errors.
pub fn parse_errors_text(errors: &Vec<String>) -> (s: String)
    ensures
        s@ == errors_text(string_views(errors@)),
{
    let ghost views = string_views(errors@);
    let mut s = String::from_str("Parser errors found!\n");
    let mut k: usize = 0;
    while k < errors.len()
        invariant
            k <= errors.len(),
            views == string_views(errors@),
            s@ == errors_text(views.take(k as int)),
        decreases errors.len() - k,
    {
        s.append("\t>> ");
        s.append(errors[k].as_str());
        s.append("\n");
        assert(views.take(k + 1).drop_last() =~= views.take(k as int));
        k = k + 1;
    }
    assert(views.take(errors.len() as int) =~= views);
    s
}

/// What becomes of one line of input.
pub enum LineOutcome {
    /// The parser stopped on input it cannot continue from.
    Unparsable,
    /// The report of parser errors (empty when there were none), and the
    /// printed value of the program, `None` where an overflow or a division
    /// by zero stopped the evaluation.
    Evaluated { errors: String, value: Option<String> },
}

/// The text of an optional string.
pub open spec fn opt_text(s: Option<String>) -> Option<Seq<char>> {
    match s {
        Some(t) => Some(t@),
        None => None,
    }
}

/// Lexes, parses and evaluates one line, as the loop does with each line it
/// reads. (The length bound is the lexer's machine limit.)
pub fn evaluate_line(input: &str) -> (r: LineOutcome)
    requires
        input@.len() < usize::MAX,
    ensures
        ({
            let total = parsed_program_loop(input@, 0, seq![]);
            &&& (r is Unparsable <==> total.fault)
            &&& r matches LineOutcome::Evaluated { errors, value } ==> {
                &&& errors@ == (if total.errs.len() == 0 {
                    seq![]
                } else {
                    errors_text(total.errs)
                })
                &&& opt_text(value) == match eval_stmts(total.value) {
                    Some(o) => Some(display_text(object_model(o))),
                    None => None,
                }
            }
        }),
{
    let lexer = Lexer::new(input);
    let mut parser = Parser::new(lexer);
    match parser.parse_program() {
        None => LineOutcome::Unparsable,
        Some(program) => {
            let errors = if parser.errors().len() != 0 {
                parse_errors_text(parser.errors())
            } else {
                String::new()
            };
            let evaluator = Evaluator::new();
            let value = match evaluator.try_eval_program(program) {
                Some(o) => Some(o.display_string()),
                None => None,
            };
            LineOutcome::Evaluated { errors, value }
        },
    }
}

} // verus!
