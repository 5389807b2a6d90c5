//! Parsing and evaluating a whole program text.
use vstd::prelude::*;
use crate::evaluator::{Evaluator, initial_state, outcome_result, run};
use crate::parser::{parse, parse_text};
use crate::value::{EngineError, ErrorModel, Value, ValueModel, result_view};

verus! {

/// The result of a program text: its parse error, or the result of running
/// its commands on a fresh evaluator.
pub open spec fn program_result(s: Seq<char>) -> Result<ValueModel, ErrorModel> {
    match parse_text(s) {
        Ok(cs) => outcome_result(run(initial_state(), cs)),
        Err(e) => Err(e),
    }
}

/// Parses `input` and runs it on a fresh evaluator; a text that fails to parse
/// is not run.
pub fn interpret(input: &str) -> (r: Result<Value, EngineError>)
    ensures
        result_view(r) == program_result(input@),
{
    let commands = match parse(input) {
        Ok(cs) => cs,
        Err(e) => {
            return Err(e);
        },
    };
    let mut engine = Evaluator::new();
    engine.evaluate(commands.as_slice())
}

} // verus!
