//! A small line-oriented stack language: a parser from text to commands and an
//! evaluator that runs them against a variable table and an operand stack.
pub mod value;
pub mod text;
pub mod command;
pub mod evaluator;
pub mod parser;
pub mod program;
pub mod laws;

pub use command::Command;
pub use evaluator::Evaluator;
pub use parser::{
    parse, parse_get, parse_int, parse_push, parse_pushvar, parse_set, parse_string, parse_value,
    parse_var_name,
};
pub use program::interpret;
pub use value::{EngineError, Value};
