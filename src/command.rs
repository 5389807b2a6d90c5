//! The instructions of the language.
use vstd::prelude::*;
use crate::value::{EngineError, ErrorModel, Value, ValueModel};

verus! {

/// The mathematical model of a [`Command`].
pub enum CommandModel {
    SetVar(Seq<char>, ValueModel),
    GetVar(Seq<char>),
    PushVar(Seq<char>),
    Push(ValueModel),
    Pop,
    Add,
}

/// One instruction, as parsed from one non-blank line.
#[derive(Debug)]
pub enum Command {
    /// Bind a variable to a value.
    SetVar(String, Value),
    /// Make a variable's value the pending output.
    GetVar(String),
    /// Push a variable's value onto the stack.
    PushVar(String),
    /// Push a literal onto the stack.
    Push(Value),
    /// Pop the top of the stack into the pending output.
    Pop,
    /// Pop two values, combine them, push the result.
    Add,
}

impl View for Command {
    type V = CommandModel;

    open spec fn view(&self) -> CommandModel {
        match self {
            Command::SetVar(n, v) => CommandModel::SetVar(n@, v@),
            Command::GetVar(n) => CommandModel::GetVar(n@),
            Command::PushVar(n) => CommandModel::PushVar(n@),
            Command::Push(v) => CommandModel::Push(v@),
            Command::Pop => CommandModel::Pop,
            Command::Add => CommandModel::Add,
        }
    }
}

/// The models of a sequence of commands.
pub open spec fn command_models(cs: Seq<Command>) -> Seq<CommandModel> {
    cs.map_values(|c: Command| c@)
}

/// The model of a parsed command or the error that stopped it.
pub open spec fn command_result_view(r: Result<Command, EngineError>) -> Result<
    CommandModel,
    ErrorModel,
> {
    match r {
        Ok(c) => Ok(c@),
        Err(e) => Err(e@),
    }
}

} // verus!
