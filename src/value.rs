//! Runtime values and errors, with their mathematical models.
use vstd::prelude::*;

verus! {

/// The mathematical model of a [`Value`].
pub enum ValueModel {
    Nothing,
    Int(i64),
    Str(Seq<char>),
}

/// A value of the language.
#[derive(Debug)]
pub enum Value {
    Nothing,
    Int(i64),
    String(String),
}

impl View for Value {
    type V = ValueModel;

    open spec fn view(&self) -> ValueModel {
        match self {
            Value::Nothing => ValueModel::Nothing,
            Value::Int(i) => ValueModel::Int(*i),
            Value::String(s) => ValueModel::Str(s@),
        }
    }
}

impl Value {
    /// A fresh value with the same model.
    pub fn duplicate(&self) -> (r: Value)
        ensures
            r@ == self@,
    {
        match self {
            Value::Nothing => Value::Nothing,
            Value::Int(i) => Value::Int(*i),
            Value::String(s) => Value::String(s.clone()),
        }
    }
}

impl PartialEq for Value {
    fn eq(&self, other: &Value) -> (r: bool)
        ensures
            r == (self@ == other@),
    {
        match (self, other) {
            (Value::Nothing, Value::Nothing) => true,
            (Value::Int(a), Value::Int(b)) => *a == *b,
            (Value::String(a), Value::String(b)) => a.eq(b),
            _ => false,
        }
    }
}

impl vstd::std_specs::cmp::PartialEqSpecImpl for Value {
    open spec fn obeys_eq_spec() -> bool {
        true
    }

    open spec fn eq_spec(&self, other: &Value) -> bool {
        self@ == other@
    }
}

/// The mathematical model of an [`EngineError`].
pub enum ErrorModel {
    MismatchNumParams,
    TypeMismatch,
    UnknownCommand(Seq<char>),
    MissingVariable(Seq<char>),
    EmptyStack,
}

/// Why parsing or evaluation stopped.
#[derive(Debug)]
pub enum EngineError {
    /// A known keyword came with the wrong number of tokens.
    MismatchNumParams,
    /// A malformed literal, or `add` on operands that do not combine.
    TypeMismatch,
    /// The leading token of a line is no keyword.
    UnknownCommand(String),
    /// A variable was read before any `set` bound it.
    MissingVariable(String),
    /// `pop` or `add` found too few values on the stack.
    EmptyStack,
}

impl View for EngineError {
    type V = ErrorModel;

    open spec fn view(&self) -> ErrorModel {
        match self {
            EngineError::MismatchNumParams => ErrorModel::MismatchNumParams,
            EngineError::TypeMismatch => ErrorModel::TypeMismatch,
            EngineError::UnknownCommand(s) => ErrorModel::UnknownCommand(s@),
            EngineError::MissingVariable(s) => ErrorModel::MissingVariable(s@),
            EngineError::EmptyStack => ErrorModel::EmptyStack,
        }
    }
}

/// The model of an evaluation or combination result.
pub open spec fn result_view(r: Result<Value, EngineError>) -> Result<ValueModel, ErrorModel> {
    match r {
        Ok(v) => Ok(v@),
        Err(e) => Err(e@),
    }
}

} // verus!
