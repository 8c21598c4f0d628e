//! Runtime errors of the evaluator.
use vstd::prelude::*;
use crate::value::{Operator, Value, ValueModel};

verus! {

/// What went wrong at run time.
#[derive(Debug, Clone, PartialEq)]
pub enum RuntimeErrorKind {
    /// A variable was read after `var x;` and before any assignment.
    UninitializedVariable(String),
    /// A variable was read that no scope declares.
    UnknownVariable(String),
    /// A variable was assigned that no scope declares.
    UnknownAssignmentTarget(String),
    /// An ordering operator met an operand that is not a number.
    Comparison(Operator, Value, Value),
    /// An arithmetic operator met operands it does not apply to.
    Arithmetic(Operator, Value, Value),
    /// Unary `-` met an operand that is not a number.
    Negation(Value),
    /// The operator has no meaning in the position it stands in.
    UnsupportedOperator(Operator),
    /// Calls are parsed but cannot be evaluated yet.
    UnsupportedCall,
    /// Loops ran more iterations than the evaluation was allowed.
    StepLimitReached,
}

/// A runtime error; it ends the statement list that raised it.
#[derive(Debug, Clone, PartialEq)]
pub struct RuntimeError {
    pub kind: RuntimeErrorKind,
}

/// The model of a [`RuntimeError`].
pub enum ErrorModel {
    UninitializedVariable(Seq<char>),
    UnknownVariable(Seq<char>),
    UnknownAssignmentTarget(Seq<char>),
    Comparison(Operator, ValueModel, ValueModel),
    Arithmetic(Operator, ValueModel, ValueModel),
    Negation(ValueModel),
    UnsupportedOperator(Operator),
    UnsupportedCall,
    StepLimitReached,
    /// The recorded host answers hold no answer to the request that
    /// evaluation makes; no runtime error has this model, so a run whose
    /// answers fit its requests never ends in it.
    Unanswered,
}

impl View for RuntimeError {
    type V = ErrorModel;

    open spec fn view(&self) -> ErrorModel {
        match self.kind {
            RuntimeErrorKind::UninitializedVariable(n) => ErrorModel::UninitializedVariable(n@),
            RuntimeErrorKind::UnknownVariable(n) => ErrorModel::UnknownVariable(n@),
            RuntimeErrorKind::UnknownAssignmentTarget(n) => ErrorModel::UnknownAssignmentTarget(n@),
            RuntimeErrorKind::Comparison(op, a, b) => ErrorModel::Comparison(op, a@, b@),
            RuntimeErrorKind::Arithmetic(op, a, b) => ErrorModel::Arithmetic(op, a@, b@),
            RuntimeErrorKind::Negation(v) => ErrorModel::Negation(v@),
            RuntimeErrorKind::UnsupportedOperator(op) => ErrorModel::UnsupportedOperator(op),
            RuntimeErrorKind::UnsupportedCall => ErrorModel::UnsupportedCall,
            RuntimeErrorKind::StepLimitReached => ErrorModel::StepLimitReached,
        }
    }
}

impl RuntimeError {
    pub fn new(kind: RuntimeErrorKind) -> (r: RuntimeError)
        ensures
            r.kind == kind,
    {
        RuntimeError { kind }
    }
}

/// The model of the result of evaluating an expression.
pub open spec fn value_result_model(r: Result<Value, RuntimeError>) -> Result<ValueModel, ErrorModel> {
    match r {
        Ok(v) => Ok(v@),
        Err(e) => Err(e@),
    }
}

/// The model of the result of running statements.
pub open spec fn unit_result_model(r: Result<(), RuntimeError>) -> Result<(), ErrorModel> {
    match r {
        Ok(_) => Ok(()),
        Err(e) => Err(e@),
    }
}

} // verus!
