//! What is told of an expression that could not be evaluated.

use crate::outside::{evaluation_failure, failure_in};
use vstd::prelude::*;
use vstd::string::StringExecFns;

verus! {

/// Why the evaluation of an expression failed.
#[derive(Debug, PartialEq)]
pub enum EvalError {
    /// The expression names a variable that has no value.
    UnknownVariable(String),
    /// A function of the expression could not be applied.
    Function(String),
    /// Any other failure.
    Other,
}

/// The message for a failure.
pub open spec fn message_of(failure: EvalError) -> Seq<char> {
    match failure {
        EvalError::UnknownVariable(name) => "Invalid var: "@ + name@,
        EvalError::Function(name) => "Invalid func: "@ + name@,
        EvalError::Other => "Parsing error"@,
    }
}

/// Writes the message for a failure: it names the variable or the function
/// that the failure is about.
pub fn error_message(failure: &EvalError) -> (message: String)
    ensures
        message@ == message_of(*failure),
{
    match failure {
        EvalError::UnknownVariable(name) => String::from_str("Invalid var: ").concat(
            name.as_str(),
        ),
        EvalError::Function(name) => String::from_str("Invalid func: ").concat(name.as_str()),
        EvalError::Other => String::from_str("Parsing error"),
    }
}

/// Writes the message for an error of the expression library.
pub fn meval_error_msg(error: &meval::Error) -> (message: String)
    ensures
        message@ == message_of(failure_in(*error)),
{
    let failure = evaluation_failure(error);
    error_message(&failure)
}

} // verus!
