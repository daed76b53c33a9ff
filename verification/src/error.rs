//! The single failure kind, and the messages it carries.

use vstd::prelude::*;
use vstd::string::StringExecFns;

verus! {

/// Why a stage of the interpreter failed: a human-readable cause.
#[derive(Debug, PartialEq, Eq)]
pub enum Error {
    Reason(String),
}

impl View for Error {
    type V = Seq<char>;

    /// An error is its message.
    open spec fn view(&self) -> Seq<char> {
        match self {
            Error::Reason(message) => message@,
        }
    }
}

impl Clone for Error {
    fn clone(&self) -> (copy: Error)
        ensures
            copy@ == self@,
    {
        match self {
            Error::Reason(message) => Error::Reason(message.clone()),
        }
    }
}

impl Error {
    /// An error with the given message.
    pub fn new(message: &str) -> (e: Error)
        ensures
            e@ == message@,
    {
        Error::Reason(message.to_owned())
    }

    /// The message, as text.
    pub fn to_string(&self) -> (text: String)
        ensures
            text@ == self@,
    {
        match self {
            Error::Reason(message) => message.clone(),
        }
    }
}

/// Parsing was asked for an expression where no token is left.
pub open spec fn msg_no_token() -> Seq<char> {
    "could not get token"@
}

/// A list was opened and the tokens ran out before it was closed.
pub open spec fn msg_unclosed() -> Seq<char> {
    "could not find closing `)`"@
}

/// A `)` stands where an expression should begin.
pub open spec fn msg_unexpected_close() -> Seq<char> {
    "unexpected `)`"@
}

/// An arithmetic operation was given something that is not a number.
pub open spec fn msg_expected_number() -> Seq<char> {
    "expected a number"@
}

/// Subtraction was called without arguments.
pub open spec fn msg_no_operand() -> Seq<char> {
    "`-` requires at least one operand"@
}

/// The empty list was evaluated.
pub open spec fn msg_empty_list() -> Seq<char> {
    "expected non-empty list"@
}

/// The head of an evaluated list did not reduce to a native operation.
pub open spec fn msg_not_a_function() -> Seq<char> {
    "operator must be a function"@
}

/// A native operation was evaluated as an expression of its own.
pub open spec fn msg_bare_function() -> Seq<char> {
    "cannot evaluate a function"@
}

/// The symbol `name` has no binding.
pub open spec fn msg_unbound(name: Seq<char>) -> Seq<char> {
    "unexpected symbol `"@ + name + "`"@
}

/// The error for a symbol that the environment does not bind.
pub fn unbound(name: &str) -> (e: Error)
    ensures
        e@ == msg_unbound(name@),
{
    let message = String::from_str("unexpected symbol `").concat(name).concat("`");
    Error::Reason(message)
}

} // verus!
