//! Errors reported by the parser and by the built-in procedures.

use crate::located::Location;
use vstd::prelude::*;
use vstd::string::*;

verus! {

/// The two kinds of failure.
#[derive(Clone, Copy, Debug, PartialEq, Eq)]
pub enum ErrorType {
    /// A violation of the grammar, found by the parser.
    Syntax,
    /// A failure at run time: a type or arity mismatch, a division by
    /// zero, an index out of bounds, a number that cannot be represented.
    Logic,
}

/// An error with its kind, a message for the reader and, for syntax
/// errors, the position of the token at which it was found.
#[derive(Debug, PartialEq)]
pub struct SchemeError {
    pub category: ErrorType,
    pub message: String,
    pub location: Location,
}

/// The mathematical content of a [`SchemeError`].
pub struct ErrorView {
    pub category: ErrorType,
    pub message: Seq<char>,
    pub location: Location,
}

impl View for SchemeError {
    type V = ErrorView;

    open spec fn view(&self) -> ErrorView {
        ErrorView { category: self.category, message: self.message@, location: self.location }
    }
}

/// The syntax error with the given message at the given position.
pub open spec fn syntax_error(location: Location, message: Seq<char>) -> ErrorView {
    ErrorView { category: ErrorType::Syntax, message, location }
}

/// The logic error with the given message; it has no position.
pub open spec fn logic_error(message: Seq<char>) -> ErrorView {
    ErrorView { category: ErrorType::Logic, message, location: None }
}

impl Clone for SchemeError {
    fn clone(&self) -> (copy: SchemeError)
        ensures
            copy == *self,
    {
        SchemeError {
            category: self.category,
            message: self.message.clone(),
            location: self.location,
        }
    }
}

impl SchemeError {
    /// A syntax error found at `location`.
    pub fn syntax(location: Location, message: &str) -> (error: SchemeError)
        ensures
            error@ == syntax_error(location, message@),
    {
        SchemeError { category: ErrorType::Syntax, message: String::from_str(message), location }
    }

    /// A logic error with the given text.
    pub fn logic_text(message: &str) -> (error: SchemeError)
        ensures
            error@ == logic_error(message@),
    {
        SchemeError { category: ErrorType::Logic, message: String::from_str(message), location: None }
    }

    /// A logic error.
    pub fn logic(message: String) -> (error: SchemeError)
        ensures
            error@ == logic_error(message@),
    {
        SchemeError { category: ErrorType::Logic, message, location: None }
    }
}

} // verus!
