//! The one error type of the language: a kind, a message and a position.
use vstd::prelude::*;
use vstd::string::StringExecFns;
use crate::lexer::LexerPosition;
use crate::lexer::tokens::TokenPosition;
use crate::text::{int_text, push_int};

verus! {

/// The kinds of error.
#[derive(Copy, Clone, Debug, PartialEq, Eq, Structural)]
pub enum ErrorType {
    SyntaxError,
    InvalidToken,
    ParserError,
    InvalidSyntax,
    AssertError,
    InvalidOperation,
    Exception,
    TypeError,
    UndefinedVariable,
    ArgumentError,
    IOError,
}

/// An error raised while lexing, parsing or evaluating.
#[derive(Debug, PartialEq)]
pub struct Error {
    pub error_type: ErrorType,
    pub error_message: String,
    pub position: TokenPosition,
}

/// The mathematical value of an [`Error`].
pub struct ErrorView {
    pub error_type: ErrorType,
    pub error_message: Seq<char>,
    pub position: TokenPosition,
}

impl View for Error {
    type V = ErrorView;

    open spec fn view(&self) -> ErrorView {
        ErrorView {
            error_type: self.error_type,
            error_message: self.error_message@,
            position: self.position,
        }
    }
}

/// The name of an error kind, as it is shown to the user.
pub open spec fn error_type_name(kind: ErrorType) -> Seq<char> {
    match kind {
        ErrorType::SyntaxError => "SyntaxError"@,
        ErrorType::InvalidToken => "InvalidToken"@,
        ErrorType::ParserError => "ParserError"@,
        ErrorType::InvalidSyntax => "InvalidSyntax"@,
        ErrorType::AssertError => "AssertError"@,
        ErrorType::InvalidOperation => "InvalidOperation"@,
        ErrorType::Exception => "Exception"@,
        ErrorType::TypeError => "TypeError"@,
        ErrorType::UndefinedVariable => "UndefinedVariable"@,
        ErrorType::ArgumentError => "ArgumentError"@,
        ErrorType::IOError => "IOError"@,
    }
}

/// The line that shows an error to the user. An error without a place in the
/// source is marked as internal and shown without line and column.
pub open spec fn error_text(e: ErrorView) -> Seq<char> {
    if e.position.is_internal() {
        "[Internal error] "@ + error_type_name(e.error_type) + ": "@ + e.error_message
    } else {
        error_type_name(e.error_type) + ": "@ + e.error_message + " at line "@ + int_text(
            e.position.line as int,
        ) + ", column "@ + int_text(e.position.column as int)
    }
}

impl ErrorType {
    /// The name of the kind.
    pub fn name(&self) -> (r: String)
        ensures
            r@ == error_type_name(*self),
    {
        match self {
            ErrorType::SyntaxError => String::from_str("SyntaxError"),
            ErrorType::InvalidToken => String::from_str("InvalidToken"),
            ErrorType::ParserError => String::from_str("ParserError"),
            ErrorType::InvalidSyntax => String::from_str("InvalidSyntax"),
            ErrorType::AssertError => String::from_str("AssertError"),
            ErrorType::InvalidOperation => String::from_str("InvalidOperation"),
            ErrorType::Exception => String::from_str("Exception"),
            ErrorType::TypeError => String::from_str("TypeError"),
            ErrorType::UndefinedVariable => String::from_str("UndefinedVariable"),
            ErrorType::ArgumentError => String::from_str("ArgumentError"),
            ErrorType::IOError => String::from_str("IOError"),
        }
    }
}

impl Clone for Error {
    fn clone(&self) -> (r: Error)
        ensures
            r == *self,
    {
        Error {
            error_type: self.error_type,
            error_message: self.error_message.clone(),
            position: self.position,
        }
    }
}

impl Error {
    /// An error of the given kind at the lexer's current line and column.
    pub fn new_lexer(error_type: ErrorType, error_message: String, position: &LexerPosition) -> (r:
        Error)
        ensures
            r.error_type == error_type,
            r.error_message == error_message,
            r.position == TokenPosition::spec_from(position),
    {
        Error { error_type, error_message, position: TokenPosition::from(position) }
    }

    /// A parser error at the given position.
    pub fn new_parser(error_message: String, position: &TokenPosition) -> (r: Error)
        ensures
            r.error_type == ErrorType::ParserError,
            r.error_message == error_message,
            r.position == *position,
    {
        Error { error_type: ErrorType::ParserError, error_message, position: *position }
    }

    /// An error of the given kind raised while evaluating, at the given
    /// position.
    pub fn new_runtime(error_type: ErrorType, error_message: String, position: &TokenPosition) -> (r:
        Error)
        ensures
            r.error_type == error_type,
            r.error_message == error_message,
            r.position == *position,
    {
        Error { error_type, error_message, position: *position }
    }

    /// The line that shows this error to the user.
    pub fn to_string(&self) -> (r: String)
        ensures
            r@ == error_text(self@),
    {
        if self.position.is_internal() {
            let mut out = String::from_str("[Internal error] ");
            out.append(self.error_type.name().as_str());
            out.append(": ");
            out.append(self.error_message.as_str());
            out
        } else {
            let mut out = self.error_type.name();
            out.append(": ");
            out.append(self.error_message.as_str());
            out.append(" at line ");
            push_int(&mut out, self.position.line as i64);
            out.append(", column ");
            push_int(&mut out, self.position.column as i64);
            out
        }
    }
}

} // verus!
