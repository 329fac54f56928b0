//! The errors that the broker's fallible operations hand back.

use vstd::prelude::*;
use vstd::string::*;

verus! {

/// An error carrying a human-readable account of what went wrong.
#[derive(Debug)]
pub struct AppError {
    details: String,
}

impl View for AppError {
    type V = Seq<char>;

    /// The error's message.
    closed spec fn view(&self) -> Seq<char> {
        self.details@
    }
}

impl AppError {
    /// Builds an error whose message is `msg`.
    pub fn new(msg: &str) -> (err: AppError)
        ensures
            err@ == msg@,
    {
        AppError { details: msg.to_owned() }
    }

    /// The message this error was built with.
    pub fn description(&self) -> (text: &str)
        ensures
            text@ == self@,
    {
        self.details.as_str()
    }
}

/// Why a raw device message could not be turned into readings.
#[derive(Debug, Clone, Copy, PartialEq, Eq, Structural)]
pub enum ParseError {
    /// The message is not a JSON document.
    InvalidJson,
    /// The document is not an array.
    NotAnArray,
    /// An element of the array has no string under `type`.
    MissingType,
    /// An element of the array has no number under `value`.
    InvalidValue,
    /// The message is not wrapped in `<` and `>`.
    MissingDelimiters,
    /// The message does not hold exactly three fields.
    WrongFieldCount,
    /// A field of the message is not a number.
    InvalidNumber,
}

impl ParseError {
    /// The account that goes with each error.
    pub open spec fn message_text(self) -> Seq<char> {
        match self {
            ParseError::InvalidJson => "Invalid JSON"@,
            ParseError::NotAnArray => "Expected a JSON array"@,
            ParseError::MissingType => "Missing 'type' field"@,
            ParseError::InvalidValue => "Invalid 'value' field"@,
            ParseError::MissingDelimiters => "Expected a message between '<' and '>'"@,
            ParseError::WrongFieldCount => "Expected three fields"@,
            ParseError::InvalidNumber => "Invalid number"@,
        }
    }

    /// A human-readable account of the error.
    pub fn message(&self) -> (text: &'static str)
        ensures
            text@ == self.message_text(),
    {
        match self {
            ParseError::InvalidJson => "Invalid JSON",
            ParseError::NotAnArray => "Expected a JSON array",
            ParseError::MissingType => "Missing 'type' field",
            ParseError::InvalidValue => "Invalid 'value' field",
            ParseError::MissingDelimiters => "Expected a message between '<' and '>'",
            ParseError::WrongFieldCount => "Expected three fields",
            ParseError::InvalidNumber => "Invalid number",
        }
    }

    /// The error as an [`AppError`] with the same account.
    pub fn to_app_error(&self) -> (err: AppError)
        ensures
            err@ == self.message_text(),
    {
        AppError::new(self.message())
    }
}

} // verus!
