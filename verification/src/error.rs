//! Errors of the reader and of the line source around it.

use vstd::prelude::*;
use vstd::std_specs::convert::FromSpecImpl;

verus! {

pub type MalResult<T> = Result<T, MalError>;

/// What can go wrong while a line is tokenized and parsed.
#[derive(Debug, Clone, Copy, PartialEq, Eq, Structural)]
pub enum ReaderError {
    /// A string literal is still open where the input ends.
    UnbalancedString,
    /// A `(` without its `)`, or a `)` that closes nothing.
    UnbalancedList,
    /// A `[` without its `]`, or a `]` that closes nothing.
    UnbalancedVector,
    /// A `{` without its `}`, or a `}` that closes nothing.
    UnbalancedMap,
    /// A form was required where the input ends.
    UnexpectedEndOfInput,
}

impl ReaderError {
    /// The text of the message that belongs to each error.
    pub open spec fn message_spec(self) -> Seq<char> {
        match self {
            ReaderError::UnbalancedString => "Unbalanced string"@,
            ReaderError::UnbalancedList => "Unbalanced list"@,
            ReaderError::UnbalancedVector => "Unbalanced vector"@,
            ReaderError::UnbalancedMap => "Unbalanced map"@,
            ReaderError::UnexpectedEndOfInput => "Unexpected end of input"@,
        }
    }

    /// The message shown to the user for this error.
    pub fn message(self) -> (text: String)
        ensures
            text@ == self.message_spec(),
    {
        let text: &str = match self {
            ReaderError::UnbalancedString => "Unbalanced string",
            ReaderError::UnbalancedList => "Unbalanced list",
            ReaderError::UnbalancedVector => "Unbalanced vector",
            ReaderError::UnbalancedMap => "Unbalanced map",
            ReaderError::UnexpectedEndOfInput => "Unexpected end of input",
        };
        String::from_str(text)
    }
}

/// An error that carries nothing but its message.
#[derive(Debug)]
pub struct MalError(pub String);

impl View for MalError {
    type V = Seq<char>;

    open spec fn view(&self) -> Seq<char> {
        self.0@
    }
}

impl MalError {
    /// A copy of the message.
    pub fn message(&self) -> (text: String)
        ensures
            text@ == self@,
    {
        self.0.clone()
    }
}

impl From<String> for MalError {
    fn from(string: String) -> (e: MalError) {
        MalError(string)
    }
}

impl FromSpecImpl<String> for MalError {
    open spec fn obeys_from_spec() -> bool {
        true
    }

    open spec fn from_spec(string: String) -> MalError {
        MalError(string)
    }
}

impl<'a> From<&'a str> for MalError {
    fn from(string: &'a str) -> (e: MalError)
        ensures
            e@ == string@,
    {
        MalError(String::from_str(string))
    }
}

impl<'a> FromSpecImpl<&'a str> for MalError {
    open spec fn obeys_from_spec() -> bool {
        false
    }

    open spec fn from_spec(string: &'a str) -> MalError {
        arbitrary()
    }
}

impl FromSpecImpl<ReaderError> for MalError {
    open spec fn obeys_from_spec() -> bool {
        false
    }

    open spec fn from_spec(error: ReaderError) -> MalError {
        arbitrary()
    }
}

impl From<ReaderError> for MalError {
    fn from(error: ReaderError) -> (e: MalError)
        ensures
            e@ == error.message_spec(),
    {
        MalError(error.message())
    }
}

/// Why the line source handed over no line.
#[derive(Debug)]
pub enum ReadError {
    /// The user ended the session (end of file or an interrupt).
    Interrupt,
    /// Reading failed; the text says how.
    Failure(String),
}

} // verus!
