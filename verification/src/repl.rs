//! The decisions of the prompt loop: what an outcome of the line source
//! means, and what the loop does next. Reading and printing are the
//! caller's part.

use vstd::prelude::*;
use crate::error::ReadError;

verus! {

/// What the line source came back with, as plain values.
#[derive(Debug)]
pub enum LineEvent {
    /// A line of text.
    Line(String),
    /// The input ended.
    EndOfFile,
    /// The user interrupted the prompt.
    Interrupted,
    /// Reading failed; the text says how.
    Fault(String),
}

/// What the loop does after one read.
#[derive(Debug)]
pub enum Step {
    /// Print the text and read on.
    Print(String),
    /// End the session with success.
    ExitSuccess,
    /// Report the text and end the session with failure.
    ExitFailure(String),
}

/// Sorts an outcome of the line source: a line is handed on, the end of the
/// input and an interrupt both end the session, anything else is a failure.
pub fn read_outcome(event: LineEvent) -> (r: Result<String, ReadError>)
    ensures
        match event {
            LineEvent::Line(line) => r matches Ok(text) && text@ == line@,
            LineEvent::EndOfFile => r matches Err(ReadError::Interrupt),
            LineEvent::Interrupted => r matches Err(ReadError::Interrupt),
            LineEvent::Fault(message) => r matches Err(ReadError::Failure(text)) && text@
                == message@,
        },
{
    match event {
        LineEvent::Line(line) => Ok(line),
        LineEvent::EndOfFile => Err(ReadError::Interrupt),
        LineEvent::Interrupted => Err(ReadError::Interrupt),
        LineEvent::Fault(message) => Err(ReadError::Failure(message)),
    }
}

/// Evaluates a line: every line stands for itself.
pub fn eval(input: String) -> (output: String)
    ensures
        output@ == input@,
{
    input
}

/// Reads and evaluates a line, and gives the text to print.
pub fn rep(input: String) -> (output: String)
    ensures
        output@ == input@,
{
    eval(input)
}

/// One turn of the loop: a line is evaluated and printed, an interrupt ends
/// the session well, a failure ends it badly with its message.
pub fn next_step(read: Result<String, ReadError>) -> (step: Step)
    ensures
        match read {
            Ok(line) => step matches Step::Print(text) && text@ == line@,
            Err(ReadError::Interrupt) => step matches Step::ExitSuccess,
            Err(ReadError::Failure(message)) => step matches Step::ExitFailure(text) && text@
                == message@,
        },
{
    match read {
        Ok(line) => Step::Print(rep(line)),
        Err(ReadError::Interrupt) => Step::ExitSuccess,
        Err(ReadError::Failure(message)) => Step::ExitFailure(message),
    }
}

} // verus!
