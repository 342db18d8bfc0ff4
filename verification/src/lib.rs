//! The read stage of a small Lisp: a tokenizer and a recursive-descent
//! parser that turn one line of text into a tree of values, with the value
//! model they build and the decisions of the prompt loop around them.

pub mod error;
pub mod types;
pub mod tokenizer;
pub mod parser;
pub mod repl;
pub mod roundtrip;
