//! The error type of the services' operations.

use vstd::prelude::*;

verus! {

/// The broad category of a failure.
#[derive(Clone, Copy, Debug, PartialEq, Eq, Structural)]
pub enum ErrorKind {
    InvalidData,
    InvalidInput,
    NotFound,
    TimedOut,
    Other,
}

/// A failure with its category and a message for the user.
#[derive(Debug)]
pub struct Error {
    pub kind: ErrorKind,
    pub message: String,
}

impl Error {
    /// An error of the given kind with the given message.
    pub fn new(kind: ErrorKind, message: &str) -> (e: Error)
        ensures
            e.kind == kind,
            e.message@ == message@,
    {
        Error { kind, message: message.to_owned() }
    }
}

} // verus!
