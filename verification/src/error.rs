//! Errors that end a run session or keep a registry from being built.

use vstd::prelude::*;
use vstd::string::StringExecFns;

verus! {

/// The part of the system an error is charged to.
#[derive(Clone, Copy, Debug, PartialEq, Eq, Structural)]
pub enum ErrorKind {
    /// The container engine: it could not be reached, failed, or reported
    /// something the supervisor cannot use.
    Docker,
    /// Onion-service credentials: a declared interface has no secret.
    Tor,
    /// The network controller refused to publish or to withdraw.
    Network,
    /// Persisted state could not be read.
    Storage,
    /// Persisted state was read but contradicts itself.
    Initialization,
}

/// The mathematical content of an [`Error`].
pub struct ErrorView {
    pub kind: ErrorKind,
    pub message: Seq<char>,
}

/// An error with the component it is charged to and a message for people.
#[derive(Debug, PartialEq, Eq)]
pub struct Error {
    pub kind: ErrorKind,
    pub message: String,
}

impl View for Error {
    type V = ErrorView;

    open spec fn view(&self) -> ErrorView {
        ErrorView { kind: self.kind, message: self.message@ }
    }
}

impl Error {
    /// An error of the given kind with the given message.
    pub fn new(kind: ErrorKind, message: &str) -> (error: Error)
        ensures
            error@ == (ErrorView { kind, message: message@ }),
    {
        Error { kind, message: String::from_str(message) }
    }

    /// A copy of this error.
    pub fn duplicate(&self) -> (copy: Error)
        ensures
            copy@ == self@,
    {
        Error { kind: self.kind, message: self.message.clone() }
    }
}

} // verus!
