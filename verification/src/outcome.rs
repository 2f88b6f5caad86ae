//! How the main process of an application, and with it a run session, ends.

use vstd::prelude::*;
use crate::error::{Error, ErrorKind, ErrorView};

verus! {

/// The mathematical content of an [`Outcome`].
pub enum OutcomeView {
    Completed,
    Crashed { code: i32, message: Seq<char> },
    Failed(ErrorView),
}

/// The result of a run session.
#[derive(Debug, PartialEq, Eq)]
pub enum Outcome {
    /// The application ran and exited cleanly.
    Completed,
    /// The application ran and reported failure: it crashed.
    Crashed { code: i32, message: String },
    /// The session could not run the application to its end: the engine, the
    /// credentials or the network controller failed.
    Failed(Error),
}

impl View for Outcome {
    type V = OutcomeView;

    open spec fn view(&self) -> OutcomeView {
        match *self {
            Outcome::Completed => OutcomeView::Completed,
            Outcome::Crashed { code, message } => OutcomeView::Crashed { code, message: message@ },
            Outcome::Failed(error) => OutcomeView::Failed(error@),
        }
    }
}

impl DeepView for Outcome {
    type V = OutcomeView;

    open spec fn deep_view(&self) -> OutcomeView {
        self@
    }
}

/// The mathematical content of a [`ProcessExit`].
pub enum ProcessExitView {
    Panicked,
    Returned(OutcomeView),
}

/// What became of the task that ran the main process.
#[derive(Debug, PartialEq, Eq)]
pub enum ProcessExit {
    /// The task itself died before it could report anything.
    Panicked,
    /// The task ended and reported how the process went.
    Returned(Outcome),
}

impl View for ProcessExit {
    type V = ProcessExitView;

    open spec fn view(&self) -> ProcessExitView {
        match *self {
            ProcessExit::Panicked => ProcessExitView::Panicked,
            ProcessExit::Returned(outcome) => ProcessExitView::Returned(outcome@),
        }
    }
}

impl DeepView for ProcessExit {
    type V = ProcessExitView;

    open spec fn deep_view(&self) -> ProcessExitView {
        self@
    }
}

/// The error for a process task that died.
pub open spec fn runtime_panicked() -> ErrorView {
    ErrorView { kind: ErrorKind::Docker, message: "Manager runtime panicked!"@ }
}

/// The outcome that a process exit stands for: the process's own report, or
/// an engine failure if its task died.
pub open spec fn settled(exit: ProcessExitView) -> OutcomeView {
    match exit {
        ProcessExitView::Panicked => OutcomeView::Failed(runtime_panicked()),
        ProcessExitView::Returned(outcome) => outcome,
    }
}

/// Turns the exit of the process task into the outcome it stands for.
pub fn settle(exit: ProcessExit) -> (outcome: Outcome)
    ensures
        outcome@ == settled(exit@),
{
    match exit {
        ProcessExit::Panicked => Outcome::Failed(
            Error::new(ErrorKind::Docker, "Manager runtime panicked!"),
        ),
        ProcessExit::Returned(outcome) => outcome,
    }
}

} // verus!
