//! The library's error kinds, one per failure the scheduler distinguishes.
use vstd::prelude::*;

verus! {

/// What went wrong, with the name of what it went wrong on.
#[derive(Debug)]
pub enum ErrorKind {
    InvalidPipelineFolder(String),
    InvalidPipelineFile(String),
    InvalidStateFile(String),
    PipelineExecutionFailed(String),
    StageExecutionFailed(String),
    JobStartFailed(String),
    JobWaitFailed(String),
    /// The job's breadcrumb and what it wrote to standard error.
    JobExecutionFailed(String, String),
    InvalidIntervalExpression(String),
}

/// An error: its kind and, where one is known, the message of the failure that caused it.
#[derive(Debug)]
pub struct Error {
    pub kind: ErrorKind,
    pub cause: Option<String>,
}

impl Error {
    pub fn new(kind: ErrorKind) -> (r: Error)
        ensures
            r.kind == kind,
            r.cause is None,
    {
        Error { kind, cause: None }
    }

    pub fn with_cause(kind: ErrorKind, cause: String) -> (r: Error)
        ensures
            r.kind == kind,
            r.cause == Some(cause),
    {
        Error { kind, cause: Some(cause) }
    }

    pub fn kind(&self) -> (r: &ErrorKind)
        ensures
            *r == self.kind,
    {
        &self.kind
    }
}

impl From<ErrorKind> for Error {
    fn from(kind: ErrorKind) -> (r: Error) {
        Error { kind, cause: None }
    }
}

impl vstd::std_specs::convert::FromSpecImpl<ErrorKind> for Error {
    open spec fn obeys_from_spec() -> bool {
        true
    }

    open spec fn from_spec(kind: ErrorKind) -> Error {
        Error { kind, cause: None }
    }
}

} // verus!
