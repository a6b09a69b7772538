//! The error taxonomy shared by the store, the commands and the dispatcher.

use vstd::prelude::*;

verus! {

/// A single error value describes every failed call: a failed dispatch
/// returns exactly one of these, and a reconcile pass that fails carries
/// one out to its caller.
#[derive(Debug, Clone, Copy, PartialEq, Eq, Structural)]
pub enum CommandError {
    /// A key, container or resource that the call needs does not exist.
    NotFound,
    /// A container was created twice.
    AlreadyExists,
    /// An unregistered verb, a missing or malformed parameter, or an
    /// unparseable value.
    InvalidInput,
    /// A validator-stage handler rejected the call.
    ValidationFailed,
    /// Cooperative cancellation was observed before the work finished.
    Cancelled,
    /// An unexpected serialization or storage failure, such as stored bytes
    /// that no longer parse.
    Internal,
}

impl CommandError {
    /// The error's name, for callers that render it.
    pub fn as_str(&self) -> (s: &'static str)
        ensures
            self is NotFound ==> s@ == "not found"@,
            self is AlreadyExists ==> s@ == "already exists"@,
            self is InvalidInput ==> s@ == "invalid input"@,
            self is ValidationFailed ==> s@ == "validation failed"@,
            self is Cancelled ==> s@ == "cancelled"@,
            self is Internal ==> s@ == "internal error"@,
    {
        match self {
            CommandError::NotFound => "not found",
            CommandError::AlreadyExists => "already exists",
            CommandError::InvalidInput => "invalid input",
            CommandError::ValidationFailed => "validation failed",
            CommandError::Cancelled => "cancelled",
            CommandError::Internal => "internal error",
        }
    }
}

} // verus!
