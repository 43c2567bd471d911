//! The failure taxonomy every request-level operation reports from.

use vstd::prelude::*;

verus! {

/// Every way a chart or session request can fail.
#[derive(Clone, Copy, Debug, PartialEq, Eq, Structural)]
pub enum DiwkError {
    /// The referenced chart or session id does not exist.
    NotFound,
    /// The supplied write- or read-password does not match the stored one.
    IncorrectPassword,
    /// A write-phase submission was attempted on a session whose write-phase
    /// is already consumed.
    AlreadyFinished,
    /// A read-phase submission was attempted before any write-phase
    /// submission.
    NotYetFinished,
    /// A malformed selection payload, too many selected options, or chart
    /// limits exceeded at creation time.
    InvalidRequest,
    /// No datastore connection could be obtained.
    StorageUnavailable,
    /// The datastore reported an error during an operation.
    StorageError,
}

impl DiwkError {
    /// The HTTP status code under which this failure is reported.
    pub fn status_code(&self) -> (code: u16)
        ensures
            code == match *self {
                DiwkError::NotFound => 404u16,
                DiwkError::IncorrectPassword => 401u16,
                DiwkError::AlreadyFinished => 400u16,
                DiwkError::NotYetFinished => 400u16,
                DiwkError::InvalidRequest => 400u16,
                DiwkError::StorageUnavailable => 503u16,
                DiwkError::StorageError => 500u16,
            },
    {
        match *self {
            DiwkError::NotFound => 404,
            DiwkError::IncorrectPassword => 401,
            DiwkError::AlreadyFinished => 400,
            DiwkError::NotYetFinished => 400,
            DiwkError::InvalidRequest => 400,
            DiwkError::StorageUnavailable => 503,
            DiwkError::StorageError => 500,
        }
    }

    /// A short human-readable description of the failure.
    pub fn message(&self) -> (msg: &'static str)
        ensures
            *self is NotFound ==> msg@ == "Not Found"@,
            *self is IncorrectPassword ==> msg@ == "Wrong password"@,
            *self is AlreadyFinished ==> msg@ == "Game has already finished"@,
            *self is NotYetFinished ==> msg@ == "Game has not finished"@,
            *self is InvalidRequest ==> msg@ == "Bad request"@,
            *self is StorageUnavailable ==> msg@ == "There are currently no open connections"@,
            *self is StorageError ==> msg@ == "Storage error"@,
    {
        match *self {
            DiwkError::NotFound => "Not Found",
            DiwkError::IncorrectPassword => "Wrong password",
            DiwkError::AlreadyFinished => "Game has already finished",
            DiwkError::NotYetFinished => "Game has not finished",
            DiwkError::InvalidRequest => "Bad request",
            DiwkError::StorageUnavailable => "There are currently no open connections",
            DiwkError::StorageError => "Storage error",
        }
    }
}

} // verus!
