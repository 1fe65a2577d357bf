//! The error taxonomy of the service.
//!
//! Failures of the outside world (the HTTP client, the JSON parser, the file
//! system) are carried as their message text; the variant records the class,
//! which decides retrying: only `Unauthorized` aborts a whole job, every other
//! class is confined to the date being fetched.

use vstd::prelude::*;

verus! {

/// Why a fetch or a cache operation failed.
#[derive(Debug)]
pub enum DebugAppError {
    /// The HTTP client failed (connection, timeout, protocol).
    Reqwest(String),
    /// The upstream body was JSON but could not be decoded.
    Serde(String),
    /// A date string matched none of the accepted formats.
    DateParse(String),
    /// The upstream body was empty or not JSON at all.
    Serialization(String),
    /// The cache snapshot could not be written.
    FileWrite(String),
    /// The upstream session is no longer valid; never retried, aborts the job.
    Unauthorized(String),
}

impl Clone for DebugAppError {
    fn clone(&self) -> (r: Self)
        ensures
            r == *self,
    {
        match self {
            DebugAppError::Reqwest(s) => DebugAppError::Reqwest(s.clone()),
            DebugAppError::Serde(s) => DebugAppError::Serde(s.clone()),
            DebugAppError::DateParse(s) => DebugAppError::DateParse(s.clone()),
            DebugAppError::Serialization(s) => DebugAppError::Serialization(s.clone()),
            DebugAppError::FileWrite(s) => DebugAppError::FileWrite(s.clone()),
            DebugAppError::Unauthorized(s) => DebugAppError::Unauthorized(s.clone()),
        }
    }
}

impl DebugAppError {
    /// An authentication failure is the one job-fatal, non-retryable class.
    pub fn is_auth_failure(&self) -> (r: bool)
        ensures
            r == (self is Unauthorized),
    {
        match self {
            DebugAppError::Unauthorized(_) => true,
            _ => false,
        }
    }
}

/// Why a job request was rejected synchronously.
#[derive(Debug, Clone, Copy, PartialEq, Eq, Structural)]
pub enum JobRejection {
    /// A job with the same bounds is still live.
    AlreadyRunning,
    /// The concurrency ceiling is reached.
    TooManyConcurrentJobs,
}

} // verus!
