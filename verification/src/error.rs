use vstd::prelude::*;

verus! {

/// Failure surfaced by a save or load operation. Every fallible operation of
/// the library returns either its success value or exactly one of these
/// kinds; nothing is retried or swallowed internally.
#[derive(Debug)]
pub enum Error {
    /// The underlying filesystem operation failed (missing file, permission
    /// denied, directory creation failure). Carries the platform's message.
    Io(String),
    /// The network backend failed at the transport level (connection,
    /// resolution, non-success response). Kept apart from `Io` because it
    /// originates from a different subsystem.
    Http(String),
    /// The JSON codec could not decode the bytes into the expected shape:
    /// malformed JSON, a missing required field, or an unrecognized tag.
    Serde(String),
}

impl Error {
    /// Human-readable description of the failure.
    pub fn message(&self) -> (r: &str)
        ensures
            r@ == match *self {
                Error::Io(ref s) => s@,
                Error::Http(ref s) => s@,
                Error::Serde(ref s) => s@,
            },
    {
        match self {
            Error::Io(s) => s.as_str(),
            Error::Http(s) => s.as_str(),
            Error::Serde(s) => s.as_str(),
        }
    }
}

} // verus!
