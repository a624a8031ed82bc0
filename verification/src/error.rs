//! The ways in which a call can fail.

use vstd::prelude::*;
use vstd::string::StringExecFns;

verus! {

/// Why a call was rejected. A rejected call leaves the state as it was.
#[derive(Clone, Copy, Debug, PartialEq, Eq, Structural)]
pub enum Error {
    /// The key, encoding or chunk asked for does not exist.
    NotFound,
    /// The caller does not hold the permission that the call needs.
    PermissionDenied,
    /// Something is already stored under the key.
    AlreadyExists,
    /// A continuation token names content that has changed since.
    Stale,
    /// A path, header, hash or token is not in the form it must have.
    Malformed,
    /// A call to another service failed for the moment.
    Unavailable,
}

impl Error {
    /// A short text for the error, for the rejection message of a call.
    pub fn message(&self) -> (text: String)
        ensures
            text@ == (match *self {
                Error::NotFound => "not found"@,
                Error::PermissionDenied => "permission denied"@,
                Error::AlreadyExists => "already exists"@,
                Error::Stale => "stale continuation token"@,
                Error::Malformed => "malformed input"@,
                Error::Unavailable => "temporarily unavailable"@,
            }),
    {
        match self {
            Error::NotFound => String::from_str("not found"),
            Error::PermissionDenied => String::from_str("permission denied"),
            Error::AlreadyExists => String::from_str("already exists"),
            Error::Stale => String::from_str("stale continuation token"),
            Error::Malformed => String::from_str("malformed input"),
            Error::Unavailable => String::from_str("temporarily unavailable"),
        }
    }
}

} // verus!
