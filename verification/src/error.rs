//! The error taxonomy that every workflow operation reports.

use vstd::prelude::*;

verus! {

/// Outcome of a failed workflow operation. An outer transport layer maps
/// these to status codes; that mapping is outside this crate.
#[derive(Debug, PartialEq, Eq)]
pub enum Error {
    /// An authorization check failed; carries the permission that was checked.
    Forbidden(String),
    /// A precondition or state-machine rule was violated.
    BadRequest(String),
    /// A referenced entity does not exist.
    NotFound(String),
    /// The storage layer failed; unrecoverable for the current request.
    ServerError(String),
}

impl Error {
    /// The permission name carried by a `Forbidden` outcome, if any.
    pub fn permission(&self) -> (r: Option<&String>)
        ensures
            match self {
                Error::Forbidden(p) => r == Some(p),
                _ => r is None,
            },
    {
        match self {
            Error::Forbidden(p) => Some(p),
            _ => None,
        }
    }
}

/// True of a `Forbidden` outcome that names the given permission.
pub open spec fn forbids(e: Error, permission: Seq<char>) -> bool {
    &&& e matches Error::Forbidden(p)
    &&& p@ == permission
}

} // verus!
