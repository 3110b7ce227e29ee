use vstd::prelude::*;

verus! {

/// Failure classes of the service, each with a human-readable reason.
#[derive(Debug, Clone)]
pub enum Error {
    /// The caller supplied an input outside the accepted bounds.
    Invalid(String),
    /// A stored value or dependency is inconsistent.
    Infrastructure(String),
    /// A concurrent change or identity reuse conflicts with the request.
    Conflict(String),
    /// The referenced object does not exist.
    NotFound(String),
    /// A required capability is not currently available.
    Unavailable(String),
}

} // verus!
