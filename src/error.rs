use vstd::prelude::*;

verus! {

/// Which ownership boundary a rejected change would have crossed.
#[derive(Debug, Clone, Copy, PartialEq, Eq)]
pub enum Violation {
    /// A record of another identity was added, or its name was changed.
    AddedOrModified,
    /// A record of another identity was left out.
    Removed,
}

/// Why a queue operation failed.
#[derive(Debug, Clone, PartialEq, Eq)]
pub enum QueueError {
    /// No caller identity, or an empty one.
    Unauthenticated,
    /// More than one submitted record carries the caller's identity.
    InvalidArgument,
    /// The change would alter another identity's records.
    PermissionDenied(Violation),
    /// The backing store failed; the text describes the cause.
    Internal(String),
}

} // verus!
