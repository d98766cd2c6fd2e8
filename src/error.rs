use vstd::prelude::*;

verus! {

/// Why a run, or the construction of one of its inputs, was refused.
#[derive(Debug)]
pub enum CheckError {
    /// A timestamp that is not RFC 3339 text.
    InvalidTimestamp(String),
    /// An entity id that is not a decimal number fitting in 64 bits.
    InvalidIid(String),
    /// A path filter that is not a valid glob pattern.
    InvalidPattern(String),
    /// A repository URL that is not an absolute URL with a host.
    InvalidUri(String),
    /// A request whose head commit is gone (its source branch was deleted).
    MissingHeadCommit(u64),
}

} // verus!
