use vstd::prelude::*;

verus! {

/// Errors reported by the replacer's operations. Every failure is local and
/// recoverable by the caller; the triggering condition of each one is pinned
/// down by the contract of the operation that returns it.
#[derive(Debug)]
pub enum CustomError {
    /// An operation the component does not support.
    NotSupport(String),
    /// A bookkeeping rule was violated by the call; the message says which.
    Internal(String),
}

/// Shorthand result type used by all fallible replacer operations.
pub type CustomResult<T> = Result<T, CustomError>;

} // verus!
