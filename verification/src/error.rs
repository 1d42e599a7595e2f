//! The failures that end a run.

use vstd::prelude::*;

verus! {

/// What can end a synchronisation run.
#[derive(Clone, Copy, Debug, PartialEq, Eq, Structural)]
pub enum SyncError2 {
    /// A local resource (a connection, a transaction, a commit) failed.
    ConnectionFailure,
    /// The event stream of a block ended before the declared count was read.
    TooFewEvents,
    /// The event stream of a block held more than the declared count.
    TooManyEvents,
    /// A header does not continue the chain it was appended to.
    HeaderContinuityViolation,
    /// A header's hash does not match its contents.
    HeaderHashMismatch,
    /// The events of a block do not match the header's commitment.
    CommitmentMismatch,
}

} // verus!
