//! Errors.

use vstd::prelude::*;

verus! {

/// Why an operation failed.
#[derive(Debug, Clone, Copy, PartialEq, Eq, Structural)]
pub enum Error {
    /// The endpoint is not connected: nothing is known of the peer's receive ring.
    RemoteConsumerUnknown,
    /// There is no room: in the ring, or in the send queue.
    RingFull,
    /// The device refused the work request.
    Io,
}

/// What the device said to a work request.
#[derive(Debug, Clone, Copy, PartialEq, Eq, Structural)]
pub enum PostOutcome {
    /// The work request was taken.
    Posted,
    /// The send queue has no room for it.
    QueueFull,
    /// It was refused for another reason.
    Failed,
}

/// Why a call was not taken. The caller's user data comes back where a later try can succeed.
#[derive(Debug)]
pub enum CallError<U> {
    /// The peer's receive ring has no room for the request.
    RingFull(U),
    /// The peer granted too little credit for the response.
    InsufficientCredit(U),
    /// Any other failure.
    Other(Error),
}

} // verus!
