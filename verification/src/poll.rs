//! Polling the receive queue.

use vstd::prelude::*;

use crate::cq::Cqe;
use crate::inbound::Response;

verus! {

/// A completion of the receive queue, and the receive ring of the endpoint that it is for.
#[derive(Debug, Clone, Copy)]
pub struct Completion<'a> {
    /// The completion.
    pub cqe: Cqe,
    /// The bytes of the receive ring.
    pub recv_ring: &'a [u8],
}

/// What a poll of the receive queue brought.
#[derive(Debug)]
pub struct Polled<U> {
    /// The responses, the oldest first.
    pub responses: Vec<Response<U>>,
    /// Number of completions taken in.
    pub recv_count: u32,
    /// Number of buffers to post to the shared receive queue.
    pub to_post: u32,
    /// The completion behind those taken in announces a batch that does not stand in the receive
    /// ring, and nothing behind it was looked at.
    pub malformed: bool,
}

} // verus!
