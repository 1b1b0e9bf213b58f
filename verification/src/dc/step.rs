//! What calls, replies and flushes do.
//!
//! A flush stops at each work request and goes on when the device has answered.

use vstd::prelude::*;

use crate::dc::state::{EndpointState, WriteImm};
use crate::encoding::respond_to;
use crate::error::{CallError, Error, PostOutcome};
use crate::message::Format;
use crate::pending::slots_after;

verus! {

/// Where a flush stopped.
#[derive(Debug, Clone, Copy, PartialEq, Eq, Structural)]
pub enum EmitStage {
    /// Sending the open batch.
    Batch,
    /// Telling the peer to skip to the next ring cycle.
    Wrap {
        /// A batch was sent before.
        after_batch: bool,
    },
    /// Giving credit back with a batch without messages.
    CreditReturn,
}

/// What a flush comes to next.
#[derive(Debug, Clone, Copy, PartialEq, Eq)]
pub enum EmitStep {
    /// Post the work request, then go on with what the device said.
    Post {
        /// Where the flush stopped.
        stage: EmitStage,
        /// The work request to post.
        wqe: WriteImm,
    },
    /// The flush is over. Tells whether anything was posted.
    Done(Result<bool, Error>),
}

/// The call identifier that stands for a key.
pub open spec fn call_id_of(key: usize) -> u32 {
    (key as int % 0x1_0000_0000) as u32
}

/// A queue after an endpoint is put at its end, unless it stands in it.
pub open spec fn queued(queue: Seq<u32>, endpoint_id: u32) -> Seq<u32> {
    if queue.contains(endpoint_id) {
        queue
    } else {
        queue.push(endpoint_id)
    }
}

/// The error that stands for a refused work request.
pub open spec fn refusal(outcome: PostOutcome) -> Error {
    match outcome {
        PostOutcome::QueueFull => Error::RingFull,
        _ => Error::Io,
    }
}

impl<U> EndpointState<U> {
    /// After a wrap is asked for.
    pub open spec fn wrap_wanted(self) -> Self {
        EndpointState { wrap_pending: true, ..self }
    }

    /// The request goes into the open batch under a key that no call in progress has.
    pub open spec fn accepts(
        self,
        data: Seq<u8>,
        user_data: U,
        key: usize,
        post: Self,
        r: Result<u32, CallError<U>>,
    ) -> bool {
        &&& !self.pending.contains_key(key)
        &&& key < post.slots
        &&& r == Ok::<u32, CallError<U>>(call_id_of(key))
        &&& post == EndpointState {
            pending: self.pending.insert(key, user_data),
            slots: slots_after(self.slots, self.pending.len()),
            ..self.wrote(call_id_of(key), data)
        }
    }

    /// What a call does: it is taken if the request fits into the ring cycle and into the peer's
    /// ring. Where it does not fit into the cycle, a wrap is asked for.
    pub open spec fn calls(
        self,
        data: Seq<u8>,
        user_data: U,
        post: Self,
        r: Result<u32, CallError<U>>,
    ) -> bool {
        let size = Format::Dc.padded(data.len() as int);
        if self.remote is None {
            &&& r == Err::<u32, CallError<U>>(CallError::Other(Error::RemoteConsumerUnknown))
            &&& post == self
        } else if !self.cycle_room(size) {
            &&& r == Err::<u32, CallError<U>>(CallError::RingFull(user_data))
            &&& post == self.wrap_wanted()
        } else if !self.has_space(size) {
            &&& r == Err::<u32, CallError<U>>(CallError::RingFull(user_data))
            &&& post == self
        } else {
            exists|key: usize| #[trigger] self.accepts(data, user_data, key, post, r)
        }
    }

    /// What a reply does: it is taken under the same conditions as a call.
    pub open spec fn replied(self, call_id: u32, data: Seq<u8>) -> (Self, Result<(), Error>) {
        let size = Format::Dc.padded(data.len() as int);
        if self.remote is None {
            (self, Err(Error::RemoteConsumerUnknown))
        } else if !self.cycle_room(size) {
            (self.wrap_wanted(), Err(Error::RingFull))
        } else if !self.has_space(size) {
            (self, Err(Error::RingFull))
        } else {
            (self.wrote(respond_to(call_id), data), Ok(()))
        }
    }

    /// The queue of endpoints to flush after a call or a reply: a connected endpoint stands in it.
    pub open spec fn queue_after(self, queue: Seq<u32>) -> Seq<u32> {
        if self.remote is None {
            queue
        } else {
            queued(queue, self.local.endpoint_id)
        }
    }

    /// The stretch of a flush behind the open batch: a wrap that was asked for, or, where nothing
    /// was sent and the peer has not been told of bytes read, a batch without messages. Either goes
    /// out only where the peer's ring has room for it; what has no room waits for the next flush.
    pub open spec fn emit_tail(self, emitted: bool) -> (Self, EmitStep) {
        if self.wrap_pending && self.wrap_fits() {
            (
                self.wrapped(),
                EmitStep::Post {
                    stage: EmitStage::Wrap { after_batch: emitted },
                    wqe: self.wrapped().work_request(),
                },
            )
        } else if !emitted && self.unreturned() > 0 {
            if self.remote is None {
                (self, EmitStep::Done(Err(Error::RemoteConsumerUnknown)))
            } else if self.batch_fits() {
                (
                    self.headed(0),
                    EmitStep::Post {
                        stage: EmitStage::CreditReturn,
                        wqe: self.headed(0).work_request(),
                    },
                )
            } else {
                (self, EmitStep::Done(Err(Error::RingFull)))
            }
        } else if !emitted && self.wrap_pending {
            (self, EmitStep::Done(Err(Error::RingFull)))
        } else {
            (self, EmitStep::Done(Ok(emitted)))
        }
    }

    /// The first stretch of a flush.
    pub open spec fn emit_start(self) -> (Self, EmitStep) {
        if self.batch_count > 0 {
            (
                self.filled(),
                EmitStep::Post {
                    stage: EmitStage::Batch,
                    wqe: self.filled().work_request(),
                },
            )
        } else {
            self.emit_tail(false)
        }
    }

    /// The stretch of a flush behind a work request. A refused wrap behind a sent batch waits for
    /// the next flush.
    pub open spec fn emit_resume(self, stage: EmitStage, outcome: PostOutcome) -> (Self, EmitStep) {
        if outcome is Posted {
            match stage {
                EmitStage::Batch => self.sent().emit_tail(true),
                EmitStage::Wrap { after_batch } => (
                    EndpointState { wrap_pending: false, ..self.sent() },
                    EmitStep::Done(Ok(true)),
                ),
                EmitStage::CreditReturn => (self.sent(), EmitStep::Done(Ok(true))),
            }
        } else if stage matches EmitStage::Wrap { after_batch } && after_batch {
            (self.refused(), EmitStep::Done(Ok(true)))
        } else {
            (self.refused(), EmitStep::Done(Err(refusal(outcome))))
        }
    }

    /// The endpoint is where a flush that stopped at `stage` left it.
    pub open spec fn stopped_at(self, stage: EmitStage) -> bool {
        &&& self.remote is Some
        &&& match stage {
            EmitStage::Batch => self.batch_count > 0,
            EmitStage::Wrap { after_batch } => self.batch_count == 0 && self.wrap_pending
                && self.wrap_fits() && self.producer == self.cycle_end(),
            EmitStage::CreditReturn => self.batch_count == 0,
        }
    }

    /// After the signaled work requests were counted.
    pub open spec fn counted(self) -> Self {
        EndpointState { newly_signaled: 0, ..self }
    }
}

} // verus!
