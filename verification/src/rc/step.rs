//! Operations that hand work requests to the device on their way.
//!
//! Such an operation stops at each work request and goes on when the device has answered. What is
//! kept in between, and what each stretch does, stands here.

use vstd::prelude::*;

use crate::arith::{least, monus};
use crate::encoding::respond_to;
use crate::error::{CallError, Error, PostOutcome};
use crate::message::Format;
use crate::pending::slots_after;
use crate::rc::state::{EndpointState, WriteImm};

verus! {

/// Where a call stopped.
#[derive(Debug, Clone, Copy, PartialEq, Eq, Structural)]
pub enum CallStage {
    /// Sending the open batch, because there is too little credit for the call.
    CreditFlush,
    /// Sending the open batch, because the request belongs into the next ring cycle.
    CloseBatch,
    /// Telling the peer to skip to the next ring cycle.
    Wrap,
    /// Sending the open batch, because the peer's ring has no room for the request.
    SpaceFlush,
}

/// A call that waits for the device.
#[derive(Debug)]
pub struct PendingCall<U> {
    /// What the caller handed in.
    pub user_data: U,
    /// Credit that the call takes.
    pub allowance: u64,
    /// Where the call stopped.
    pub stage: CallStage,
    /// The work request to post.
    pub wqe: WriteImm,
}

/// What a call comes to next.
#[derive(Debug)]
pub enum CallStep<U> {
    /// Post the work request, then go on with what the device said.
    Post(PendingCall<U>),
    /// The call is over.
    Done {
        /// The call identifier, or why the call was not taken.
        result: Result<u32, CallError<U>>,
        /// The device has to be told of the work requests posted so far.
        ring_doorbell: bool,
    },
}

/// Where a reply stopped.
#[derive(Debug, Clone, Copy, PartialEq, Eq, Structural)]
pub enum ReplyStage {
    /// Sending the open batch, because the response belongs into the next ring cycle.
    CloseBatch,
    /// Telling the peer to skip to the next ring cycle.
    Wrap,
}

/// What a reply comes to next.
#[derive(Debug, Clone, Copy, PartialEq, Eq)]
pub enum ReplyStep {
    /// Post the work request, then go on with what the device said.
    Post {
        /// Where the reply stopped.
        stage: ReplyStage,
        /// The work request to post.
        wqe: WriteImm,
    },
    /// The reply is over.
    Done(Result<(), Error>),
}

/// What a flush comes to next.
#[derive(Debug, Clone, Copy, PartialEq, Eq, Structural)]
pub enum FlushStep {
    /// Post the work request, then go on with what the device said.
    Post(WriteImm),
    /// The flush is over.
    Done {
        /// The device has to be told of the work requests posted so far.
        ring_doorbell: bool,
    },
}

/// The call identifier that stands for a key.
pub open spec fn call_id_of(key: usize) -> u32 {
    (key as int % 0x1_0000_0000) as u32
}

/// An endpoint that gets marked for the next flush goes to the end of the queue, and no other does.
pub open spec fn queues<U>(
    pre: EndpointState<U>,
    post: EndpointState<U>,
    queue: Seq<usize>,
    queue_after: Seq<usize>,
) -> bool {
    queue_after == (if !pre.is_dirty && post.is_dirty {
        queue.push(pre.local.slot)
    } else {
        queue
    })
}

/// What the caller handed in, and the credit that the call takes.
pub ghost struct CallInput<U> {
    /// The request.
    pub data: Seq<u8>,
    /// The caller's user data.
    pub user_data: U,
    /// Credit that the call takes.
    pub allowance: int,
}

impl<U> CallInput<U> {
    /// Bytes that the request takes in the ring.
    pub open spec fn size(self) -> int {
        Format::Rc.padded(self.data.len() as int)
    }

    /// The call waits at `stage` for the device to take everything in use.
    pub open spec fn stops(self, stage: CallStage, s: EndpointState<U>, step: CallStep<U>) -> bool {
        step == CallStep::Post(
            PendingCall {
                user_data: self.user_data,
                allowance: least(self.allowance, u64::MAX as int) as u64,
                stage,
                wqe: s.work_request(),
            },
        )
    }

    /// The error with which a call ends that stopped at `stage`.
    pub open spec fn refusal(self, stage: CallStage) -> CallError<U> {
        match stage {
            CallStage::CreditFlush => CallError::InsufficientCredit(self.user_data),
            _ => CallError::RingFull(self.user_data),
        }
    }

    /// The call is refused at `stage`, once the open batch is sent.
    pub open spec fn refuses(
        self,
        stage: CallStage,
        pre: EndpointState<U>,
        post: EndpointState<U>,
        step: CallStep<U>,
    ) -> bool {
        if pre.batch_count == 0 {
            &&& step == CallStep::<U>::Done {
                result: Err(self.refusal(stage)),
                ring_doorbell: pre.needs_doorbell,
            }
            &&& post == pre.rung()
        } else {
            &&& self.stops(stage, post, step)
            &&& post == pre.filled()
        }
    }

    /// The request goes into the open batch under a key that no call in progress has.
    pub open spec fn accepts(
        self,
        key: usize,
        pre: EndpointState<U>,
        post: EndpointState<U>,
        step: CallStep<U>,
    ) -> bool {
        &&& !pre.pending.contains_key(key)
        &&& key < post.slots
        &&& step == CallStep::<U>::Done {
            result: Ok(call_id_of(key)),
            ring_doorbell: false,
        }
        &&& post == EndpointState {
            pending: pre.pending.insert(key, self.user_data),
            slots: slots_after(pre.slots, pre.pending.len()),
            peer_credit: pre.peer_credit - self.allowance,
            ..pre.wrote(call_id_of(key), (self.allowance / 32) as u64, self.data).marked()
        }
    }

    /// The request goes into the open batch if the peer's ring has room.
    pub open spec fn places(
        self,
        pre: EndpointState<U>,
        post: EndpointState<U>,
        step: CallStep<U>,
    ) -> bool {
        if pre.has_space(self.size()) {
            exists|key: usize| #[trigger] self.accepts(key, pre, post, step)
        } else {
            self.refuses(CallStage::SpaceFlush, pre, post, step)
        }
    }

    /// The request goes into the next ring cycle, for which the rest of this one is skipped. The
    /// peer's ring must have room for the skipped bytes, or the call is refused.
    pub open spec fn skips(
        self,
        pre: EndpointState<U>,
        post: EndpointState<U>,
        step: CallStep<U>,
    ) -> bool {
        if pre.wrap_fits(2 * pre.reservation) {
            &&& self.stops(CallStage::Wrap, post, step)
            &&& post == pre.wrapped()
        } else {
            self.refuses(CallStage::SpaceFlush, pre, post, step)
        }
    }

    /// The first stretch of a call.
    pub open spec fn starts(
        self,
        pre: EndpointState<U>,
        post: EndpointState<U>,
        step: CallStep<U>,
    ) -> bool {
        if pre.remote is None {
            &&& step == CallStep::<U>::Done {
                result: Err(CallError::Other(Error::RemoteConsumerUnknown)),
                ring_doorbell: false,
            }
            &&& post == pre
        } else if pre.peer_credit < self.allowance {
            self.refuses(CallStage::CreditFlush, pre, post, step)
        } else if !pre.wrap_due(self.size()) {
            self.places(pre, post, step)
        } else if pre.batch_count > 0 {
            &&& self.stops(CallStage::CloseBatch, post, step)
            &&& post == pre.filled()
        } else {
            self.skips(pre, post, step)
        }
    }

    /// The stretch of a call behind a work request.
    pub open spec fn resumes(
        self,
        stage: CallStage,
        outcome: PostOutcome,
        pre: EndpointState<U>,
        post: EndpointState<U>,
        step: CallStep<U>,
    ) -> bool {
        if outcome !is Posted {
            &&& step == CallStep::<U>::Done {
                result: Err(CallError::Other(Error::Io)),
                ring_doorbell: false,
            }
            &&& post == pre.refused()
        } else {
            match stage {
                CallStage::CloseBatch => self.skips(pre.sent(), post, step),
                CallStage::Wrap => self.places(pre.sent(), post, step),
                _ => {
                    &&& step == CallStep::<U>::Done {
                        result: Err(self.refusal(stage)),
                        ring_doorbell: true,
                    }
                    &&& post == pre.sent().rung()
                },
            }
        }
    }
}

/// What a handler hands in to answer a request.
pub ghost struct ReplyInput {
    /// Call identifier of the request.
    pub call_id: u32,
    /// Bytes that the caller set aside for the response.
    pub response_allowance: int,
    /// The response.
    pub data: Seq<u8>,
}

impl ReplyInput {
    /// Bytes that the response takes in the ring.
    pub open spec fn size(self) -> int {
        Format::Rc.padded(self.data.len() as int)
    }

    /// The response goes into the open batch, and the allowance of the request is given back.
    pub open spec fn placed<U>(self, pre: EndpointState<U>) -> EndpointState<U> {
        EndpointState {
            reservation: monus(pre.reservation, self.response_allowance),
            ..pre.wrote(respond_to(self.call_id), 0, self.data).marked()
        }
    }

    /// The response goes into the next ring cycle, for which the rest of this one is skipped. Where
    /// the peer's ring has no room for the skipped bytes, the reply is refused, unless the batch just
    /// closed filled its cycle: then the response needs no skip, and none is made that would touch
    /// the credit of the peer.
    pub open spec fn skip<U>(self, pre: EndpointState<U>) -> (EndpointState<U>, ReplyStep) {
        let needed = pre.wrap_due(self.size());
        if pre.wrap_fits(if needed { 0 } else { 2 * pre.reservation }) {
            (
                pre.wrapped(),
                ReplyStep::Post { stage: ReplyStage::Wrap, wqe: pre.wrapped().work_request() },
            )
        } else if needed {
            (pre, ReplyStep::Done(Err(Error::RingFull)))
        } else {
            (self.placed(pre), ReplyStep::Done(Ok(())))
        }
    }

    /// The first stretch of a reply.
    pub open spec fn start<U>(self, pre: EndpointState<U>) -> (EndpointState<U>, ReplyStep) {
        if pre.remote is None {
            (pre, ReplyStep::Done(Err(Error::RemoteConsumerUnknown)))
        } else if !pre.wrap_due(self.size()) {
            (self.placed(pre), ReplyStep::Done(Ok(())))
        } else if pre.batch_count > 0 {
            (
                pre.filled(),
                ReplyStep::Post {
                    stage: ReplyStage::CloseBatch,
                    wqe: pre.filled().work_request(),
                },
            )
        } else {
            self.skip(pre)
        }
    }

    /// The stretch of a reply behind a work request.
    pub open spec fn resume<U>(
        self,
        stage: ReplyStage,
        outcome: PostOutcome,
        pre: EndpointState<U>,
    ) -> (EndpointState<U>, ReplyStep) {
        if outcome !is Posted {
            (pre.refused(), ReplyStep::Done(Err(Error::Io)))
        } else {
            match stage {
                ReplyStage::CloseBatch => self.skip(pre.sent()),
                ReplyStage::Wrap => (self.placed(pre.sent()), ReplyStep::Done(Ok(()))),
            }
        }
    }
}

/// The first stretch of a flush.
pub open spec fn flush_start<U>(pre: EndpointState<U>) -> (EndpointState<U>, FlushStep) {
    if pre.batch_count == 0 {
        (pre.rung(), FlushStep::Done { ring_doorbell: pre.needs_doorbell })
    } else {
        (pre.filled(), FlushStep::Post(pre.filled().work_request()))
    }
}

} // verus!
