//! Received requests in the hands of their handlers.

use vstd::prelude::*;

use crate::bytes::le32_at;
use crate::error::PostOutcome;
use crate::inbound::RecvMessage;
use crate::message::Format;
use crate::rc::context::Context;
use crate::rc::effects::law_reply_comes_to;
use crate::rc::step::{queues, ReplyInput, ReplyStage, ReplyStep};

verus! {

/// A received request.
#[derive(Debug, Clone, Copy, PartialEq, Eq, Structural)]
pub struct RecvHandle {
    message: RecvMessage,
}

impl View for RecvHandle {
    type V = RecvMessage;

    closed spec fn view(&self) -> RecvMessage {
        self.message
    }
}

impl RecvHandle {
    /// The reply to this request with payload `data`.
    pub open spec fn reply_input(self, data: Seq<u8>) -> ReplyInput {
        ReplyInput {
            call_id: self@.call_id,
            response_allowance: self@.response_allowance as int,
            data,
        }
    }

    /// Hands a request out.
    pub(crate) fn of(message: RecvMessage) -> (r: Self)
        ensures
            r@ == message,
    {
        RecvHandle { message }
    }

    /// Where the endpoint that received the request stands among the context's endpoints.
    pub fn endpoint(&self) -> (r: usize)
        ensures
            r == self@.endpoint,
    {
        self.message.endpoint
    }

    /// Tells whether the payload lies inside the receive ring, as that of every whole request does.
    pub fn is_whole(&self, recv_ring: &[u8]) -> (r: bool)
        ensures
            r == (self@.data_offset + self@.data_len <= recv_ring.len()),
    {
        self.message.data_offset <= recv_ring.len() && self.message.data_len <= recv_ring.len()
            - self.message.data_offset
    }

    /// The payload, in the receive ring of the endpoint that received the request.
    pub fn data<'a>(&self, recv_ring: &'a [u8]) -> (r: &'a [u8])
        requires
            self@.data_offset + self@.data_len <= recv_ring.len(),
        ensures
            r@ == recv_ring@.subrange(
                self@.data_offset as int,
                self@.data_offset + self@.data_len,
            ),
    {
        let start: usize = self.message.data_offset;
        vstd::slice::slice_subrange(recv_ring, start, start + self.message.data_len)
    }

    /// QP number of the endpoint that received the request.
    pub fn qpn(&self) -> (r: u32)
        ensures
            r == self@.id,
    {
        self.message.id
    }

    /// Call identifier of the request.
    pub fn call_id(&self) -> (r: u32)
        ensures
            r == self@.call_id,
    {
        self.message.call_id
    }

    /// Answers the request.
    pub fn reply<U>(&self, ctx: &mut Context<U>, data: &[u8]) -> (step: ReplyStep)
        requires
            old(ctx).wf(),
            self@.endpoint < old(ctx)@.endpoints.len(),
            data@.len() <= u32::MAX,
            ({
                let e = old(ctx)@.endpoints[self@.endpoint as int];
                &&& e.settled()
                &&& e.room_to_run(data@.len() as int)
                &&& e.remote is Some ==> 32 + Format::Rc.padded(data@.len() as int) <= e.len()
            }),
        ensures
            final(ctx).wf(),
            ({
                let e = old(ctx)@.endpoints[self@.endpoint as int];
                let after = self.reply_input(data@).start(e);
                &&& step == after.1
                &&& final(ctx)@ == old(ctx)@.with_endpoint(
                    self@.endpoint,
                    after.0,
                    final(ctx)@.dirty,
                )
                &&& queues(e, after.0, old(ctx)@.dirty, final(ctx)@.dirty)
            }),
            step == ReplyStep::Done(Ok(())) ==> {
                let e = old(ctx)@.endpoints[self@.endpoint as int];
                let ring = final(ctx)@.endpoints[self@.endpoint as int].ring;
                let at = e.producer % e.ring.len() as int;
                &&& le32_at(ring, at) == 0x8000_0000 + self@.call_id as int % 0x8000_0000
                &&& le32_at(ring, at + 12) == data@.len()
                &&& ring.subrange(at + 16, at + 16 + data@.len()) == data@
            },
    {
        let ghost e = ctx@.endpoints[self@.endpoint as int];
        proof {
            assert(ctx@.endpoint_wf(self@.endpoint));
            law_reply_comes_to(self.reply_input(data@), e);
        }
        let (endpoint, queue) = ctx.endpoint_and_queue(self.message.endpoint);
        endpoint.reply(queue, self.message.call_id, self.message.response_allowance, data)
    }

    /// Goes on with the answer when the device has taken or refused a work request.
    pub fn reply_posted<U>(
        &self,
        ctx: &mut Context<U>,
        data: &[u8],
        stage: ReplyStage,
        outcome: PostOutcome,
    ) -> (step: ReplyStep)
        requires
            old(ctx).wf(),
            self@.endpoint < old(ctx)@.endpoints.len(),
            data@.len() <= u32::MAX,
            ({
                let e = old(ctx)@.endpoints[self@.endpoint as int];
                &&& e.open_batch()
                &&& e.room_to_run(data@.len() as int)
                &&& 32 + Format::Rc.padded(data@.len() as int) <= e.len()
                &&& stage is Wrap ==> e.offset(e.producer) == 0
            }),
        ensures
            final(ctx).wf(),
            ({
                let e = old(ctx)@.endpoints[self@.endpoint as int];
                let after = self.reply_input(data@).resume(stage, outcome, e);
                &&& step == after.1
                &&& final(ctx)@ == old(ctx)@.with_endpoint(
                    self@.endpoint,
                    after.0,
                    final(ctx)@.dirty,
                )
                &&& queues(e, after.0, old(ctx)@.dirty, final(ctx)@.dirty)
            }),
    {
        let (endpoint, queue) = ctx.endpoint_and_queue(self.message.endpoint);
        endpoint.reply_posted(
            queue,
            self.message.call_id,
            self.message.response_allowance,
            data,
            stage,
            outcome,
        )
    }
}

} // verus!
