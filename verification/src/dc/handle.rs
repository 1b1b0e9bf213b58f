//! Received requests in the hands of their handlers.

use vstd::prelude::*;

use crate::bytes::le32_at;
use crate::dc::context::Context;
use crate::dc::effects::law_reply_comes_to;
use crate::error::Error;
use crate::inbound::RecvMessage;

verus! {

/// A received request.
#[derive(Debug, Clone, Copy, PartialEq, Eq, Structural)]
pub struct RecvHandle {
    message: RecvMessage,
}

impl View for RecvHandle {
    type V = RecvMessage;

    closed spec fn view(&self) -> RecvMessage {
        self.message
    }
}

impl RecvHandle {
    /// Hands a request out.
    pub(crate) fn of(message: RecvMessage) -> (r: Self)
        ensures
            r@ == message,
    {
        RecvHandle { message }
    }

    /// Where the endpoint that received the request stands among the context's endpoints.
    pub fn endpoint(&self) -> (r: usize)
        ensures
            r == self@.endpoint,
    {
        self.message.endpoint
    }

    /// Tells whether the payload lies inside the receive ring, as that of every whole request does.
    pub fn is_whole(&self, recv_ring: &[u8]) -> (r: bool)
        ensures
            r == (self@.data_offset + self@.data_len <= recv_ring.len()),
    {
        self.message.data_offset <= recv_ring.len() && self.message.data_len <= recv_ring.len()
            - self.message.data_offset
    }

    /// The payload, in the receive ring of the endpoint that received the request.
    pub fn data<'a>(&self, recv_ring: &'a [u8]) -> (r: &'a [u8])
        requires
            self@.data_offset + self@.data_len <= recv_ring.len(),
        ensures
            r@ == recv_ring@.subrange(
                self@.data_offset as int,
                self@.data_offset + self@.data_len,
            ),
    {
        let start: usize = self.message.data_offset;
        vstd::slice::slice_subrange(recv_ring, start, start + self.message.data_len)
    }

    /// Number of the endpoint that received the request.
    pub fn endpoint_id(&self) -> (r: u32)
        ensures
            r == self@.id,
    {
        self.message.id
    }

    /// Call identifier of the request.
    pub fn call_id(&self) -> (r: u32)
        ensures
            r == self@.call_id,
    {
        self.message.call_id
    }

    /// Answers the request.
    pub fn reply<U>(&self, ctx: &mut Context<U>, data: &[u8]) -> (r: Result<(), Error>)
        requires
            old(ctx).wf(),
            old(ctx)@.flushing is None,
            self@.endpoint < old(ctx)@.endpoints.len(),
            old(ctx)@.endpoints[self@.endpoint as int].room_to_run(data@.len() as int),
            data@.len() <= u32::MAX,
        ensures
            final(ctx).wf(),
            ({
                let e = old(ctx)@.endpoints[self@.endpoint as int];
                let after = e.replied(self@.call_id, data@);
                &&& r == after.1
                &&& final(ctx)@ == old(ctx)@.with_endpoint(
                    self@.endpoint,
                    after.0,
                    e.queue_after(old(ctx)@.dirty),
                )
            }),
            r is Ok ==> {
                let e = old(ctx)@.endpoints[self@.endpoint as int];
                let ring = final(ctx)@.endpoints[self@.endpoint as int].ring;
                let at = e.producer % e.ring.len() as int;
                &&& le32_at(ring, at) == 0x8000_0000 + self@.call_id as int % 0x8000_0000
                &&& le32_at(ring, at + 4) == data@.len()
                &&& ring.subrange(at + 8, at + 8 + data@.len()) == data@
            },
    {
        let ghost e = ctx@.endpoints[self@.endpoint as int];
        proof {
            assert(ctx@.endpoint_wf(self@.endpoint as int));
            law_reply_comes_to(e, self@.call_id, data@);
        }
        let (endpoint, queue) = ctx.endpoint_and_queue(self.message.endpoint);
        endpoint.reply(queue, self.message.call_id, data)
    }
}

} // verus!
