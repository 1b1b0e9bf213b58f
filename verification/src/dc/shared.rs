//! The state of a context and how each step moves it on.

use vstd::prelude::*;

use crate::cq::Cqe;
use crate::dc::state::{EndpointState, WriteImm};
use crate::dc::step::{queued, EmitStage, EmitStep};
use crate::error::{Error, PostOutcome};
use crate::inbound::{RecvMessage, Response};
use crate::poll::Completion;

verus! {

/// What a pass over all endpoints to flush comes to next.
#[derive(Debug, Clone, Copy, PartialEq, Eq, Structural)]
pub enum EndpointsStep {
    /// Post the work request of an endpoint, then go on with what the device said.
    Post {
        /// Where the endpoint stands among the context's endpoints.
        slot: usize,
        /// The work request to post.
        wqe: WriteImm,
    },
    /// The pass is over.
    Done {
        /// The device has to be told of the work requests posted in this pass.
        ring_doorbell: bool,
    },
}

/// `a + b`, and the largest `u32` where that is larger.
pub open spec fn capped_sum(a: int, b: int) -> int {
    if a + b <= u32::MAX {
        a + b
    } else {
        u32::MAX as int
    }
}

/// The state of a context.
#[verifier::ext_equal]
pub ghost struct ContextState<U> {
    /// Port number.
    pub port: u8,
    /// Local identifier on the subnet.
    pub lid: u16,
    /// Receive buffers in the shared receive queue.
    pub srq_posted: int,
    /// Most receive buffers in the shared receive queue.
    pub srq_max_wr: int,
    /// The endpoints, the oldest first.
    pub endpoints: Seq<EndpointState<U>>,
    /// The endpoint of each number.
    pub registry: Map<u32, usize>,
    /// Number of the next endpoint.
    pub next_id: int,
    /// The numbers of the endpoints to flush, the first one first.
    pub dirty: Seq<u32>,
    /// Signaled work requests whose completion has not been polled.
    pub pending_send_cqes: int,
    /// Received requests, the next one last.
    pub stack: Seq<RecvMessage>,
    /// The endpoint whose flush waits for the device, and where the flush stopped.
    pub flushing: Option<(usize, EmitStage)>,
    /// Something was posted in this pass.
    pub emitted: bool,
    /// Signaled work requests of this pass.
    pub newly_signaled: int,
}

impl<U> ContextState<U> {
    /// A context without endpoints, whose shared receive queue is full.
    pub open spec fn empty(port: u8, lid: u16, srq_max_wr: u32) -> Self {
        ContextState {
            port,
            lid,
            srq_posted: srq_max_wr as int,
            srq_max_wr: srq_max_wr as int,
            endpoints: Seq::empty(),
            registry: Map::empty(),
            next_id: 1,
            dirty: Seq::empty(),
            pending_send_cqes: 0,
            stack: Seq::empty(),
            flushing: None,
            emitted: false,
            newly_signaled: 0,
        }
    }

    /// An endpoint is found by its number, and is well.
    pub open spec fn endpoint_wf(self, slot: int) -> bool {
        let id = self.endpoints[slot].local.endpoint_id;
        &&& 1 <= id < self.next_id
        &&& self.registry.contains_key(id)
        &&& self.registry[id] == slot
        &&& self.endpoints[slot].wf()
    }

    /// A received request names an endpoint, and its payload starts in that endpoint's receive ring.
    pub open spec fn message_wf(self, m: RecvMessage) -> bool {
        &&& m.endpoint < self.endpoints.len()
        &&& m.data_offset <= self.endpoints[m.endpoint as int].local.recv_ring_len
        &&& m.id == self.endpoints[m.endpoint as int].local.endpoint_id
    }

    /// A response names an endpoint, and its payload lies in that endpoint's receive ring.
    pub open spec fn response_wf(self, r: Response<U>) -> bool {
        &&& r.endpoint < self.endpoints.len()
        &&& r.data_offset + r.data_len <= self.endpoints[r.endpoint as int].local.recv_ring_len
    }

    /// Holds of every context at all times, also in the midst of a step.
    pub open spec fn base_wf(self) -> bool {
        &&& self.srq_max_wr <= u32::MAX / 2
        &&& self.endpoints.len() <= usize::MAX
        &&& 1 <= self.next_id <= u32::MAX
        &&& forall|q: u32| #[trigger]
            self.registry.contains_key(q) ==> self.registry[q] < self.endpoints.len()
                && self.endpoints[self.registry[q] as int].local.endpoint_id == q
        &&& forall|i: int| 0 <= i < self.endpoints.len() ==> #[trigger] self.endpoint_wf(i)
        &&& self.dirty.no_duplicates()
        &&& forall|i: int| 0 <= i < self.stack.len() ==> self.message_wf(#[trigger] self.stack[i])
    }

    /// Holds of every context between steps.
    pub open spec fn wf(self) -> bool {
        &&& self.base_wf()
        &&& match self.flushing {
            Some((slot, stage)) => slot < self.endpoints.len()
                && self.endpoints[slot as int].stopped_at(stage),
            None => !self.emitted && self.newly_signaled == 0,
        }
    }

    /// After a number is taken for an endpoint.
    pub open spec fn numbered(self) -> Self {
        ContextState { next_id: self.next_id + 1, ..self }
    }

    /// After an endpoint is added, to which completions with its number now go.
    pub open spec fn joined(self, e: EndpointState<U>) -> Self {
        ContextState {
            endpoints: self.endpoints.push(e),
            registry: self.registry.insert(e.local.endpoint_id, self.endpoints.len() as usize),
            ..self
        }
    }

    /// After an endpoint moves on.
    pub open spec fn with_endpoint(self, slot: usize, e: EndpointState<U>, dirty: Seq<u32>) -> Self {
        ContextState { endpoints: self.endpoints.update(slot as int, e), dirty, ..self }
    }

    /// Where the endpoint with a number stands, if there is one.
    pub open spec fn slot_of(self, endpoint_id: u32) -> Option<usize> {
        if self.registry.contains_key(endpoint_id) {
            Some(self.registry[endpoint_id])
        } else {
            None
        }
    }

    /// The endpoint that a completion is for, if there is one.
    pub open spec fn target(self, cqe: Cqe) -> Option<usize> {
        if cqe.failed() {
            None
        } else {
            self.slot_of(cqe.imm)
        }
    }

    /// A completion can be taken in: it is for no endpoint, or its batch stands in the receive ring.
    pub open spec fn can_process(self, cqe: Cqe, recv_ring: Seq<u8>) -> bool {
        self.target(cqe) matches Some(slot) ==> self.endpoints[slot as int].can_receive(recv_ring)
    }

    /// The responses that a completion brings.
    pub open spec fn responses(self, cqe: Cqe, recv_ring: Seq<u8>) -> Seq<Response<U>> {
        match self.target(cqe) {
            Some(slot) => self.endpoints[slot as int].inbox(slot, recv_ring, self.stack).responses,
            None => Seq::empty(),
        }
    }

    /// After a completion: the endpoint has taken its batch in, and requests stand on the stack.
    pub open spec fn processed(self, cqe: Cqe, recv_ring: Seq<u8>) -> Self {
        match self.target(cqe) {
            Some(slot) => {
                let e = self.endpoints[slot as int];
                ContextState {
                    endpoints: self.endpoints.update(slot as int, e.received(slot, recv_ring)),
                    stack: e.inbox(slot, recv_ring, self.stack).requests,
                    ..self
                }
            },
            None => self,
        }
    }

    /// After the first `n` of some completions.
    pub open spec fn polled(self, completions: Seq<Completion>, n: nat) -> Self
        decreases n,
    {
        if n == 0 {
            self
        } else {
            let c = completions[n - 1];
            self.polled(completions, (n - 1) as nat).processed(c.cqe, c.recv_ring@)
        }
    }

    /// The responses that the first `n` of some completions bring.
    pub open spec fn polled_responses(
        self,
        completions: Seq<Completion>,
        n: nat,
    ) -> Seq<Response<U>>
        decreases n,
    {
        if n == 0 {
            Seq::empty()
        } else {
            let c = completions[n - 1];
            self.polled_responses(completions, (n - 1) as nat) + self.polled(
                completions,
                (n - 1) as nat,
            ).responses(c.cqe, c.recv_ring@)
        }
    }

    /// Completion `n` can be taken in behind those before it.
    pub open spec fn can_poll(self, completions: Seq<Completion>, n: nat) -> bool {
        let c = completions[n as int];
        self.polled(completions, n).can_process(c.cqe, c.recv_ring@)
    }

    /// After the signaled work requests of an endpoint are counted.
    pub open spec fn tallied(self, slot: usize, e: EndpointState<U>) -> Self {
        ContextState {
            endpoints: self.endpoints.update(slot as int, e.counted()),
            newly_signaled: capped_sum(self.newly_signaled, e.newly_signaled),
            ..self
        }
    }

    /// After a pass over the endpoints to flush.
    pub open spec fn flush_end(self) -> (Self, EndpointsStep) {
        (
            ContextState {
                pending_send_cqes: capped_sum(self.pending_send_cqes, self.newly_signaled),
                flushing: None,
                emitted: false,
                newly_signaled: 0,
                ..self
            },
            EndpointsStep::Done { ring_doorbell: self.emitted },
        )
    }

    /// Takes endpoints from the front of the queue, up to one that needs the device. Where an endpoint
    /// has to wait for room in its peer's ring, it goes to the end of the queue, and the pass is over.
    pub open spec fn flush_walk(self) -> (Self, EndpointsStep)
        decreases self.dirty.len(),
    {
        if self.dirty.len() == 0 {
            self.flush_end()
        } else {
            let rest = ContextState { dirty: self.dirty.drop_first(), ..self };
            match self.slot_of(self.dirty[0]) {
                None => rest.flush_walk(),
                Some(slot) => {
                    let (e, step) = self.endpoints[slot as int].emit_start();
                    match step {
                        EmitStep::Post { stage, wqe } => (
                            ContextState {
                                flushing: Some((slot, stage)),
                                ..rest.with_endpoint(slot, e, rest.dirty)
                            },
                            EndpointsStep::Post { slot, wqe },
                        ),
                        EmitStep::Done(r) => if r == Err::<bool, Error>(Error::RingFull) {
                            rest.flushed(slot, e, r).flush_end()
                        } else {
                            rest.tallied(slot, e).flush_walk()
                        },
                    }
                },
            }
        }
    }

    /// The queue after the flush of an endpoint: the endpoint goes to its end where it has more to
    /// send, or where the device or the peer's ring has no room.
    pub open spec fn requeued(self, e: EndpointState<U>, r: Result<bool, Error>) -> Seq<u32> {
        let again = match r {
            Ok(_) => e.wrap_pending || e.batch_count > 0,
            Err(error) => error is RingFull,
        };
        if again {
            queued(self.dirty, e.local.endpoint_id)
        } else {
            self.dirty
        }
    }

    /// After the flush of an endpoint.
    pub open spec fn flushed(
        self,
        slot: usize,
        e: EndpointState<U>,
        r: Result<bool, Error>,
    ) -> Self {
        ContextState {
            emitted: self.emitted || r == Ok::<bool, Error>(true),
            dirty: self.requeued(e, r),
            ..self.tallied(slot, e)
        }
    }

    /// Goes on where an endpoint waits for the device. Where the device has no room, the pass is
    /// over.
    pub open spec fn flush_resume(self, outcome: PostOutcome) -> (Self, EndpointsStep) {
        let (slot, stage) = self.flushing->0;
        let (e, step) = self.endpoints[slot as int].emit_resume(stage, outcome);
        match step {
            EmitStep::Post { stage, wqe } => (
                ContextState {
                    flushing: Some((slot, stage)),
                    ..self.with_endpoint(slot, e, self.dirty)
                },
                EndpointsStep::Post { slot, wqe },
            ),
            EmitStep::Done(r) => {
                if r == Err::<bool, Error>(Error::RingFull) {
                    self.flushed(slot, e, r).flush_end()
                } else {
                    self.flushed(slot, e, r).flush_walk()
                }
            },
        }
    }

    /// The next ring cycle of each endpoint is in range.
    pub open spec fn can_walk(self) -> bool {
        forall|i: int|
            0 <= i < self.endpoints.len() ==> (#[trigger] self.endpoints[i]).meta_pos
                + self.endpoints[i].len() <= u64::MAX
    }

    /// Positions of all endpoints stay in range while they are flushed.
    pub open spec fn can_flush(self) -> bool {
        forall|i: int|
            0 <= i < self.endpoints.len() ==> (#[trigger] self.endpoints[i]).producer
                + self.endpoints[i].len() + 32 <= u64::MAX
    }
}

/// A context stays well when one of its endpoints moves on.
pub proof fn lemma_with_endpoint<U>(
    s: ContextState<U>,
    slot: usize,
    e: EndpointState<U>,
    dirty: Seq<u32>,
)
    requires
        s.base_wf(),
        slot < s.endpoints.len(),
        e.wf(),
        e.local == s.endpoints[slot as int].local,
        dirty.no_duplicates(),
    ensures
        s.with_endpoint(slot, e, dirty).base_wf(),
{
    let t = s.with_endpoint(slot, e, dirty);
    assert(s.endpoint_wf(slot as int));
    assert forall|i: int| 0 <= i < t.endpoints.len() implies #[trigger] t.endpoint_wf(i) by {
        assert(s.endpoint_wf(i));
    }
    assert forall|i: int| 0 <= i < t.stack.len() implies t.message_wf(#[trigger] t.stack[i]) by {
        assert(s.message_wf(s.stack[i]));
    }
}

/// A context stays well when only its counters and its queue move on.
pub proof fn lemma_same_endpoints<U>(s: ContextState<U>, t: ContextState<U>)
    requires
        s.base_wf(),
        t.endpoints == s.endpoints,
        t.registry == s.registry,
        t.next_id == s.next_id,
        t.stack == s.stack,
        t.srq_max_wr == s.srq_max_wr,
        t.dirty.no_duplicates(),
    ensures
        t.base_wf(),
{
    assert forall|i: int| 0 <= i < t.endpoints.len() implies #[trigger] t.endpoint_wf(i) by {
        assert(s.endpoint_wf(i));
    }
    assert forall|i: int| 0 <= i < t.stack.len() implies t.message_wf(#[trigger] t.stack[i]) by {
        assert(s.message_wf(s.stack[i]));
    }
}

/// A queue stays free of duplicates.
pub proof fn lemma_queued(queue: Seq<u32>, endpoint_id: u32)
    requires
        queue.no_duplicates(),
    ensures
        queued(queue, endpoint_id).no_duplicates(),
{
}

/// A context stays well when a number is taken.
pub proof fn lemma_numbered<U>(s: ContextState<U>)
    requires
        s.wf(),
        s.next_id < u32::MAX,
    ensures
        s.numbered().wf(),
{
    let t = s.numbered();
    assert forall|i: int| 0 <= i < t.endpoints.len() implies #[trigger] t.endpoint_wf(i) by {
        assert(s.endpoint_wf(i));
    }
    assert forall|i: int| 0 <= i < t.stack.len() implies t.message_wf(#[trigger] t.stack[i]) by {
        assert(s.message_wf(s.stack[i]));
    }
}

/// A context stays well when a new endpoint joins.
pub proof fn lemma_joined<U>(s: ContextState<U>, e: EndpointState<U>)
    requires
        s.wf(),
        e.wf(),
        s.endpoints.len() < usize::MAX,
        s.next_id < u32::MAX,
        e.local.endpoint_id == s.next_id,
    ensures
        s.numbered().joined(e).wf(),
{
    let t = s.numbered().joined(e);
    if s.registry.contains_key(e.local.endpoint_id) {
        assert(s.endpoint_wf(s.registry[e.local.endpoint_id] as int));
    }
    assert forall|i: int| 0 <= i < t.endpoints.len() implies #[trigger] t.endpoint_wf(i) by {
        if i < s.endpoints.len() {
            assert(s.endpoint_wf(i));
        }
    }
    assert forall|i: int| 0 <= i < t.stack.len() implies t.message_wf(#[trigger] t.stack[i]) by {
        assert(s.message_wf(s.stack[i]));
    }
}

} // verus!
