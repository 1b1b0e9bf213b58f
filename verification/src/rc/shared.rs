//! The state of a context and how each step moves it on.

use vstd::prelude::*;

use crate::cq::Cqe;
use crate::error::PostOutcome;
use crate::inbound::{RecvMessage, Response};
use crate::poll::Completion;
use crate::rc::info::SrqEntry;
use crate::rc::state::{EndpointState, WriteImm};
use crate::rc::step::{flush_start, queues, FlushStep};

verus! {

/// What a pass over all endpoints to flush comes to next.
#[derive(Debug, Clone, Copy, PartialEq, Eq, Structural)]
pub enum EndpointsStep {
    /// Post the work request on an endpoint's queue pair, then go on with what the device said.
    Post {
        /// Where the endpoint stands among the context's endpoints.
        slot: usize,
        /// The work request to post.
        wqe: WriteImm,
    },
    /// Tell the device of the work requests on an endpoint's queue pair, then go on.
    Ring {
        /// Where the endpoint stands among the context's endpoints.
        slot: usize,
    },
    /// No endpoint is left.
    Done,
}

/// The state of a context.
#[verifier::ext_equal]
pub ghost struct ContextState<U> {
    /// Port number.
    pub port: u8,
    /// Local identifier on the subnet.
    pub lid: u16,
    /// Receive buffers in the shared receive queue.
    pub srq_posted: int,
    /// Most receive buffers in the shared receive queue.
    pub srq_max_wr: int,
    /// The endpoints, the oldest first.
    pub endpoints: Seq<EndpointState<U>>,
    /// The endpoint of each QP number.
    pub registry: Map<u32, usize>,
    /// The endpoints to flush, the first one first.
    pub dirty: Seq<usize>,
    /// The endpoint whose flush waits for the device.
    pub flushing: Option<usize>,
    /// Received requests, the next one last.
    pub stack: Seq<RecvMessage>,
    /// Completions of sent batches since the last pass over all endpoints.
    pub send_cqes: Seq<(Cqe, SrqEntry)>,
}

impl<U> ContextState<U> {
    /// A context without endpoints, whose shared receive queue is full.
    pub open spec fn empty(port: u8, lid: u16, srq_max_wr: u32) -> Self {
        ContextState {
            port,
            lid,
            srq_posted: srq_max_wr as int,
            srq_max_wr: srq_max_wr as int,
            endpoints: Seq::empty(),
            registry: Map::empty(),
            dirty: Seq::empty(),
            flushing: None,
            stack: Seq::empty(),
            send_cqes: Seq::empty(),
        }
    }

    /// An endpoint stands where it says, and well, and knows whether it is to be flushed.
    pub open spec fn endpoint_wf(self, slot: usize) -> bool {
        let e = self.endpoints[slot as int];
        &&& e.local.slot == slot
        &&& e.wf()
        &&& e.is_dirty <==> self.dirty.contains(slot) || self.flushing == Some(slot)
    }

    /// A received request names an endpoint, and its payload starts in that endpoint's receive ring.
    pub open spec fn message_wf(self, m: RecvMessage) -> bool {
        &&& m.endpoint < self.endpoints.len()
        &&& m.data_offset <= self.endpoints[m.endpoint as int].local.recv_ring_len
        &&& m.id == self.endpoints[m.endpoint as int].local.qpn
    }

    /// A response names an endpoint, and its payload lies in that endpoint's receive ring.
    pub open spec fn response_wf(self, r: Response<U>) -> bool {
        &&& r.endpoint < self.endpoints.len()
        &&& r.data_offset + r.data_len <= self.endpoints[r.endpoint as int].local.recv_ring_len
    }

    /// Holds of every context at all times.
    pub open spec fn wf(self) -> bool {
        &&& self.srq_max_wr <= u32::MAX / 2
        &&& self.endpoints.len() <= usize::MAX
        &&& forall|i: usize| i < self.endpoints.len() ==> #[trigger] self.endpoint_wf(i)
        &&& forall|q: u32| #[trigger]
            self.registry.contains_key(q) ==> self.registry[q] < self.endpoints.len()
                && self.endpoints[self.registry[q] as int].local.qpn == q
        &&& self.dirty.no_duplicates()
        &&& forall|i: int| 0 <= i < self.dirty.len() ==> (#[trigger] self.dirty[i])
            < self.endpoints.len()
        &&& self.flushing matches Some(slot) ==> slot < self.endpoints.len()
            && !self.dirty.contains(slot)
        &&& forall|i: int| 0 <= i < self.stack.len() ==> self.message_wf(#[trigger] self.stack[i])
    }

    /// After an endpoint moves on.
    pub open spec fn with_endpoint(
        self,
        slot: usize,
        e: EndpointState<U>,
        dirty: Seq<usize>,
    ) -> Self {
        ContextState { endpoints: self.endpoints.update(slot as int, e), dirty, ..self }
    }

    /// After an endpoint is added, to which completions with its QP number now go.
    pub open spec fn joined(self, e: EndpointState<U>) -> Self {
        ContextState {
            endpoints: self.endpoints.push(e),
            registry: self.registry.insert(e.local.qpn, e.local.slot),
            ..self
        }
    }

    /// The endpoint that a completion is for, if there is one.
    pub open spec fn target(self, cqe: Cqe) -> Option<usize> {
        if !cqe.failed() && self.registry.contains_key(cqe.qp_num) {
            Some(self.registry[cqe.qp_num])
        } else {
            None
        }
    }

    /// A completion can be taken in: it is for no endpoint, or its batch stands in the receive ring.
    pub open spec fn can_process(self, cqe: Cqe, recv_ring: Seq<u8>) -> bool {
        self.target(cqe) matches Some(slot) ==> self.endpoints[slot as int].can_receive(
            recv_ring,
            cqe.imm,
        )
    }

    /// The responses that a completion brings.
    pub open spec fn responses(self, cqe: Cqe, recv_ring: Seq<u8>) -> Seq<Response<U>> {
        match self.target(cqe) {
            Some(slot) => self.endpoints[slot as int].inbox(recv_ring, self.stack).responses,
            None => Seq::empty(),
        }
    }

    /// After a completion: the endpoint has taken its batch in, and requests stand on the stack.
    pub open spec fn processed(self, cqe: Cqe, recv_ring: Seq<u8>) -> Self {
        match self.target(cqe) {
            Some(slot) => {
                let e = self.endpoints[slot as int];
                ContextState {
                    endpoints: self.endpoints.update(
                        slot as int,
                        e.received(recv_ring, cqe.imm),
                    ),
                    stack: e.inbox(recv_ring, self.stack).requests,
                    ..self
                }
            },
            None => self,
        }
    }

    /// After the first `n` of some completions.
    pub open spec fn polled(self, completions: Seq<Completion>, n: nat) -> Self
        decreases n,
    {
        if n == 0 {
            self
        } else {
            let c = completions[n - 1];
            self.polled(completions, (n - 1) as nat).processed(c.cqe, c.recv_ring@)
        }
    }

    /// The responses that the first `n` of some completions bring.
    pub open spec fn polled_responses(
        self,
        completions: Seq<Completion>,
        n: nat,
    ) -> Seq<Response<U>>
        decreases n,
    {
        if n == 0 {
            Seq::empty()
        } else {
            let c = completions[n - 1];
            self.polled_responses(completions, (n - 1) as nat) + self.polled(
                completions,
                (n - 1) as nat,
            ).responses(c.cqe, c.recv_ring@)
        }
    }

    /// Completion `n` can be taken in behind those before it.
    pub open spec fn can_poll(self, completions: Seq<Completion>, n: nat) -> bool {
        let c = completions[n as int];
        self.polled(completions, n).can_process(c.cqe, c.recv_ring@)
    }

    /// After a flush of an endpoint is over, and the endpoint has left the queue.
    pub open spec fn flush_over(self, slot: usize, e: EndpointState<U>) -> Self {
        ContextState { flushing: None, ..self.with_endpoint(slot, e.unmarked(), self.dirty) }
    }

    /// Takes endpoints from the front of the queue, up to one that needs the device.
    pub open spec fn flush_walk(self) -> (Self, EndpointsStep)
        decreases self.dirty.len(),
    {
        if self.dirty.len() == 0 {
            (self, EndpointsStep::Done)
        } else {
            let slot = self.dirty[0];
            let rest = ContextState { dirty: self.dirty.drop_first(), ..self };
            let (e, step) = flush_start(self.endpoints[slot as int]);
            match step {
                FlushStep::Post(wqe) => (
                    ContextState {
                        flushing: Some(slot),
                        ..rest.with_endpoint(slot, e, rest.dirty)
                    },
                    EndpointsStep::Post { slot, wqe },
                ),
                FlushStep::Done { ring_doorbell } => if ring_doorbell {
                    (rest.flush_over(slot, e), EndpointsStep::Ring { slot })
                } else {
                    rest.flush_over(slot, e).flush_walk()
                },
            }
        }
    }

    /// Goes on where an endpoint waits for the device.
    pub open spec fn flush_resume(self, outcome: PostOutcome) -> (Self, EndpointsStep) {
        let slot = self.flushing->0;
        let e = self.endpoints[slot as int];
        if outcome is Posted {
            (self.flush_over(slot, e.sent().rung()), EndpointsStep::Ring { slot })
        } else {
            self.flush_over(slot, e.refused()).flush_walk()
        }
    }

    /// After the completion of a work request that an endpoint posted.
    pub open spec fn send_completed(self, slot: usize, cqe: Cqe, entry: SrqEntry) -> Self {
        if cqe.failed() {
            self
        } else if entry.qpn == 0xffff_ffff {
            self.with_endpoint(slot, self.endpoints[slot as int].raw_finished(), self.dirty)
        } else {
            ContextState { send_cqes: self.send_cqes.push((cqe, entry)), ..self }
        }
    }
}

/// An endpoint keeps what is fixed, and stays marked where it was.
pub open spec fn keeps_place<U>(pre: EndpointState<U>, post: EndpointState<U>) -> bool {
    post.local == pre.local && (pre.is_dirty ==> post.is_dirty)
}

/// A context stays well when one of its endpoints moves on.
pub proof fn lemma_with_endpoint<U>(
    s: ContextState<U>,
    slot: usize,
    e: EndpointState<U>,
    dirty: Seq<usize>,
)
    requires
        s.wf(),
        slot < s.endpoints.len(),
        e.wf(),
        keeps_place(s.endpoints[slot as int], e),
        queues(s.endpoints[slot as int], e, s.dirty, dirty),
    ensures
        s.with_endpoint(slot, e, dirty).wf(),
{
    let t = s.with_endpoint(slot, e, dirty);
    assert(s.endpoint_wf(slot));
    assert forall|i: usize| s.dirty.contains(i) implies t.dirty.contains(i) by {
        let k = s.dirty.index_of(i);
        assert(t.dirty[k] == i);
    }
    assert forall|i: usize| t.dirty.contains(i) implies s.dirty.contains(i) || i == slot by {
        let k = t.dirty.index_of(i);
        if k < s.dirty.len() {
            assert(s.dirty[k] == i);
        }
    }
    if !s.endpoints[slot as int].is_dirty && e.is_dirty {
        assert(t.dirty[s.dirty.len() as int] == slot);
    }
    assert forall|i: usize| i < t.endpoints.len() implies #[trigger] t.endpoint_wf(i) by {
        assert(s.endpoint_wf(i));
    }
    assert forall|i: int| 0 <= i < t.stack.len() implies t.message_wf(#[trigger] t.stack[i]) by {
        assert(s.message_wf(s.stack[i]));
    }
    assert forall|i: int| 0 <= i < t.dirty.len() implies (#[trigger] t.dirty[i])
        < t.endpoints.len() by {
        if i < s.dirty.len() {
            assert(t.dirty[i] == s.dirty[i]);
        }
    }
}

/// A context stays well when only its counters move on.
pub proof fn lemma_same_endpoints<U>(s: ContextState<U>, t: ContextState<U>)
    requires
        s.wf(),
        t.endpoints == s.endpoints,
        t.registry == s.registry,
        t.dirty == s.dirty,
        t.flushing == s.flushing,
        t.stack == s.stack,
        t.srq_max_wr == s.srq_max_wr,
    ensures
        t.wf(),
{
    assert forall|i: usize| i < t.endpoints.len() implies #[trigger] t.endpoint_wf(i) by {
        assert(s.endpoint_wf(i));
    }
    assert forall|i: int| 0 <= i < t.stack.len() implies t.message_wf(#[trigger] t.stack[i]) by {
        assert(s.message_wf(s.stack[i]));
    }
}

/// A context stays well when an endpoint is taken from the front of the queue and waits for the
/// device.
pub proof fn lemma_flush_taken<U>(s: ContextState<U>, e: EndpointState<U>)
    requires
        s.wf(),
        s.flushing is None,
        0 < s.dirty.len(),
        e.wf(),
        e.local == s.endpoints[s.dirty[0] as int].local,
        e.is_dirty,
    ensures
        (ContextState {
            flushing: Some(s.dirty[0]),
            ..s.with_endpoint(s.dirty[0], e, s.dirty.drop_first())
        }).wf(),
{
    let slot = s.dirty[0];
    let t = ContextState {
        flushing: Some(slot),
        ..s.with_endpoint(slot, e, s.dirty.drop_first())
    };
    assert(s.endpoint_wf(slot));
    assert forall|i: usize| i != slot implies s.dirty.contains(i) == t.dirty.contains(i) by {
        if s.dirty.contains(i) {
            let k = s.dirty.index_of(i);
            assert(t.dirty[k - 1] == i);
        }
        if t.dirty.contains(i) {
            let k = t.dirty.index_of(i);
            assert(s.dirty[k + 1] == i);
        }
    }
    if t.dirty.contains(slot) {
        let k = t.dirty.index_of(slot);
        assert(s.dirty[k + 1] == slot);
    }
    assert forall|i: int, j: int|
        0 <= i < t.dirty.len() && 0 <= j < t.dirty.len() && i != j implies t.dirty[i]
        != t.dirty[j] by {
        assert(s.dirty[i + 1] != s.dirty[j + 1]);
    }
    assert forall|i: usize| i < t.endpoints.len() implies #[trigger] t.endpoint_wf(i) by {
        assert(s.endpoint_wf(i));
    }
    assert forall|i: int| 0 <= i < t.stack.len() implies t.message_wf(#[trigger] t.stack[i]) by {
        assert(s.message_wf(s.stack[i]));
    }
}

/// A context stays well when the flush of an endpoint is over.
pub proof fn lemma_flush_over<U>(s: ContextState<U>, e: EndpointState<U>)
    requires
        s.wf(),
        s.flushing is Some,
        e.wf(),
        e.local == s.endpoints[s.flushing->0 as int].local,
    ensures
        s.flush_over(s.flushing->0, e).wf(),
{
    let slot = s.flushing->0;
    let t = s.flush_over(slot, e);
    assert(s.endpoint_wf(slot));
    assert forall|i: usize| i < t.endpoints.len() implies #[trigger] t.endpoint_wf(i) by {
        assert(s.endpoint_wf(i));
    }
    assert forall|i: int| 0 <= i < t.stack.len() implies t.message_wf(#[trigger] t.stack[i]) by {
        assert(s.message_wf(s.stack[i]));
    }
}

/// A context stays well when a new endpoint joins.
pub proof fn lemma_joined<U>(s: ContextState<U>, e: EndpointState<U>)
    requires
        s.wf(),
        e.wf(),
        s.endpoints.len() < usize::MAX,
        e.local.slot == s.endpoints.len(),
        !e.is_dirty,
    ensures
        s.joined(e).wf(),
{
    let t = s.joined(e);
    if s.dirty.contains(e.local.slot) {
        let k = s.dirty.index_of(e.local.slot);
        assert(s.dirty[k] == e.local.slot);
    }
    assert forall|i: usize| i < t.endpoints.len() implies #[trigger] t.endpoint_wf(i) by {
        if i < s.endpoints.len() {
            assert(s.endpoint_wf(i));
        }
    }
    assert forall|i: int| 0 <= i < t.stack.len() implies t.message_wf(#[trigger] t.stack[i]) by {
        assert(s.message_wf(s.stack[i]));
    }
}

} // verus!
