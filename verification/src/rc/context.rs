//! The endpoints that share a device.

use std::collections::{HashMap, VecDeque};
use vstd::prelude::*;

use crate::cq::Cqe;
use crate::error::PostOutcome;
use crate::inbound::{RecvMessage, Response};
use crate::poll::{Completion, Polled};
use crate::rc::endpoint::Endpoint;
use crate::rc::handle::RecvHandle;
use crate::rc::info::{EndpointConfig, RingMemory, SrqEntry};
use crate::rc::shared::{
    keeps_place, lemma_flush_over, lemma_flush_taken, lemma_joined, lemma_same_endpoints,
    lemma_with_endpoint, ContextState, EndpointsStep,
};
use crate::rc::state::{EndpointState, RAW_RDMA_SENTINEL_QPN};
use crate::rc::step::{queues, FlushStep};
use crate::rc::turns::{law_poll_leaves_the_rest, law_poll_takes_no_request_away};
use crate::ring::is_pow2;
use crate::srq::{left_after, missing_after, replenish};

verus! {

/// Completions of sent batches.
pub struct SendCqeBuffer {
    entries: Vec<(Cqe, SrqEntry)>,
}

impl View for SendCqeBuffer {
    type V = Seq<(Cqe, SrqEntry)>;

    closed spec fn view(&self) -> Seq<(Cqe, SrqEntry)> {
        self.entries@
    }
}

impl SendCqeBuffer {
    /// A buffer without completions.
    pub fn new() -> (r: Self)
        ensures
            r@ == Seq::<(Cqe, SrqEntry)>::empty(),
    {
        SendCqeBuffer { entries: Vec::new() }
    }

    /// Puts a completion at the end.
    pub fn push(&mut self, cqe: Cqe, entry: SrqEntry)
        ensures
            final(self)@ == old(self)@.push((cqe, entry)),
    {
        self.entries.push((cqe, entry));
    }

    /// Forgets all completions.
    pub fn clear(&mut self)
        ensures
            final(self)@ == Seq::<(Cqe, SrqEntry)>::empty(),
    {
        self.entries.clear();
    }
}

/// The endpoints that share a device, and what they share.
pub struct Context<U> {
    port: u8,
    lid: u16,
    srq_posted: u32,
    srq_max_wr: u32,
    endpoints: Vec<Endpoint<U>>,
    registry: HashMap<u32, usize>,
    dirty_endpoints: VecDeque<usize>,
    flushing: Option<usize>,
    recv_stack: Vec<RecvMessage>,
    send_cqe_buffer: SendCqeBuffer,
}

impl<U> View for Context<U> {
    type V = ContextState<U>;

    closed spec fn view(&self) -> ContextState<U> {
        ContextState {
            port: self.port,
            lid: self.lid,
            srq_posted: self.srq_posted as int,
            srq_max_wr: self.srq_max_wr as int,
            endpoints: Seq::new(self.endpoints@.len(), |i: int| self.endpoints@[i]@),
            registry: self.registry@,
            dirty: self.dirty_endpoints@,
            flushing: self.flushing,
            stack: self.recv_stack@,
            send_cqes: self.send_cqe_buffer@,
        }
    }
}

impl<U> Context<U> {
    /// The calls in progress of each endpoint are kept well.
    pub closed spec fn calls_wf(self) -> bool {
        forall|i: int| 0 <= i < self.endpoints@.len() ==> (#[trigger] self.endpoints@[i]).calls_wf()
    }

    /// Holds of every context between operations.
    pub open spec fn wf(self) -> bool {
        self@.wf() && self.calls_wf()
    }

    /// A context without endpoints, whose shared receive queue is full.
    pub fn new(port: u8, lid: u16, srq_max_wr: u32) -> (r: Self)
        requires
            srq_max_wr <= u32::MAX / 2,
        ensures
            r.wf(),
            r@ == ContextState::<U>::empty(port, lid, srq_max_wr),
    {
        let r = Context {
            port,
            lid,
            srq_posted: srq_max_wr,
            srq_max_wr,
            endpoints: Vec::new(),
            registry: HashMap::new(),
            dirty_endpoints: VecDeque::new(),
            flushing: None,
            recv_stack: Vec::new(),
            send_cqe_buffer: SendCqeBuffer::new(),
        };
        assert(r@.endpoints =~= Seq::<EndpointState<U>>::empty());
        r
    }

    /// Local identifier on the subnet.
    pub fn lid(&self) -> (r: u16)
        ensures
            r == self@.lid,
    {
        self.lid
    }

    /// Port number.
    pub fn port(&self) -> (r: u8)
        ensures
            r == self@.port,
    {
        self.port
    }

    /// Number of endpoints.
    pub fn endpoint_count(&self) -> (r: usize)
        ensures
            r == self@.endpoints.len(),
    {
        self.endpoints.len()
    }

    /// Where the endpoint with a QP number stands among the endpoints.
    pub fn slot_of(&self, qpn: u32) -> (r: Option<usize>)
        ensures
            r == (if self@.registry.contains_key(qpn) {
                Some(self@.registry[qpn])
            } else {
                None
            }),
    {
        broadcast use vstd::std_specs::hash::group_hash_axioms;

        match self.registry.get(&qpn) {
            Some(slot) => Some(*slot),
            None => None,
        }
    }

    /// Adds an endpoint on a queue pair whose rings have been registered. Returns where it stands
    /// among the endpoints.
    pub fn create_endpoint(
        &mut self,
        config: &EndpointConfig,
        qpn: u32,
        send_ring: Vec<u8>,
        memory: &RingMemory,
    ) -> (slot: usize)
        requires
            old(self).wf(),
            old(self)@.endpoints.len() < usize::MAX,
            is_pow2(send_ring@.len() as int),
            32 <= send_ring@.len(),
            memory.send_addr + send_ring@.len() <= u64::MAX,
            is_pow2(memory.recv_len as int),
            32 <= memory.recv_len,
        ensures
            final(self).wf(),
            slot == old(self)@.endpoints.len(),
            final(self)@ == old(self)@.joined(
                EndpointState::created(*config, slot, qpn, send_ring@, *memory),
            ),
    {
        broadcast use vstd::std_specs::hash::group_hash_axioms;

        let slot: usize = self.endpoints.len();
        let endpoint = Endpoint::new(config, slot, qpn, send_ring, memory);
        proof {
            lemma_joined(self@, endpoint@);
        }
        self.registry.insert(qpn, slot);
        let ghost added = endpoint;
        self.endpoints.push(endpoint);
        assert(self@ =~= old(self)@.joined(added@));
        slot
    }

    /// An endpoint.
    pub fn endpoint(&self, slot: usize) -> (r: &Endpoint<U>)
        requires
            self.wf(),
            slot < self@.endpoints.len(),
        ensures
            r.wf(),
            r@ == self@.endpoints[slot as int],
    {
        assert(self@.endpoint_wf(slot));
        &self.endpoints[slot]
    }

    /// An endpoint and the queue of endpoints to flush.
    pub fn endpoint_and_queue(&mut self, slot: usize) -> (r: (
        &mut Endpoint<U>,
        &mut VecDeque<usize>,
    ))
        requires
            old(self).wf(),
            slot < old(self)@.endpoints.len(),
        ensures
            r.0.wf(),
            r.0@ == old(self)@.endpoints[slot as int],
            r.1@ == old(self)@.dirty,
            final(self)@ == old(self)@.with_endpoint(slot, final(r.0)@, final(r.1)@),
            final(r.0).wf() && keeps_place(r.0@, final(r.0)@) && queues(
                r.0@,
                final(r.0)@,
                r.1@,
                final(r.1)@,
            ) ==> final(self).wf(),
    {
        let ghost s = self@;
        assert(s.endpoint_wf(slot));
        assert(self.endpoints@[slot as int].calls_wf());
        proof {
            assert forall|e: EndpointState<U>, dirty: Seq<usize>|
                e.wf() && keeps_place(s.endpoints[slot as int], e) && queues(
                    s.endpoints[slot as int],
                    e,
                    s.dirty,
                    dirty,
                ) implies #[trigger] s.with_endpoint(slot, e, dirty).wf() by {
                lemma_with_endpoint(s, slot, e, dirty);
            }
        }
        (&mut self.endpoints[slot], &mut self.dirty_endpoints)
    }

    /// Where the endpoint that a completion is for stands among the endpoints.
    fn target_of(&self, cqe: &Cqe) -> (r: Option<usize>)
        ensures
            r == self@.target(*cqe),
    {
        if cqe.is_error() {
            None
        } else {
            self.slot_of(cqe.qp_num)
        }
    }

    /// Tells whether a completion can be taken in.
    pub fn can_process(&self, cqe: Cqe, recv_ring: &[u8]) -> (r: bool)
        requires
            self.wf(),
        ensures
            r == self@.can_process(cqe, recv_ring@),
    {
        match self.target_of(&cqe) {
            Some(slot) => {
                assert(self@.endpoint_wf(slot));
                self.endpoints[slot].batch_valid(recv_ring, cqe.imm)
            },
            None => true,
        }
    }

    /// Takes in the batch that a completion announced. Requests go onto the stack, responses are
    /// returned. A completion that tells of an error, or is for no endpoint, is passed over.
    #[verifier::rlimit(50)]
    pub fn process_cqe(&mut self, cqe: Cqe, recv_ring: &[u8]) -> (responses: Vec<Response<U>>)
        requires
            old(self).wf(),
            old(self)@.can_process(cqe, recv_ring@),
        ensures
            final(self).wf(),
            final(self)@ == old(self)@.processed(cqe, recv_ring@),
            responses@ == old(self)@.responses(cqe, recv_ring@),
            final(self)@.endpoints.len() == old(self)@.endpoints.len(),
            forall|i: int|
                0 <= i < old(self)@.endpoints.len() ==> (#[trigger] final(self)@.endpoints[i]).local
                    == old(self)@.endpoints[i].local,
            forall|i: int|
                0 <= i < responses@.len() ==> old(self)@.response_wf(#[trigger] responses@[i]),
    {
        let slot: usize = match self.target_of(&cqe) {
            Some(slot) => slot,
            None => {
                return Vec::new();
            },
        };
        let ghost s = self@;
        assert(s.endpoint_wf(slot));
        assert(self.endpoints@[slot as int].calls_wf());
        let responses = self.endpoints[slot].receive(recv_ring, cqe.imm, &mut self.recv_stack);
        proof {
            let t = s.processed(cqe, recv_ring@);
            assert(self@ =~= t);
            assert forall|i: usize| i < t.endpoints.len() implies #[trigger] t.endpoint_wf(i) by {
                assert(s.endpoint_wf(i));
            }
            assert forall|i: int| 0 <= i < t.stack.len() implies t.message_wf(
                #[trigger] t.stack[i],
            ) by {
                if i < s.stack.len() {
                    assert(s.message_wf(s.stack[i]));
                }
            }
        }
        responses
    }

    /// Takes in completions of the receive queue, in their order, and keeps the shared receive
    /// queue filled.
    #[verifier::rlimit(50)]
    pub fn poll_recv_only(&mut self, completions: &[Completion<'_>]) -> (polled: Polled<U>)
        requires
            old(self).wf(),
            completions@.len() <= u32::MAX,
        ensures
            final(self).wf(),
            polled.recv_count <= completions@.len(),
            polled.malformed == (polled.recv_count < completions@.len()),
            forall|i: int|
                0 <= i < polled.responses@.len() ==> old(self)@.response_wf(
                    #[trigger] polled.responses@[i],
                ),
            old(self)@.stack.len() <= final(self)@.stack.len(),
            final(self)@.stack.subrange(0, old(self)@.stack.len() as int) == old(self)@.stack,
            final(self)@.dirty == old(self)@.dirty,
            final(self)@.registry == old(self)@.registry,
            final(self)@.endpoints.len() == old(self)@.endpoints.len(),
            forall|i: nat|
                i < polled.recv_count ==> #[trigger] old(self)@.can_poll(completions@, i),
            polled.malformed ==> !old(self)@.can_poll(completions@, polled.recv_count as nat),
            polled.responses@ == old(self)@.polled_responses(
                completions@,
                polled.recv_count as nat,
            ),
            ({
                let s = old(self)@.polled(completions@, polled.recv_count as nat);
                if polled.malformed {
                    &&& polled.to_post == 0
                    &&& final(self)@ == s
                } else {
                    let used = completions@.len() as int;
                    &&& polled.to_post == missing_after(s.srq_posted, used, s.srq_max_wr)
                    &&& final(self)@ == (ContextState {
                        srq_posted: left_after(s.srq_posted, used) + polled.to_post,
                        ..s
                    })
                }
            }),
    {
        let mut responses: Vec<Response<U>> = Vec::new();
        let mut recv_count: u32 = 0;
        while (recv_count as usize) < completions.len()
            invariant
                old(self).wf(),
                self.wf(),
                recv_count <= completions@.len() <= u32::MAX,
                self@ == old(self)@.polled(completions@, recv_count as nat),
                responses@ == old(self)@.polled_responses(completions@, recv_count as nat),
                self@.endpoints.len() == old(self)@.endpoints.len(),
                forall|i: int|
                    0 <= i < old(self)@.endpoints.len() ==> (#[trigger] self@.endpoints[i]).local
                        == old(self)@.endpoints[i].local,
                forall|i: int|
                    0 <= i < responses@.len() ==> old(self)@.response_wf(#[trigger] responses@[i]),
                forall|i: nat| i < recv_count ==> #[trigger] old(self)@.can_poll(completions@, i),
            decreases completions@.len() - recv_count,
        {
            let c = &completions[recv_count as usize];
            if !self.can_process(c.cqe, c.recv_ring) {
                assert(!old(self)@.can_poll(completions@, recv_count as nat));
                proof {
                    law_poll_takes_no_request_away(old(self)@, completions@, recv_count as nat);
                    law_poll_leaves_the_rest(old(self)@, completions@, recv_count as nat);
                    assert(self@.stack.subrange(0, old(self)@.stack.len() as int) =~= old(self)@.stack);
                }
                return Polled { responses, recv_count, to_post: 0, malformed: true };
            }
            assert(old(self)@.can_poll(completions@, recv_count as nat));
            let ghost before = self@;
            let mut more = self.process_cqe(c.cqe, c.recv_ring);
            assert forall|i: int| 0 <= i < more@.len() implies old(self)@.response_wf(
                #[trigger] more@[i],
            ) by {
                assert(before.response_wf(more@[i]));
            }
            responses.append(&mut more);
            recv_count = recv_count + 1;
        }
        proof {
            law_poll_takes_no_request_away(old(self)@, completions@, recv_count as nat);
            law_poll_leaves_the_rest(old(self)@, completions@, recv_count as nat);
            assert(self@.stack.subrange(0, old(self)@.stack.len() as int) =~= old(self)@.stack);
        }
        let to_post: u32 = self.refill(recv_count);
        Polled { responses, recv_count, to_post, malformed: false }
    }

    /// Takes note that `recv_count` receive buffers are used up. Returns how many to post, so that the
    /// shared receive queue stays filled.
    pub fn refill(&mut self, recv_count: u32) -> (to_post: u32)
        requires
            old(self).wf(),
        ensures
            final(self).wf(),
            ({
                let s = old(self)@;
                &&& to_post == missing_after(s.srq_posted, recv_count as int, s.srq_max_wr)
                &&& final(self)@ == (ContextState {
                    srq_posted: left_after(s.srq_posted, recv_count as int) + to_post,
                    ..s
                })
            }),
    {
        let ghost s = self@;
        let to_post: u32 = replenish(&mut self.srq_posted, recv_count, self.srq_max_wr);
        proof {
            lemma_same_endpoints(s, self@);
        }
        to_post
    }

    /// Takes note of the completion of a work request that an endpoint posted.
    pub fn send_completed(&mut self, slot: usize, cqe: Cqe, entry: SrqEntry)
        requires
            old(self).wf(),
            slot < old(self)@.endpoints.len(),
        ensures
            final(self).wf(),
            final(self)@ == old(self)@.send_completed(slot, cqe, entry),
    {
        if cqe.is_error() {
            return ;
        }
        let ghost s = self@;
        assert(s.endpoint_wf(slot));
        if entry.qpn == RAW_RDMA_SENTINEL_QPN {
            let (endpoint, _) = self.endpoint_and_queue(slot);
            endpoint.raw_rdma_completed();
            return ;
        }
        self.send_cqe_buffer.push(cqe, entry);
        proof {
            lemma_same_endpoints(s, self@);
        }
    }

    /// Takes endpoints from the front of the queue, up to one that needs the device.
    #[verifier::rlimit(50)]
    fn walk(&mut self) -> (step: EndpointsStep)
        requires
            old(self).wf(),
            old(self)@.flushing is None,
        ensures
            final(self).wf(),
            (final(self)@, step) == old(self)@.flush_walk(),
    {
        loop
            invariant
                self.wf(),
                self@.flushing is None,
                self@.flush_walk() == old(self)@.flush_walk(),
            decreases self@.dirty.len(),
        {
            let ghost s = self@;
            let slot: usize = match self.dirty_endpoints.pop_front() {
                Some(slot) => slot,
                None => {
                    return EndpointsStep::Done;
                },
            };
            assert(slot == s.dirty[0]);
            assert(s.endpoint_wf(slot));
            assert(self.endpoints@[slot as int].calls_wf());
            let step = self.endpoints[slot].flush();
            self.flushing = Some(slot);
            let ghost e = self.endpoints@[slot as int]@;
            proof {
                lemma_flush_taken(s, e);
                assert(self@ =~= ContextState {
                    flushing: Some(slot),
                    ..s.with_endpoint(slot, e, s.dirty.drop_first())
                });
            }
            match step {
                FlushStep::Post(wqe) => {
                    return EndpointsStep::Post { slot, wqe };
                },
                FlushStep::Done { ring_doorbell } => {
                    self.finish(slot);
                    let ghost rest = ContextState { dirty: s.dirty.drop_first(), ..s };
                    assert(self@ =~= rest.flush_over(slot, e));
                    if ring_doorbell {
                        return EndpointsStep::Ring { slot };
                    }
                },
            }
        }
    }

    /// Ends the flush of an endpoint.
    fn finish(&mut self, slot: usize)
        requires
            old(self).wf(),
            old(self)@.flushing == Some(slot),
        ensures
            final(self).wf(),
            final(self)@ == old(self)@.flush_over(slot, old(self)@.endpoints[slot as int]),
    {
        let ghost s = self@;
        assert(s.endpoint_wf(slot));
        assert(self.endpoints@[slot as int].calls_wf());
        self.endpoints[slot].clear_dirty();
        self.flushing = None;
        proof {
            lemma_flush_over(s, s.endpoints[slot as int]);
            assert(self@ =~= s.flush_over(slot, s.endpoints[slot as int]));
        }
    }

    /// Sends what all endpoints in the queue have to send. Completions of sent batches up to here
    /// are forgotten.
    pub fn flush_endpoints(&mut self) -> (step: EndpointsStep)
        requires
            old(self).wf(),
            old(self)@.flushing is None,
        ensures
            final(self).wf(),
            (final(self)@, step) == (ContextState {
                send_cqes: Seq::empty(),
                ..old(self)@
            }).flush_walk(),
    {
        let ghost s = self@;
        self.send_cqe_buffer.clear();
        proof {
            lemma_same_endpoints(s, self@);
            assert(self@ =~= ContextState { send_cqes: Seq::empty(), ..s });
        }
        self.walk()
    }

    /// Goes on with the endpoints in the queue when the device was told of the work requests.
    pub fn flush_rung(&mut self) -> (step: EndpointsStep)
        requires
            old(self).wf(),
            old(self)@.flushing is None,
        ensures
            final(self).wf(),
            (final(self)@, step) == old(self)@.flush_walk(),
    {
        self.walk()
    }

    /// Tells whether the position of the endpoint that waits for the device can move on.
    pub fn can_flush(&self) -> (r: bool)
        requires
            self.wf(),
        ensures
            r == (self@.flushing matches Some(slot) && self@.endpoints[slot as int].producer + 32
                <= u64::MAX),
    {
        match self.flushing {
            Some(slot) => self.endpoint(slot).can_flush(),
            None => false,
        }
    }

    /// Goes on with the endpoints in the queue when the device has answered.
    #[verifier::rlimit(50)]
    pub fn flush_posted(&mut self, outcome: PostOutcome) -> (step: EndpointsStep)
        requires
            old(self).wf(),
            old(self)@.flushing is Some,
            old(self)@.endpoints[old(self)@.flushing->0 as int].producer + 32 <= u64::MAX,
        ensures
            final(self).wf(),
            (final(self)@, step) == old(self)@.flush_resume(outcome),
    {
        let ghost s = self@;
        let slot: usize = match self.flushing {
            Some(slot) => slot,
            None => {
                return EndpointsStep::Done;
            },
        };
        assert(s.endpoint_wf(slot));
        assert(self.endpoints@[slot as int].calls_wf());
        let posted = self.endpoints[slot].flush_posted(outcome);
        let ghost e = self.endpoints@[slot as int]@;
        proof {
            assert(self@ =~= s.with_endpoint(slot, e, s.dirty));
            lemma_with_endpoint(s, slot, e, s.dirty);
        }
        self.finish(slot);
        assert(self@ =~= s.flush_over(slot, e));
        match posted {
            Ok(_) => EndpointsStep::Ring { slot },
            Err(_) => self.walk(),
        }
    }

    /// The request to handle next, if there is any.
    pub fn recv(&mut self) -> (r: Option<RecvHandle>)
        requires
            old(self).wf(),
        ensures
            final(self).wf(),
            match r {
                Some(handle) => {
                    &&& 0 < old(self)@.stack.len()
                    &&& handle@ == old(self)@.stack.last()
                    &&& old(self)@.message_wf(handle@)
                    &&& final(self)@ == (ContextState {
                        stack: old(self)@.stack.drop_last(),
                        ..old(self)@
                    })
                },
                None => old(self)@.stack.len() == 0 && final(self)@ == old(self)@,
            },
    {
        let ghost s = self@;
        let popped = self.recv_stack.pop();
        proof {
            let t = self@;
            if s.stack.len() > 0 {
                assert(s.message_wf(s.stack[s.stack.len() - 1]));
            }
            assert forall|i: usize| i < t.endpoints.len() implies #[trigger] t.endpoint_wf(i) by {
                assert(s.endpoint_wf(i));
            }
            assert forall|i: int| 0 <= i < t.stack.len() implies t.message_wf(
                #[trigger] t.stack[i],
            ) by {
                assert(s.message_wf(s.stack[i]));
            }
        }
        match popped {
            Some(message) => Some(RecvHandle::of(message)),
            None => None,
        }
    }
}

} // verus!
