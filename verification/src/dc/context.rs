//! The endpoints that share a device.

use std::collections::HashMap;
use vstd::prelude::*;

use crate::cq::Cqe;
use crate::dc::dirty::DirtyEndpointList;
use crate::dc::endpoint::Endpoint;
use crate::dc::handle::RecvHandle;
use crate::dc::info::{LocalEndpointInfo, RingMemory};
use crate::dc::shared::{
    lemma_joined, lemma_numbered, lemma_queued, lemma_same_endpoints, lemma_with_endpoint,
    ContextState, EndpointsStep,
};
use crate::dc::state::{lemma_span, EndpointState};
use crate::dc::step::{EmitStage, EmitStep};
use crate::dc::turns::{law_poll_leaves_the_rest, law_poll_takes_no_request_away};
use crate::error::{Error, PostOutcome};
use crate::inbound::{RecvMessage, Response};
use crate::poll::{Completion, Polled};
use crate::ring::is_pow2;
use crate::srq::{left_after, missing_after, replenish};

verus! {

/// The endpoints that share a device, and what they share.
pub struct Context<U> {
    port: u8,
    lid: u16,
    srq_posted: u32,
    srq_max_wr: u32,
    endpoints: Vec<Endpoint<U>>,
    registry: HashMap<u32, usize>,
    next_endpoint_id: u32,
    dirty_endpoints: DirtyEndpointList,
    pending_send_cqes: u32,
    recv_stack: Vec<RecvMessage>,
    flushing: Option<(usize, EmitStage)>,
    emitted: bool,
    newly_signaled: u32,
}

/// Where all endpoints can be flushed, they can be walked over.
proof fn lemma_can_walk<U>(s: ContextState<U>)
    requires
        s.base_wf(),
        s.can_flush(),
    ensures
        s.can_walk(),
{
    assert forall|i: int| 0 <= i < s.endpoints.len() implies (#[trigger] s.endpoints[i]).meta_pos
        + s.endpoints[i].len() <= u64::MAX by {
        assert(s.endpoint_wf(i));
        lemma_span(s.endpoints[i]);
    }
}

impl<U> View for Context<U> {
    type V = ContextState<U>;

    closed spec fn view(&self) -> ContextState<U> {
        ContextState {
            port: self.port,
            lid: self.lid,
            srq_posted: self.srq_posted as int,
            srq_max_wr: self.srq_max_wr as int,
            endpoints: Seq::new(self.endpoints@.len(), |i: int| self.endpoints@[i]@),
            registry: self.registry@,
            next_id: self.next_endpoint_id as int,
            dirty: self.dirty_endpoints@,
            pending_send_cqes: self.pending_send_cqes as int,
            stack: self.recv_stack@,
            flushing: self.flushing,
            emitted: self.emitted,
            newly_signaled: self.newly_signaled as int,
        }
    }
}

impl<U> Context<U> {
    /// The queue of endpoints to flush and the calls in progress of each endpoint are kept well.
    pub closed spec fn parts_wf(self) -> bool {
        &&& self.dirty_endpoints.wf()
        &&& forall|i: int|
            0 <= i < self.endpoints@.len() ==> (#[trigger] self.endpoints@[i]).calls_wf()
    }

    /// Holds of every context between operations.
    pub open spec fn wf(self) -> bool {
        self@.wf() && self.parts_wf()
    }

    /// A context without endpoints, whose shared receive queue is full.
    pub fn new(port: u8, lid: u16, srq_max_wr: u32) -> (r: Self)
        requires
            srq_max_wr <= u32::MAX / 2,
        ensures
            r.wf(),
            r@ == ContextState::<U>::empty(port, lid, srq_max_wr),
    {
        let r = Context {
            port,
            lid,
            srq_posted: srq_max_wr,
            srq_max_wr,
            endpoints: Vec::new(),
            registry: HashMap::new(),
            next_endpoint_id: 1,
            dirty_endpoints: DirtyEndpointList::new(),
            pending_send_cqes: 0,
            recv_stack: Vec::new(),
            flushing: None,
            emitted: false,
            newly_signaled: 0,
        };
        assert(r@.endpoints =~= Seq::<EndpointState<U>>::empty());
        r
    }

    /// Local identifier on the subnet.
    pub fn lid(&self) -> (r: u16)
        ensures
            r == self@.lid,
    {
        self.lid
    }

    /// Port number.
    pub fn port(&self) -> (r: u8)
        ensures
            r == self@.port,
    {
        self.port
    }

    /// Number of endpoints.
    pub fn endpoint_count(&self) -> (r: usize)
        ensures
            r == self@.endpoints.len(),
    {
        self.endpoints.len()
    }

    /// Where the endpoint with a number stands among the endpoints.
    pub fn slot_of(&self, endpoint_id: u32) -> (r: Option<usize>)
        ensures
            r == self@.slot_of(endpoint_id),
    {
        broadcast use vstd::std_specs::hash::group_hash_axioms;

        match self.registry.get(&endpoint_id) {
            Some(slot) => Some(*slot),
            None => None,
        }
    }

    /// Tells whether there are numbers and places left for one more endpoint.
    pub fn can_create(&self) -> (r: bool)
        ensures
            r == (self@.endpoints.len() < usize::MAX && self@.next_id < u32::MAX),
    {
        self.endpoints.len() < usize::MAX && self.next_endpoint_id < u32::MAX
    }

    /// Takes the next number, and adds an endpoint under it if its rings could be registered. Returns
    /// where the endpoint stands among the endpoints. Where they could not, the number is used up.
    #[verifier::rlimit(50)]
    pub fn create_endpoint(&mut self, registered: Result<(Vec<u8>, RingMemory), Error>) -> (r: Result<
        usize,
        Error,
    >)
        requires
            old(self).wf(),
            old(self)@.endpoints.len() < usize::MAX,
            old(self)@.next_id < u32::MAX,
            registered matches Ok((send_ring, memory)) ==> {
                &&& is_pow2(send_ring@.len() as int)
                &&& 32 <= send_ring@.len()
                &&& memory.send_addr + send_ring@.len() <= u64::MAX
                &&& is_pow2(memory.recv_len as int)
                &&& 32 <= memory.recv_len
            },
        ensures
            final(self).wf(),
            match registered {
                Ok((send_ring, memory)) => {
                    &&& r == Ok::<usize, Error>(old(self)@.endpoints.len() as usize)
                    &&& final(self)@ == old(self)@.numbered().joined(
                        EndpointState::created(old(self)@.next_id as u32, send_ring@, memory),
                    )
                },
                Err(error) => {
                    &&& r == Err::<usize, Error>(error)
                    &&& final(self)@ == old(self)@.numbered()
                },
            },
    {
        broadcast use vstd::std_specs::hash::group_hash_axioms;

        let endpoint_id: u32 = self.next_endpoint_id;
        self.next_endpoint_id = endpoint_id + 1;
        let ghost s = old(self)@;
        let (send_ring, memory) = match registered {
            Ok(rings) => rings,
            Err(error) => {
                proof {
                    lemma_numbered(s);
                    assert(self@ =~= s.numbered());
                }
                return Err(error);
            },
        };
        let slot: usize = self.endpoints.len();
        let endpoint = Endpoint::new(endpoint_id, send_ring, &memory);
        proof {
            lemma_joined(s, endpoint@);
        }
        let ghost added = endpoint;
        self.registry.insert(endpoint_id, slot);
        self.endpoints.push(endpoint);
        assert(self@ =~= s.numbered().joined(added@));
        Ok(slot)
    }

    /// An endpoint.
    pub fn endpoint(&self, slot: usize) -> (r: &Endpoint<U>)
        requires
            self.wf(),
            slot < self@.endpoints.len(),
        ensures
            r.wf(),
            r@ == self@.endpoints[slot as int],
    {
        assert(self@.endpoint_wf(slot as int));
        &self.endpoints[slot]
    }

    /// What a peer needs to know to connect to an endpoint, with the local identifier and the port.
    pub fn local_info(&self, slot: usize, dct_number: u32, dc_key: u64) -> (r: (
        LocalEndpointInfo,
        u16,
        u8,
    ))
        requires
            self.wf(),
            slot < self@.endpoints.len(),
        ensures
            ({
                let local = self@.endpoints[slot as int].local;
                &&& r.0 == (LocalEndpointInfo {
                    dct_number,
                    dc_key,
                    recv_ring_addr: local.recv_ring_addr,
                    recv_ring_rkey: local.recv_ring_rkey,
                    recv_ring_size: local.recv_ring_len,
                    initial_credit: local.recv_ring_len / 2,
                    endpoint_id: local.endpoint_id,
                })
            }),
            r.1 == self@.lid,
            r.2 == self@.port,
    {
        (self.endpoint(slot).local_info(dct_number, dc_key), self.lid, self.port)
    }

    /// An endpoint and the queue of endpoints to flush.
    pub fn endpoint_and_queue(&mut self, slot: usize) -> (r: (
        &mut Endpoint<U>,
        &mut DirtyEndpointList,
    ))
        requires
            old(self).wf(),
            old(self)@.flushing is None,
            slot < old(self)@.endpoints.len(),
        ensures
            r.0.wf(),
            r.0@ == old(self)@.endpoints[slot as int],
            r.1.wf(),
            r.1@ == old(self)@.dirty,
            final(self)@ == old(self)@.with_endpoint(slot, final(r.0)@, final(r.1)@),
            final(r.0).wf() && final(r.0)@.local == r.0@.local && final(r.1).wf()
                && final(r.1)@.no_duplicates() ==> final(self).wf(),
    {
        let ghost s = self@;
        assert(s.endpoint_wf(slot as int));
        assert(self.endpoints@[slot as int].calls_wf());
        proof {
            assert forall|e: EndpointState<U>, dirty: Seq<u32>|
                e.wf() && e.local == s.endpoints[slot as int].local
                    && dirty.no_duplicates() implies #[trigger] s.with_endpoint(
                slot,
                e,
                dirty,
            ).wf() by {
                lemma_with_endpoint(s, slot, e, dirty);
            }
        }
        (&mut self.endpoints[slot], &mut self.dirty_endpoints)
    }

    /// Tells whether a completion can be taken in.
    pub fn can_process(&self, cqe: Cqe, recv_ring: &[u8]) -> (r: bool)
        requires
            self.wf(),
        ensures
            r == self@.can_process(cqe, recv_ring@),
    {
        if cqe.is_error() {
            return true;
        }
        match self.slot_of(cqe.imm) {
            Some(slot) => {
                assert(self@.endpoint_wf(slot as int));
                self.endpoints[slot].batch_valid(recv_ring)
            },
            None => true,
        }
    }

    /// Takes in the batch that a completion announced. Requests go onto the stack, responses are
    /// returned. A completion that tells of an error, or is for no endpoint, is passed over.
    #[verifier::rlimit(50)]
    pub fn process_cqe(&mut self, cqe: Cqe, recv_ring: &[u8]) -> (responses: Vec<Response<U>>)
        requires
            old(self).wf(),
            old(self)@.flushing is None,
            old(self)@.can_process(cqe, recv_ring@),
        ensures
            final(self).wf(),
            final(self)@ == old(self)@.processed(cqe, recv_ring@),
            responses@ == old(self)@.responses(cqe, recv_ring@),
            final(self)@.flushing is None,
            final(self)@.endpoints.len() == old(self)@.endpoints.len(),
            forall|i: int|
                0 <= i < old(self)@.endpoints.len() ==> (#[trigger] final(self)@.endpoints[i]).local
                    == old(self)@.endpoints[i].local,
            forall|i: int|
                0 <= i < responses@.len() ==> old(self)@.response_wf(#[trigger] responses@[i]),
    {
        if cqe.is_error() {
            return Vec::new();
        }
        let slot: usize = match self.slot_of(cqe.imm) {
            Some(slot) => slot,
            None => {
                return Vec::new();
            },
        };
        let ghost s = self@;
        assert(s.endpoint_wf(slot as int));
        assert(self.endpoints@[slot as int].calls_wf());
        let responses = self.endpoints[slot].receive(slot, recv_ring, &mut self.recv_stack);
        proof {
            let t = s.processed(cqe, recv_ring@);
            assert(self@ =~= t);
            assert forall|i: int| 0 <= i < t.endpoints.len() implies #[trigger] t.endpoint_wf(i) by {
                assert(s.endpoint_wf(i));
            }
            assert forall|i: int| 0 <= i < t.stack.len() implies t.message_wf(
                #[trigger] t.stack[i],
            ) by {
                if i < s.stack.len() {
                    assert(s.message_wf(s.stack[i]));
                }
            }
        }
        responses
    }

    /// Takes in completions of the receive queue, in their order, and keeps the shared receive
    /// queue filled.
    #[verifier::rlimit(50)]
    pub fn poll_recv_counted(&mut self, completions: &[Completion<'_>]) -> (polled: Polled<U>)
        requires
            old(self).wf(),
            old(self)@.flushing is None,
            completions@.len() <= u32::MAX,
        ensures
            final(self).wf(),
            polled.recv_count <= completions@.len(),
            polled.malformed == (polled.recv_count < completions@.len()),
            forall|i: int|
                0 <= i < polled.responses@.len() ==> old(self)@.response_wf(
                    #[trigger] polled.responses@[i],
                ),
            old(self)@.stack.len() <= final(self)@.stack.len(),
            final(self)@.stack.subrange(0, old(self)@.stack.len() as int) == old(self)@.stack,
            final(self)@.dirty == old(self)@.dirty,
            final(self)@.registry == old(self)@.registry,
            final(self)@.endpoints.len() == old(self)@.endpoints.len(),
            forall|i: nat|
                i < polled.recv_count ==> #[trigger] old(self)@.can_poll(completions@, i),
            polled.malformed ==> !old(self)@.can_poll(completions@, polled.recv_count as nat),
            polled.responses@ == old(self)@.polled_responses(
                completions@,
                polled.recv_count as nat,
            ),
            ({
                let s = old(self)@.polled(completions@, polled.recv_count as nat);
                if polled.malformed {
                    &&& polled.to_post == 0
                    &&& final(self)@ == s
                } else {
                    let used = completions@.len() as int;
                    &&& polled.to_post == missing_after(s.srq_posted, used, s.srq_max_wr)
                    &&& final(self)@ == (ContextState {
                        srq_posted: left_after(s.srq_posted, used) + polled.to_post,
                        ..s
                    })
                }
            }),
    {
        let mut responses: Vec<Response<U>> = Vec::new();
        let mut recv_count: u32 = 0;
        while (recv_count as usize) < completions.len()
            invariant
                old(self).wf(),
                self.wf(),
                self@.flushing is None,
                recv_count <= completions@.len() <= u32::MAX,
                self@ == old(self)@.polled(completions@, recv_count as nat),
                responses@ == old(self)@.polled_responses(completions@, recv_count as nat),
                self@.endpoints.len() == old(self)@.endpoints.len(),
                forall|i: int|
                    0 <= i < old(self)@.endpoints.len() ==> (#[trigger] self@.endpoints[i]).local
                        == old(self)@.endpoints[i].local,
                forall|i: int|
                    0 <= i < responses@.len() ==> old(self)@.response_wf(#[trigger] responses@[i]),
                forall|i: nat| i < recv_count ==> #[trigger] old(self)@.can_poll(completions@, i),
            decreases completions@.len() - recv_count,
        {
            let c = &completions[recv_count as usize];
            if !self.can_process(c.cqe, c.recv_ring) {
                assert(!old(self)@.can_poll(completions@, recv_count as nat));
                proof {
                    law_poll_takes_no_request_away(old(self)@, completions@, recv_count as nat);
                    law_poll_leaves_the_rest(old(self)@, completions@, recv_count as nat);
                    assert(self@.stack.subrange(0, old(self)@.stack.len() as int) =~= old(self)@.stack);
                }
                return Polled { responses, recv_count, to_post: 0, malformed: true };
            }
            assert(old(self)@.can_poll(completions@, recv_count as nat));
            let ghost before = self@;
            let mut more = self.process_cqe(c.cqe, c.recv_ring);
            assert forall|i: int| 0 <= i < more@.len() implies old(self)@.response_wf(
                #[trigger] more@[i],
            ) by {
                assert(before.response_wf(more@[i]));
            }
            responses.append(&mut more);
            recv_count = recv_count + 1;
        }
        proof {
            law_poll_takes_no_request_away(old(self)@, completions@, recv_count as nat);
            law_poll_leaves_the_rest(old(self)@, completions@, recv_count as nat);
            assert(self@.stack.subrange(0, old(self)@.stack.len() as int) =~= old(self)@.stack);
        }
        let to_post: u32 = self.refill(recv_count);
        Polled { responses, recv_count, to_post, malformed: false }
    }

    /// Takes note that `recv_count` receive buffers are used up. Returns how many to post, so that the
    /// shared receive queue stays filled.
    pub fn refill(&mut self, recv_count: u32) -> (to_post: u32)
        requires
            old(self).wf(),
        ensures
            final(self).wf(),
            ({
                let s = old(self)@;
                &&& to_post == missing_after(s.srq_posted, recv_count as int, s.srq_max_wr)
                &&& final(self)@ == (ContextState {
                    srq_posted: left_after(s.srq_posted, recv_count as int) + to_post,
                    ..s
                })
            }),
    {
        let ghost s = self@;
        let to_post: u32 = replenish(&mut self.srq_posted, recv_count, self.srq_max_wr);
        proof {
            lemma_same_endpoints(s, self@);
        }
        to_post
    }

    /// Tells whether any endpoint is to be flushed.
    pub fn has_dirty_endpoints(&self) -> (r: bool)
        requires
            self.wf(),
        ensures
            r == (self@.dirty.len() > 0),
    {
        !self.dirty_endpoints.is_empty()
    }

    /// Receive buffers in the shared receive queue.
    pub fn srq_posted(&self) -> (r: u32)
        ensures
            r == self@.srq_posted,
    {
        self.srq_posted
    }

    /// Signaled work requests whose completion has not been polled.
    pub fn pending_send_cqes(&self) -> (r: u32)
        ensures
            r == self@.pending_send_cqes,
    {
        self.pending_send_cqes
    }

    /// Takes note of completions of signaled work requests.
    pub fn send_cqes_polled(&mut self, polled: u32)
        requires
            old(self).wf(),
        ensures
            final(self).wf(),
            final(self)@ == (ContextState {
                pending_send_cqes: left_after(old(self)@.pending_send_cqes, polled as int),
                ..old(self)@
            }),
    {
        let ghost s = self@;
        self.pending_send_cqes = self.pending_send_cqes.saturating_sub(polled);
        proof {
            lemma_same_endpoints(s, self@);
        }
    }

    /// Tells whether positions of all endpoints stay in range while they are flushed.
    pub fn can_flush(&self) -> (r: bool)
        requires
            self.wf(),
        ensures
            r == self@.can_flush(),
    {
        let mut i: usize = 0;
        while i < self.endpoints.len()
            invariant
                self.wf(),
                i <= self.endpoints@.len(),
                forall|j: int|
                    0 <= j < i ==> (#[trigger] self@.endpoints[j]).producer
                        + self@.endpoints[j].len() + 32 <= u64::MAX,
            decreases self.endpoints@.len() - i,
        {
            let e = self.endpoint(i);
            if !e.can_flush() {
                assert(self@.endpoints[i as int] == e@);
                return false;
            }
            i = i + 1;
        }
        true
    }

    /// Counts the signaled work requests of an endpoint.
    fn tally(&mut self, slot: usize)
        requires
            slot < old(self)@.endpoints.len(),
            old(self)@.base_wf(),
            old(self).parts_wf(),
        ensures
            final(self)@.base_wf(),
            final(self).parts_wf(),
            final(self)@ == old(self)@.tallied(slot, old(self)@.endpoints[slot as int]),
    {
        let ghost s = self@;
        assert(s.endpoint_wf(slot as int));
        assert(self.endpoints@[slot as int].calls_wf());
        let n: u32 = self.endpoints[slot].take_newly_signaled_count();
        self.newly_signaled = self.newly_signaled.saturating_add(n);
        proof {
            let e = s.endpoints[slot as int];
            assert(self@ =~= s.tallied(slot, e));
            lemma_with_endpoint(s, slot, e.counted(), s.dirty);
            lemma_same_endpoints(s.with_endpoint(slot, e.counted(), s.dirty), self@);
        }
    }

    /// Takes note that the flush of an endpoint came to `r`.
    fn settle(&mut self, slot: usize, r: Result<bool, Error>)
        requires
            slot < old(self)@.endpoints.len(),
            old(self)@.base_wf(),
            old(self).parts_wf(),
        ensures
            final(self)@.base_wf(),
            final(self).parts_wf(),
            final(self)@ == old(self)@.flushed(slot, old(self)@.endpoints[slot as int], r),
    {
        let ghost s = self@;
        let ghost e = s.endpoints[slot as int];
        self.tally(slot);
        let ghost t = self@;
        proof {
            assert(t.endpoints[slot as int] == e.counted());
            assert(self.endpoints@[slot as int]@ == t.endpoints[slot as int]);
            assert(t.endpoint_wf(slot as int));
            lemma_queued(s.dirty, e.local.endpoint_id);
        }
        let again: bool = match r {
            Ok(emitted) => {
                self.emitted = self.emitted || emitted;
                self.endpoints[slot].has_pending_flush()
            },
            Err(error) => matches!(error, Error::RingFull),
        };
        if again {
            let endpoint_id: u32 = self.endpoints[slot].endpoint_id();
            self.dirty_endpoints.push_back(endpoint_id);
        }
        proof {
            assert(self@ =~= s.flushed(slot, e, r));
            lemma_same_endpoints(t, self@);
        }
    }

    /// Ends a pass over the endpoints to flush.
    fn finish(&mut self) -> (step: EndpointsStep)
        requires
            old(self)@.base_wf(),
            old(self).parts_wf(),
        ensures
            final(self).wf(),
            (final(self)@, step) == old(self)@.flush_end(),
    {
        let ghost s = self@;
        let ring_doorbell: bool = self.emitted;
        if self.newly_signaled > 0 {
            self.pending_send_cqes = self.pending_send_cqes.saturating_add(self.newly_signaled);
        }
        self.flushing = None;
        self.emitted = false;
        self.newly_signaled = 0;
        proof {
            lemma_same_endpoints(s, self@);
            assert(self@ =~= s.flush_end().0);
        }
        EndpointsStep::Done { ring_doorbell }
    }

    /// Takes endpoints from the front of the queue, up to one that needs the device.
    #[verifier::rlimit(50)]
    fn walk(&mut self) -> (step: EndpointsStep)
        requires
            old(self)@.base_wf(),
            old(self).parts_wf(),
            old(self)@.can_walk(),
        ensures
            final(self).wf(),
            (final(self)@, step) == old(self)@.flush_walk(),
    {
        loop
            invariant
                self@.base_wf(),
                self.parts_wf(),
                self@.can_walk(),
                self@.flush_walk() == old(self)@.flush_walk(),
            decreases self@.dirty.len(),
        {
            let ghost s = self@;
            let endpoint_id: u32 = match self.dirty_endpoints.pop_front() {
                Some(endpoint_id) => endpoint_id,
                None => {
                    assert(self@ =~= s);
                    return self.finish();
                },
            };
            let ghost rest = ContextState { dirty: s.dirty.drop_first(), ..s };
            proof {
                assert(self@ =~= rest);
                assert forall|i: int, j: int|
                    0 <= i < rest.dirty.len() && 0 <= j < rest.dirty.len() && i
                        != j implies rest.dirty[i] != rest.dirty[j] by {
                    assert(s.dirty[i + 1] != s.dirty[j + 1]);
                }
                lemma_same_endpoints(s, rest);
                assert forall|i: int| 0 <= i < rest.endpoints.len() implies (
                #[trigger] rest.endpoints[i]).meta_pos + rest.endpoints[i].len() <= u64::MAX by {
                    assert(s.endpoints[i].meta_pos + s.endpoints[i].len() <= u64::MAX);
                }
            }
            if let Some(slot) = self.slot_of(endpoint_id) {
                assert(rest.endpoint_wf(slot as int));
                assert(self.endpoints@[slot as int].calls_wf());
                assert(rest.endpoints[slot as int].meta_pos + rest.endpoints[slot as int].len()
                    <= u64::MAX);
                let step = self.endpoints[slot].emit_pending();
                let ghost e = self.endpoints@[slot as int]@;
                proof {
                    assert(self@ =~= rest.with_endpoint(slot, e, rest.dirty));
                    lemma_with_endpoint(rest, slot, e, rest.dirty);
                }
                match step {
                    EmitStep::Post { stage, wqe } => {
                        self.flushing = Some((slot, stage));
                        proof {
                            lemma_same_endpoints(rest.with_endpoint(slot, e, rest.dirty), self@);
                            assert(self@ =~= ContextState {
                                flushing: Some((slot, stage)),
                                ..rest.with_endpoint(slot, e, rest.dirty)
                            });
                        }
                        return EndpointsStep::Post { slot, wqe };
                    },
                    EmitStep::Done(Err(Error::RingFull)) => {
                        self.settle(slot, Err(Error::RingFull));
                        assert(self@ =~= rest.flushed(slot, e, Err(Error::RingFull)));
                        return self.finish();
                    },
                    EmitStep::Done(_) => {
                        self.tally(slot);
                        assert(self@ =~= rest.tallied(slot, e));
                    },
                }
            }
        }
    }

    /// Sends what all endpoints in the queue have to send.
    pub fn flush_endpoints(&mut self) -> (step: EndpointsStep)
        requires
            old(self).wf(),
            old(self)@.flushing is None,
            old(self)@.can_flush(),
        ensures
            final(self).wf(),
            (final(self)@, step) == old(self)@.flush_walk(),
    {
        proof {
            lemma_can_walk(self@);
        }
        self.walk()
    }

    /// Goes on with the endpoints in the queue when the device has answered.
    #[verifier::rlimit(50)]
    pub fn flush_posted(&mut self, outcome: PostOutcome) -> (step: EndpointsStep)
        requires
            old(self).wf(),
            old(self)@.flushing is Some,
            old(self)@.can_flush(),
        ensures
            final(self).wf(),
            (final(self)@, step) == old(self)@.flush_resume(outcome),
    {
        let ghost s = self@;
        let (slot, stage) = match self.flushing {
            Some(pair) => pair,
            None => {
                return EndpointsStep::Done { ring_doorbell: false };
            },
        };
        proof {
            assert(s.endpoint_wf(slot as int));
            assert(self.endpoints@[slot as int].calls_wf());
            assert(s.endpoints[slot as int].producer + s.endpoints[slot as int].len() + 32
                <= u64::MAX);
            lemma_can_walk(s);
        }
        let step = self.endpoints[slot].emit_posted(stage, outcome);
        let ghost e = self.endpoints@[slot as int]@;
        proof {
            assert(self@ =~= s.with_endpoint(slot, e, s.dirty));
            lemma_with_endpoint(s, slot, e, s.dirty);
        }
        let r = match step {
            EmitStep::Post { stage, wqe } => {
                self.flushing = Some((slot, stage));
                proof {
                    lemma_same_endpoints(s.with_endpoint(slot, e, s.dirty), self@);
                    assert(self@ =~= ContextState {
                        flushing: Some((slot, stage)),
                        ..s.with_endpoint(slot, e, s.dirty)
                    });
                }
                return EndpointsStep::Post { slot, wqe };
            },
            EmitStep::Done(r) => r,
        };
        self.settle(slot, r);
        proof {
            let t = s.flushed(slot, e, r);
            assert(self@ =~= t);
            assert forall|i: int| 0 <= i < t.endpoints.len() implies (
            #[trigger] t.endpoints[i]).meta_pos + t.endpoints[i].len() <= u64::MAX by {
                assert(s.endpoints[i].meta_pos + s.endpoints[i].len() <= u64::MAX);
            }
        }
        match r {
            Err(Error::RingFull) => self.finish(),
            _ => self.walk(),
        }
    }

    /// The request to handle next, if there is any.
    pub fn recv(&mut self) -> (r: Option<RecvHandle>)
        requires
            old(self).wf(),
        ensures
            final(self).wf(),
            match r {
                Some(handle) => {
                    &&& 0 < old(self)@.stack.len()
                    &&& handle@ == old(self)@.stack.last()
                    &&& old(self)@.message_wf(handle@)
                    &&& final(self)@ == (ContextState {
                        stack: old(self)@.stack.drop_last(),
                        ..old(self)@
                    })
                },
                None => old(self)@.stack.len() == 0 && final(self)@ == old(self)@,
            },
    {
        let ghost s = self@;
        let popped = self.recv_stack.pop();
        proof {
            let t = self@;
            if s.stack.len() > 0 {
                assert(s.message_wf(s.stack[s.stack.len() - 1]));
            }
            assert forall|i: int| 0 <= i < t.endpoints.len() implies #[trigger] t.endpoint_wf(i) by {
                assert(s.endpoint_wf(i));
            }
            assert forall|i: int| 0 <= i < t.stack.len() implies t.message_wf(
                #[trigger] t.stack[i],
            ) by {
                assert(s.message_wf(s.stack[i]));
            }
        }
        match popped {
            Some(message) => Some(RecvHandle::of(message)),
            None => None,
        }
    }
}

} // verus!
