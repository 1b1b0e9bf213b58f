//! What each operation of a context does, and what it leaves alone.

use vstd::prelude::*;

use crate::bytes::le32_at;
use crate::cq::{Cqe, CqeOpcode};
use crate::dc::effects::{batch_at, batch_of, law_batch_taken_in};
use crate::dc::shared::{ContextState, EndpointsStep};
use crate::dc::state::EndpointState;
use crate::dc::step::EmitStep;
use crate::error::{Error, PostOutcome};
use crate::inbound::{law_nothing_is_taken_away, Inbox, RecvMessage, Response};
use crate::poll::Completion;

verus! {

/// A new context has no endpoints, nothing to do, and a full shared receive queue. Its first endpoint gets
/// the number one.
pub proof fn law_new_context<U>(port: u8, lid: u16, srq_max_wr: u32)
    ensures
        ({
            let s = ContextState::<U>::empty(port, lid, srq_max_wr);
            &&& s.port == port && s.lid == lid
            &&& s.srq_max_wr == srq_max_wr && s.srq_posted == srq_max_wr
            &&& s.endpoints.len() == 0 && s.dirty.len() == 0 && s.stack.len() == 0
            &&& s.registry == Map::<u32, usize>::empty()
            &&& s.next_id == 1
            &&& s.flushing is None && !s.emitted
            &&& s.pending_send_cqes == 0 && s.newly_signaled == 0
        }),
{
}

/// A new endpoint stands behind the others and is found by its number, and the next endpoint gets the
/// number behind. Nothing else changes.
pub proof fn law_endpoint_joins<U>(s: ContextState<U>, e: EndpointState<U>)
    ensures
        s.numbered() == (ContextState { next_id: s.next_id + 1, ..s }),
        s.joined(e) == (ContextState {
            endpoints: s.endpoints.push(e),
            registry: s.registry.insert(e.local.endpoint_id, s.endpoints.len() as usize),
            ..s
        }),
{
}

/// When an endpoint moves on, the others stay, and nothing else changes but the queue.
pub proof fn law_one_endpoint_moves<U>(
    s: ContextState<U>,
    slot: usize,
    e: EndpointState<U>,
    dirty: Seq<u32>,
    i: int,
)
    requires
        slot < s.endpoints.len(),
        0 <= i < s.endpoints.len(),
    ensures
        ({
            let t = s.with_endpoint(slot, e, dirty);
            &&& t == ContextState { endpoints: t.endpoints, dirty, ..s }
            &&& t.endpoints.len() == s.endpoints.len()
            &&& t.endpoints[slot as int] == e
            &&& i != slot ==> t.endpoints[i] == s.endpoints[i]
        }),
{
}

/// A completion is for the endpoint whose number it carries, unless it tells of an error.
pub proof fn law_completion_goes_to<U>(s: ContextState<U>, cqe: Cqe, endpoint_id: u32)
    ensures
        cqe.opcode == CqeOpcode::Success && s.registry.contains_key(cqe.imm) ==> s.target(cqe)
            == Some(s.registry[cqe.imm]),
        cqe.opcode != CqeOpcode::Success || !s.registry.contains_key(cqe.imm) ==> s.target(cqe)
            is None,
        s.registry.contains_key(endpoint_id) ==> s.slot_of(endpoint_id) == Some(
            s.registry[endpoint_id],
        ),
        !s.registry.contains_key(endpoint_id) ==> s.slot_of(endpoint_id) is None,
{
}

/// The requests that a completion brings: those of its batch.
pub open spec fn asked<U>(s: ContextState<U>, cqe: Cqe, recv_ring: Seq<u8>) -> Seq<RecvMessage> {
    match s.target(cqe) {
        Some(slot) => {
            let e = s.endpoints[slot as int];
            let count = le32_at(recv_ring, batch_at(e) + 16);
            let bare = Inbox { pending: e.pending, responses: Seq::empty(), requests: Seq::empty() };
            if count == 0xffff_ffff {
                Seq::empty()
            } else {
                batch_of(e, recv_ring).settle(
                    slot,
                    e.local.endpoint_id,
                    bare,
                    count as nat,
                ).requests
            }
        },
        None => Seq::empty(),
    }
}

/// The requests that the first `n` of some completions bring, in their order.
pub open spec fn asked_by<U>(
    s: ContextState<U>,
    completions: Seq<Completion>,
    n: nat,
) -> Seq<RecvMessage>
    decreases n,
{
    if n == 0 {
        Seq::empty()
    } else {
        let c = completions[n - 1];
        asked_by(s, completions, (n - 1) as nat) + asked(
            s.polled(completions, (n - 1) as nat),
            c.cqe,
            c.recv_ring@,
        )
    }
}

/// A completion that is for no endpoint changes nothing and brings nothing. One that is for an endpoint
/// has it take its batch in: the requests go onto the stack behind those that stand there, the
/// responses are handed out, and the other endpoints and everything else stay.
#[verifier::rlimit(50)]
pub proof fn law_completion_takes_effect<U>(s: ContextState<U>, cqe: Cqe, recv_ring: Seq<u8>)
    ensures
        s.processed(cqe, recv_ring).stack == s.stack + asked(s, cqe, recv_ring),
        match s.target(cqe) {
            None => {
                &&& s.processed(cqe, recv_ring) == s
                &&& s.responses(cqe, recv_ring) == Seq::<Response<U>>::empty()
                &&& s.can_process(cqe, recv_ring)
            },
            Some(slot) => {
                let e = s.endpoints[slot as int];
                let t = s.processed(cqe, recv_ring);
                let count = le32_at(recv_ring, batch_at(e) + 16);
                let bare = Inbox {
                    pending: e.pending,
                    responses: Seq::empty(),
                    requests: Seq::empty(),
                };
                &&& t == ContextState { endpoints: t.endpoints, stack: t.stack, ..s }
                &&& t.endpoints == s.endpoints.update(slot as int, e.received(slot, recv_ring))
                &&& s.responses(cqe, recv_ring) == (if count == 0xffff_ffff {
                    Seq::empty()
                } else {
                    batch_of(e, recv_ring).settle(
                        slot,
                        e.local.endpoint_id,
                        bare,
                        count as nat,
                    ).responses
                })
                &&& s.can_process(cqe, recv_ring) <==> e.can_receive(recv_ring)
            },
        },
{
    if let Some(slot) = s.target(cqe) {
        let e = s.endpoints[slot as int];
        let count = le32_at(recv_ring, batch_at(e) + 16);
        law_batch_taken_in(e, slot, recv_ring, s.stack);
        if count != 0xffff_ffff {
            law_nothing_is_taken_away(
                batch_of(e, recv_ring),
                slot,
                e.local.endpoint_id,
                Inbox { pending: e.pending, responses: Seq::empty(), requests: s.stack },
                count as nat,
            );
            assert(s.responses(cqe, recv_ring) =~= batch_of(e, recv_ring).settle(
                slot,
                e.local.endpoint_id,
                Inbox { pending: e.pending, responses: Seq::empty(), requests: Seq::empty() },
                count as nat,
            ).responses);
        } else {
            assert(s.processed(cqe, recv_ring).stack =~= s.stack + asked(s, cqe, recv_ring));
        }
    } else {
        assert(s.processed(cqe, recv_ring).stack =~= s.stack + asked(s, cqe, recv_ring));
    }
}

/// Completions take effect one by one, in their order, and a poll without completions changes nothing.
pub proof fn law_completions_in_order<U>(s: ContextState<U>, completions: Seq<Completion>, n: nat)
    ensures
        s.polled(completions, 0) == s,
        s.polled_responses(completions, 0) == Seq::<Response<U>>::empty(),
        ({
            let before = s.polled(completions, n);
            let c = completions[n as int];
            &&& s.polled(completions, n + 1) == before.processed(c.cqe, c.recv_ring@)
            &&& s.polled_responses(completions, n + 1) == s.polled_responses(completions, n)
                + before.responses(c.cqe, c.recv_ring@)
            &&& s.can_poll(completions, n) <==> before.can_process(c.cqe, c.recv_ring@)
        }),
{
}

/// A poll takes no request away. Those that stand on the stack stay there, in their order, and what
/// follows them is what the batches bring, in their order. So a request waits until a handler takes it,
/// however often the queue is polled meanwhile.
#[verifier::rlimit(50)]
pub proof fn law_poll_takes_no_request_away<U>(
    s: ContextState<U>,
    completions: Seq<Completion>,
    n: nat,
)
    ensures
        s.polled(completions, n).stack == s.stack + asked_by(s, completions, n),
        s.stack.len() <= s.polled(completions, n).stack.len(),
        forall|i: int|
            0 <= i < s.stack.len() ==> (#[trigger] s.polled(completions, n).stack[i]) == s.stack[i],
    decreases n,
{
    if n > 0 {
        let k = (n - 1) as nat;
        let c = completions[n - 1];
        law_poll_takes_no_request_away(s, completions, k);
        law_completion_takes_effect(s.polled(completions, k), c.cqe, c.recv_ring@);
        assert(s.polled(completions, n).stack =~= s.stack + asked_by(s, completions, n));
    } else {
        assert(s.polled(completions, 0).stack =~= s.stack + asked_by(s, completions, 0));
    }
}

/// A poll changes nothing but the endpoints and the stack: not the queue of endpoints to flush, not which
/// endpoint is found by which number, not what is counted, not the settings.
pub proof fn law_poll_leaves_the_rest<U>(s: ContextState<U>, completions: Seq<Completion>, n: nat)
    requires
        s.wf(),
    ensures
        ({
            let t = s.polled(completions, n);
            &&& t == ContextState { endpoints: t.endpoints, stack: t.stack, ..s }
            &&& t.endpoints.len() == s.endpoints.len()
        }),
    decreases n,
{
    if n > 0 {
        let k = (n - 1) as nat;
        let c = completions[n - 1];
        law_poll_leaves_the_rest(s, completions, k);
        if let Some(slot) = s.polled(completions, k).target(c.cqe) {
            assert(slot < s.endpoints.len());
        }
    }
}

/// A context after one of its endpoints has done with its flush: the endpoint stands where it stood, its
/// signaled work requests are counted for the pass, and the queue is what is given.
pub open spec fn endpoint_done<U>(
    s: ContextState<U>,
    slot: usize,
    e: EndpointState<U>,
    emitted: bool,
    dirty: Seq<u32>,
    t: ContextState<U>,
) -> bool {
    &&& t == ContextState {
        endpoints: s.endpoints.update(slot as int, EndpointState { newly_signaled: 0, ..e }),
        newly_signaled: t.newly_signaled,
        emitted,
        dirty,
        ..s
    }
    &&& t.newly_signaled == s.newly_signaled + e.newly_signaled || (t.newly_signaled == u32::MAX
        && u32::MAX < s.newly_signaled + e.newly_signaled)
}

/// What the end of an endpoint's flush changes. The endpoint goes to the end of the queue where it has
/// more to send, or where the device or the peer's ring has no room, unless it stands in the queue
/// already. Else the queue stays.
pub proof fn law_endpoint_is_done<U>(
    s: ContextState<U>,
    slot: usize,
    e: EndpointState<U>,
    r: Result<bool, Error>,
)
    ensures
        endpoint_done(s, slot, e, s.emitted, s.dirty, s.tallied(slot, e)),
        ({
            let again = r == Err::<bool, Error>(Error::RingFull) || (r is Ok && (e.wrap_pending
                || e.batch_count > 0));
            let waits = s.dirty.contains(e.local.endpoint_id);
            &&& endpoint_done(
                s,
                slot,
                e,
                s.emitted || r == Ok::<bool, Error>(true),
                if again && !waits {
                    s.dirty.push(e.local.endpoint_id)
                } else {
                    s.dirty
                },
                s.flushed(slot, e, r),
            )
        }),
{
}

/// What the end of a pass changes. The signaled work requests of the pass are added to those whose
/// completion is awaited, and the device has to be told if and only if anything was posted.
pub proof fn law_pass_ends<U>(s: ContextState<U>)
    ensures
        ({
            let (t, step) = s.flush_end();
            &&& t == ContextState {
                pending_send_cqes: t.pending_send_cqes,
                flushing: None,
                emitted: false,
                newly_signaled: 0,
                ..s
            }
            &&& t.pending_send_cqes == s.pending_send_cqes + s.newly_signaled || (
            t.pending_send_cqes == u32::MAX && u32::MAX < s.pending_send_cqes + s.newly_signaled)
            &&& step == EndpointsStep::Done { ring_doorbell: s.emitted }
        }),
{
}

/// What a pass over the endpoints to flush does with the first of them. A number of no endpoint is passed
/// over. An endpoint that hands out a work request waits for the device. One that has no room ends the
/// pass and goes to the end of the queue. Any other is done, and the pass goes on behind it.
#[verifier::rlimit(50)]
pub proof fn law_pass_takes_the_first<U>(s: ContextState<U>)
    ensures
        s.dirty.len() == 0 ==> s.flush_walk() == s.flush_end(),
        0 < s.dirty.len() ==> {
            let id = s.dirty[0];
            let behind = ContextState { dirty: s.dirty.drop_first(), ..s };
            if !s.registry.contains_key(id) {
                s.flush_walk() == behind.flush_walk()
            } else {
                let slot = s.registry[id];
                let (e, step) = s.endpoints[slot as int].emit_start();
                match step {
                    EmitStep::Post { stage, wqe } => s.flush_walk() == (
                        ContextState {
                            endpoints: s.endpoints.update(slot as int, e),
                            dirty: s.dirty.drop_first(),
                            flushing: Some((slot, stage)),
                            ..s
                        },
                        EndpointsStep::Post { slot, wqe },
                    ),
                    EmitStep::Done(r) => if r == Err::<bool, Error>(Error::RingFull) {
                        s.flush_walk() == behind.flushed(slot, e, r).flush_end()
                    } else {
                        s.flush_walk() == behind.tallied(slot, e).flush_walk()
                    },
                }
            }
        },
{
}

/// How a pass goes on when the device has answered. An endpoint that hands out one more work request waits
/// again. Where the device had no room, the pass is over. Else the endpoint is done, and the pass goes
/// on with the next.
#[verifier::rlimit(50)]
pub proof fn law_pass_goes_on<U>(s: ContextState<U>, outcome: PostOutcome)
    requires
        s.flushing is Some,
    ensures
        ({
            let (slot, stage) = s.flushing->0;
            let (e, step) = s.endpoints[slot as int].emit_resume(stage, outcome);
            match step {
                EmitStep::Post { stage, wqe } => s.flush_resume(outcome) == (
                    ContextState {
                        endpoints: s.endpoints.update(slot as int, e),
                        flushing: Some((slot, stage)),
                        ..s
                    },
                    EndpointsStep::Post { slot, wqe },
                ),
                EmitStep::Done(r) => if r == Err::<bool, Error>(Error::RingFull) {
                    s.flush_resume(outcome) == s.flushed(slot, e, r).flush_end()
                } else {
                    s.flush_resume(outcome) == s.flushed(slot, e, r).flush_walk()
                },
            }
        }),
{
}

/// When a pass can be made: the positions of every endpoint stay in 64 bits.
pub proof fn law_when_a_pass_can_be_made<U>(s: ContextState<U>)
    ensures
        s.can_walk() <==> forall|i: int|
            0 <= i < s.endpoints.len() ==> (#[trigger] s.endpoints[i]).meta_pos
                + s.endpoints[i].ring.len() <= u64::MAX,
        s.can_flush() <==> forall|i: int|
            0 <= i < s.endpoints.len() ==> (#[trigger] s.endpoints[i]).producer
                + s.endpoints[i].ring.len() + 32 <= u64::MAX,
{
}

} // verus!
