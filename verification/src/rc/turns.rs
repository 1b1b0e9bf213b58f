//! What each operation of a context does, and what it leaves alone.

use vstd::prelude::*;

use crate::bytes::le32_at;
use crate::cq::{Cqe, CqeOpcode};
use crate::error::PostOutcome;
use crate::inbound::{law_nothing_is_taken_away, Inbox, RecvMessage, Response};
use crate::poll::Completion;
use crate::rc::effects::{
    batch_at, batch_of, law_batch_taken_in, law_reply_comes_to, message_bytes, message_stands,
    stays_in_cycle,
};
use crate::rc::handle::RecvHandle;
use crate::rc::info::SrqEntry;
use crate::rc::shared::{ContextState, EndpointsStep};
use crate::rc::state::EndpointState;
use crate::rc::step::ReplyStep;

verus! {

/// A new context has no endpoints, nothing to do, and a full shared receive queue.
pub proof fn law_new_context<U>(port: u8, lid: u16, srq_max_wr: u32)
    ensures
        ({
            let s = ContextState::<U>::empty(port, lid, srq_max_wr);
            &&& s.port == port && s.lid == lid
            &&& s.srq_max_wr == srq_max_wr && s.srq_posted == srq_max_wr
            &&& s.endpoints.len() == 0 && s.dirty.len() == 0 && s.stack.len() == 0
            &&& s.send_cqes.len() == 0
            &&& s.registry == Map::<u32, usize>::empty()
            &&& s.flushing is None
        }),
{
}

/// A new endpoint stands behind the others and is found by its QP number. Nothing else changes.
pub proof fn law_endpoint_joins<U>(s: ContextState<U>, e: EndpointState<U>)
    ensures
        s.joined(e) == (ContextState {
            endpoints: s.endpoints.push(e),
            registry: s.registry.insert(e.local.qpn, e.local.slot),
            ..s
        }),
{
}

/// When an endpoint moves on, the others stay, and nothing else changes but the queue.
pub proof fn law_one_endpoint_moves<U>(
    s: ContextState<U>,
    slot: usize,
    e: EndpointState<U>,
    dirty: Seq<usize>,
    i: int,
)
    requires
        slot < s.endpoints.len(),
        0 <= i < s.endpoints.len(),
    ensures
        ({
            let t = s.with_endpoint(slot, e, dirty);
            &&& t == ContextState { endpoints: t.endpoints, dirty, ..s }
            &&& t.endpoints.len() == s.endpoints.len()
            &&& t.endpoints[slot as int] == e
            &&& i != slot ==> t.endpoints[i] == s.endpoints[i]
        }),
{
}

/// A completion is for the endpoint with its QP number, unless it tells of an error.
pub proof fn law_completion_goes_to<U>(s: ContextState<U>, cqe: Cqe)
    ensures
        cqe.opcode == CqeOpcode::Success && s.registry.contains_key(cqe.qp_num) ==> s.target(cqe)
            == Some(s.registry[cqe.qp_num]),
        cqe.opcode != CqeOpcode::Success || !s.registry.contains_key(cqe.qp_num) ==> s.target(cqe)
            is None,
{
}

/// The requests that a completion brings: those of its batch.
pub open spec fn asked<U>(s: ContextState<U>, cqe: Cqe, recv_ring: Seq<u8>) -> Seq<RecvMessage> {
    match s.target(cqe) {
        Some(slot) => {
            let e = s.endpoints[slot as int];
            let count = le32_at(recv_ring, batch_at(e) + 16);
            let bare = Inbox { pending: e.pending, responses: Seq::empty(), requests: Seq::empty() };
            if count == 0xffff_ffff {
                Seq::empty()
            } else {
                batch_of(e, recv_ring).settle(e.local.slot, e.local.qpn, bare, count as nat).requests
            }
        },
        None => Seq::empty(),
    }
}

/// The requests that the first `n` of some completions bring, in their order.
pub open spec fn asked_by<U>(
    s: ContextState<U>,
    completions: Seq<Completion>,
    n: nat,
) -> Seq<RecvMessage>
    decreases n,
{
    if n == 0 {
        Seq::empty()
    } else {
        let c = completions[n - 1];
        asked_by(s, completions, (n - 1) as nat) + asked(
            s.polled(completions, (n - 1) as nat),
            c.cqe,
            c.recv_ring@,
        )
    }
}

/// A completion that is for no endpoint changes nothing and brings nothing. One that is for an endpoint
/// has it take its batch in: the requests go onto the stack behind those that stand there, the
/// responses are handed out, and the other endpoints and everything else stay.
#[verifier::rlimit(50)]
pub proof fn law_completion_takes_effect<U>(s: ContextState<U>, cqe: Cqe, recv_ring: Seq<u8>)
    ensures
        s.processed(cqe, recv_ring).stack == s.stack + asked(s, cqe, recv_ring),
        match s.target(cqe) {
            None => {
                &&& s.processed(cqe, recv_ring) == s
                &&& s.responses(cqe, recv_ring) == Seq::<Response<U>>::empty()
                &&& s.can_process(cqe, recv_ring)
            },
            Some(slot) => {
                let e = s.endpoints[slot as int];
                let t = s.processed(cqe, recv_ring);
                let count = le32_at(recv_ring, batch_at(e) + 16);
                let bare = Inbox {
                    pending: e.pending,
                    responses: Seq::empty(),
                    requests: Seq::empty(),
                };
                &&& t == ContextState { endpoints: t.endpoints, stack: t.stack, ..s }
                &&& t.endpoints == s.endpoints.update(slot as int, e.received(recv_ring, cqe.imm))
                &&& s.responses(cqe, recv_ring) == (if count == 0xffff_ffff {
                    Seq::empty()
                } else {
                    batch_of(e, recv_ring).settle(
                        e.local.slot,
                        e.local.qpn,
                        bare,
                        count as nat,
                    ).responses
                })
                &&& s.can_process(cqe, recv_ring) <==> e.can_receive(recv_ring, cqe.imm)
            },
        },
{
    if let Some(slot) = s.target(cqe) {
        let e = s.endpoints[slot as int];
        let count = le32_at(recv_ring, batch_at(e) + 16);
        law_batch_taken_in(e, recv_ring, cqe.imm, s.stack);
        if count != 0xffff_ffff {
            law_nothing_is_taken_away(
                batch_of(e, recv_ring),
                e.local.slot,
                e.local.qpn,
                Inbox { pending: e.pending, responses: Seq::empty(), requests: s.stack },
                count as nat,
            );
            assert(s.responses(cqe, recv_ring) =~= batch_of(e, recv_ring).settle(
                e.local.slot,
                e.local.qpn,
                Inbox { pending: e.pending, responses: Seq::empty(), requests: Seq::empty() },
                count as nat,
            ).responses);
        } else {
            assert(s.processed(cqe, recv_ring).stack =~= s.stack + asked(s, cqe, recv_ring));
        }
    } else {
        assert(s.processed(cqe, recv_ring).stack =~= s.stack + asked(s, cqe, recv_ring));
    }
}

/// Completions take effect one by one, in their order, and a poll without completions changes nothing.
pub proof fn law_completions_in_order<U>(s: ContextState<U>, completions: Seq<Completion>, n: nat)
    ensures
        s.polled(completions, 0) == s,
        s.polled_responses(completions, 0) == Seq::<Response<U>>::empty(),
        ({
            let before = s.polled(completions, n);
            let c = completions[n as int];
            &&& s.polled(completions, n + 1) == before.processed(c.cqe, c.recv_ring@)
            &&& s.polled_responses(completions, n + 1) == s.polled_responses(completions, n)
                + before.responses(c.cqe, c.recv_ring@)
            &&& s.can_poll(completions, n) <==> before.can_process(c.cqe, c.recv_ring@)
        }),
{
}

/// A poll takes no request away. Those that stand on the stack stay there, in their order, and what
/// follows them is what the batches bring, in their order. So a request waits until a handler takes it,
/// however often the queue is polled meanwhile.
#[verifier::rlimit(50)]
pub proof fn law_poll_takes_no_request_away<U>(
    s: ContextState<U>,
    completions: Seq<Completion>,
    n: nat,
)
    ensures
        s.polled(completions, n).stack == s.stack + asked_by(s, completions, n),
        s.stack.len() <= s.polled(completions, n).stack.len(),
        forall|i: int|
            0 <= i < s.stack.len() ==> (#[trigger] s.polled(completions, n).stack[i]) == s.stack[i],
    decreases n,
{
    if n > 0 {
        let k = (n - 1) as nat;
        let c = completions[n - 1];
        law_poll_takes_no_request_away(s, completions, k);
        law_completion_takes_effect(s.polled(completions, k), c.cqe, c.recv_ring@);
        assert(s.polled(completions, n).stack =~= s.stack + asked_by(s, completions, n));
    } else {
        assert(s.polled(completions, 0).stack =~= s.stack + asked_by(s, completions, 0));
    }
}

/// A poll changes nothing but the endpoints and the stack: not the queue of endpoints to flush, not which
/// endpoint is found by which number, not the settings.
pub proof fn law_poll_leaves_the_rest<U>(s: ContextState<U>, completions: Seq<Completion>, n: nat)
    requires
        s.wf(),
    ensures
        ({
            let t = s.polled(completions, n);
            &&& t == ContextState { endpoints: t.endpoints, stack: t.stack, ..s }
            &&& t.endpoints.len() == s.endpoints.len()
        }),
    decreases n,
{
    if n > 0 {
        let k = (n - 1) as nat;
        let c = completions[n - 1];
        law_poll_leaves_the_rest(s, completions, k);
        if let Some(slot) = s.polled(completions, k).target(c.cqe) {
            assert(slot < s.endpoints.len());
        }
    }
}

/// What a pass over the endpoints to flush does with the first of them. One with open messages has them
/// closed and handed out as a work request. One without, whose device has to be told of something, is
/// at rest when that is done. Any other is at rest, and the pass goes on behind it.
#[verifier::rlimit(50)]
pub proof fn law_pass_takes_the_first<U>(s: ContextState<U>)
    requires
        s.flushing is None,
        forall|i: int| 0 <= i < s.dirty.len() ==> (#[trigger] s.dirty[i]) < s.endpoints.len(),
    ensures
        s.dirty.len() == 0 ==> s.flush_walk() == (s, EndpointsStep::Done),
        0 < s.dirty.len() ==> {
            let slot = s.dirty[0];
            let e = s.endpoints[slot as int];
            let rest = EndpointState { needs_doorbell: false, is_dirty: false, ..e };
            let quiet = ContextState {
                endpoints: s.endpoints.update(slot as int, rest),
                dirty: s.dirty.drop_first(),
                ..s
            };
            if e.batch_count != 0 {
                s.flush_walk() == (
                    ContextState {
                        endpoints: s.endpoints.update(slot as int, e.filled()),
                        dirty: s.dirty.drop_first(),
                        flushing: Some(slot),
                        ..s
                    },
                    EndpointsStep::Post { slot, wqe: e.filled().work_request() },
                )
            } else if e.needs_doorbell {
                s.flush_walk() == (quiet, EndpointsStep::Ring { slot })
            } else {
                s.flush_walk() == quiet.flush_walk()
            }
        },
{
    if 0 < s.dirty.len() {
        let slot = s.dirty[0];
        let e = s.endpoints[slot as int];
        let rest = EndpointState { needs_doorbell: false, is_dirty: false, ..e };
        let quiet = ContextState {
            endpoints: s.endpoints.update(slot as int, rest),
            dirty: s.dirty.drop_first(),
            ..s
        };
        let after = ContextState { dirty: s.dirty.drop_first(), ..s };
        if e.batch_count == 0 {
            assert(after.flush_over(slot, e.rung()) =~= quiet);
        }
    }
}

/// How a pass goes on when the device has answered. Where it took the work request, the endpoint is at
/// rest and its device has to be told. Where it refused, the endpoint keeps its messages and leaves the
/// queue, and the pass goes on.
pub proof fn law_pass_goes_on<U>(s: ContextState<U>, outcome: PostOutcome)
    requires
        s.flushing is Some,
        s.flushing->0 < s.endpoints.len(),
    ensures
        ({
            let slot = s.flushing->0;
            let e = s.endpoints[slot as int];
            let sent = EndpointState { needs_doorbell: false, is_dirty: false, ..e.sent() };
            let kept = EndpointState { told: 0, granted: 0, is_dirty: false, ..e };
            if outcome == PostOutcome::Posted {
                s.flush_resume(outcome) == (
                    ContextState {
                        endpoints: s.endpoints.update(slot as int, sent),
                        flushing: None,
                        ..s
                    },
                    EndpointsStep::Ring { slot },
                )
            } else {
                s.flush_resume(outcome) == (ContextState {
                    endpoints: s.endpoints.update(slot as int, kept),
                    flushing: None,
                    ..s
                }).flush_walk()
            }
        }),
{
    let slot = s.flushing->0;
    let e = s.endpoints[slot as int];
    let kept = EndpointState { told: 0, granted: 0, is_dirty: false, ..e };
    assert(s.flush_over(slot, e.refused()) =~= ContextState {
        endpoints: s.endpoints.update(slot as int, kept),
        flushing: None,
        ..s
    });
}

/// The completion of a raw operation counts for its endpoint, that of a batch is kept until the next pass,
/// and one that tells of an error changes nothing.
pub proof fn law_send_completion<U>(s: ContextState<U>, slot: usize, cqe: Cqe, entry: SrqEntry)
    requires
        slot < s.endpoints.len(),
    ensures
        ({
            let t = s.send_completed(slot, cqe, entry);
            if cqe.opcode != CqeOpcode::Success {
                t == s
            } else if entry.qpn == 0xffff_ffff {
                t == ContextState {
                    endpoints: s.endpoints.update(
                        slot as int,
                        s.endpoints[slot as int].raw_finished(),
                    ),
                    ..s
                }
            } else {
                t == ContextState { send_cqes: s.send_cqes.push((cqe, entry)), ..s }
            }
        }),
{
}

/// The reply that a handle makes is the whole of what the handler hands in, to the request that the
/// handle stands for, out of the bytes that its caller set aside. Where it stays in the ring cycle, it
/// stands in the batch with exactly these bytes.
pub proof fn law_reply_is_whole<U>(handle: RecvHandle, data: Seq<u8>, e: EndpointState<U>)
    ensures
        ({
            let r = handle.reply_input(data);
            &&& r.call_id == handle@.call_id
            &&& r.response_allowance == handle@.response_allowance
            &&& r.data == data
        }),
        e.wf() && e.open_batch() && data.len() <= u32::MAX && stays_in_cycle(
            e,
            message_bytes(data.len() as int),
        ) ==> {
            let (post, step) = handle.reply_input(data).start(e);
            &&& step == ReplyStep::Done(Ok(()))
            &&& message_stands(
                e,
                post.ring,
                0x8000_0000 + handle@.call_id as int % 0x8000_0000,
                0,
                data,
            )
        },
{
    if e.wf() && e.open_batch() && data.len() <= u32::MAX {
        law_reply_comes_to(handle.reply_input(data), e);
    }
}

} // verus!
