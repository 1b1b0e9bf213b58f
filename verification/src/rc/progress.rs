//! Why a call that was refused for want of room is taken in the end, and answered.
//!
//! When the peer has reported all as read, a request is either taken, or a wrap has room, behind which
//! it is taken when the peer has reported all as read again. And the next batch of a peer that has read
//! all reports so.

use vstd::prelude::*;

use crate::inbound::{Answer, Ask, Mail};
use crate::message::{lemma_padded_bounds, Format};
use crate::rc::credit::in_place;
use crate::rc::laws::{
    countable, in_range, in_step, landed, law_batch_arrives, law_call_keys_stay_small,
    law_request_reaches_handler, law_response_reaches_caller,
};
use crate::rc::state::{lemma_sent, lemma_wrapped, EndpointState};
use crate::rc::step::{
    call_id_of, CallInput, CallStage, CallStep, ReplyInput, ReplyStage, ReplyStep,
};
use crate::ring::lemma_offset_wrap;

verus! {

/// No message is open, and the peer has reported all that was sent as read.
pub open spec fn all_reported<U>(s: EndpointState<U>) -> bool {
    &&& s.open_batch()
    &&& s.batch_count == 0
    &&& s.consumer == s.meta_pos
}

/// After the peer has reported all that was sent as read.
pub open spec fn reported<U>(s: EndpointState<U>) -> EndpointState<U> {
    EndpointState { consumer: s.flush_start, ..s }
}

/// The call is taken at once.
pub open spec fn taken<U>(
    input: CallInput<U>,
    pre: EndpointState<U>,
    post: EndpointState<U>,
    step: CallStep<U>,
) -> bool {
    exists|key: usize| #[trigger] input.accepts(key, pre, post, step)
}

/// A wrap that the device takes starts a ring cycle: behind it the open batch is empty and stands at
/// the start of a cycle, further on than before.
pub proof fn law_wrap_starts_cycle<U>(s: EndpointState<U>)
    requires
        s.wf(),
        s.open_batch(),
        s.batch_count == 0,
        s.meta_pos + s.len() <= u64::MAX,
    ensures
        ({
            let t = s.wrapped().sent();
            &&& t.offset(t.meta_pos) == 0
            &&& s.meta_pos < t.meta_pos <= s.meta_pos + s.len()
            &&& t.producer == t.meta_pos + 32
            &&& t.flush_start == t.meta_pos
            &&& t.batch_count == 0
        }),
{
    lemma_wrapped(s);
    lemma_offset_wrap(s.meta_pos, s.len());
}

/// A message that leaves the open batch short of the end of the ring cycle goes into it, and nothing is
/// posted. Every other one goes behind a wrap, also one that would take the batch exactly to the end of
/// the cycle. The open batch is sent before, where it has messages. Where the peer's ring has no room for
/// the wrap, the message is refused.
pub proof fn law_wrap_where_due<U>(
    call: CallInput<U>,
    pre: EndpointState<U>,
    post: EndpointState<U>,
    step: CallStep<U>,
    reply: ReplyInput,
)
    requires
        pre.wf(),
        pre.open_batch(),
        0 <= call.allowance <= pre.peer_credit,
        call.starts(pre, post, step),
    ensures
        !pre.wrap_due(call.size()) ==> (step matches CallStep::Post(p) ==> p.stage is SpaceFlush),
        pre.wrap_due(call.size()) && pre.batch_count > 0 ==> {
            &&& call.stops(CallStage::CloseBatch, post, step)
            &&& post == pre.filled()
        },
        pre.wrap_due(call.size()) && pre.batch_count == 0 ==> if pre.wrap_fits(
            2 * pre.reservation,
        ) {
            &&& call.stops(CallStage::Wrap, post, step)
            &&& post == pre.wrapped()
        } else {
            call.refuses(CallStage::SpaceFlush, pre, post, step)
        },
        !pre.wrap_due(reply.size()) ==> reply.start(pre) == (
            reply.placed(pre),
            ReplyStep::Done(Ok(())),
        ),
        pre.wrap_due(reply.size()) && pre.batch_count > 0 ==> reply.start(pre) == (
            pre.filled(),
            ReplyStep::Post { stage: ReplyStage::CloseBatch, wqe: pre.filled().work_request() },
        ),
        pre.wrap_due(reply.size()) && pre.batch_count == 0 && pre.wrap_fits(0) ==> reply.start(pre)
            == (
            pre.wrapped(),
            ReplyStep::Post { stage: ReplyStage::Wrap, wqe: pre.wrapped().work_request() },
        ),
{
}

/// A call for which there is credit, and whose request fits into an empty ring cycle and into an empty
/// ring of the peer beside twice the most credit, is taken where all is reported as read. Or a wrap has
/// room: the call posts it, and behind it the call is taken when all is reported as read again.
#[verifier::rlimit(50)]
pub proof fn law_call_finds_room<U>(
    input: CallInput<U>,
    s: EndpointState<U>,
    post: EndpointState<U>,
    step: CallStep<U>,
    next: EndpointState<U>,
    next_step: CallStep<U>,
)
    requires
        s.wf(),
        all_reported(s),
        in_place(s) || s.wrap_fits(2 * s.reservation),
        s.meta_pos + s.len() + 32 <= u64::MAX,
        0 <= input.allowance <= s.peer_credit,
        32 + input.size() < s.len(),
        32 + input.size() + 2 * s.local.max_resp_reservation <= s.remote_size(),
        input.starts(s, post, step),
    ensures
        !s.wrap_due(input.size()) ==> taken(input, s, post, step),
        s.wrap_due(input.size()) ==> {
            let behind = reported(s.wrapped().sent());
            &&& input.stops(CallStage::Wrap, post, step)
            &&& post == s.wrapped()
            &&& all_reported(behind)
            &&& input.starts(behind, next, next_step) ==> taken(input, behind, next, next_step)
        },
{
    lemma_padded_bounds(Format::Rc, input.data.len() as int);
    if s.wrap_due(input.size()) {
        lemma_room_behind(s, input.size());
        let behind = reported(s.wrapped().sent());
        if input.starts(behind, next, next_step) {
            lemma_starts_taken(input, behind, next, next_step);
        }
    } else {
        assert(s.has_space(input.size()));
        lemma_starts_taken(input, s, post, step);
    }
}

/// A call with credit is taken where its request has room in the ring cycle and in the peer's ring.
proof fn lemma_starts_taken<U>(
    input: CallInput<U>,
    pre: EndpointState<U>,
    post: EndpointState<U>,
    step: CallStep<U>,
)
    requires
        pre.remote is Some,
        input.allowance <= pre.peer_credit,
        !pre.wrap_due(input.size()),
        pre.has_space(input.size()),
        input.starts(pre, post, step),
    ensures
        taken(input, pre, post, step),
{
}

/// Where all is reported as read, a wrap that a message needs has room, and behind it the message has.
#[verifier::rlimit(50)]
proof fn lemma_room_behind<U>(s: EndpointState<U>, size: int)
    requires
        s.wf(),
        all_reported(s),
        in_place(s) || s.wrap_fits(2 * s.reservation),
        s.meta_pos + s.len() + 32 <= u64::MAX,
        0 <= size,
        32 + size < s.len(),
        32 + size + 2 * s.local.max_resp_reservation <= s.remote_size(),
        s.wrap_due(size),
    ensures
        s.wrap_fits(2 * s.reservation),
        ({
            let behind = reported(s.wrapped().sent());
            &&& all_reported(behind)
            &&& behind.remote == s.remote
            &&& behind.peer_credit == s.peer_credit
            &&& !behind.wrap_due(size)
            &&& behind.has_space(size)
        }),
{
    lemma_offset_wrap(s.meta_pos, s.len());
    lemma_wrapped(s);
    lemma_sent(s.wrapped());
    law_wrap_starts_cycle(s);
}

/// The next batch that a peer sends which has read all reports so: when it has landed and was taken in,
/// all is reported as read.
#[verifier::rlimit(50)]
pub proof fn law_next_batch_reports_all<U, V>(
    a: EndpointState<U>,
    b: EndpointState<V>,
    recv_ring: Seq<u8>,
)
    requires
        a.wf(),
        b.wf(),
        a.open_batch(),
        b.open_batch(),
        0 < b.batch_count < u32::MAX,
        countable(b.batch()),
        b.recv_pos == a.flush_start,
        b.notified == a.consumer,
        in_step(b, a),
        in_range(b, a),
        recv_ring.len() == a.local.recv_ring_len,
        recv_ring.len() <= usize::MAX,
        landed(b.filled(), recv_ring),
    ensures
        ({
            let imm = b.filled().work_request().imm;
            let after = a.received(recv_ring, imm);
            &&& a.can_receive(recv_ring, imm)
            &&& after.consumer == after.flush_start
            &&& after.flush_start == a.flush_start
            &&& a.batch_count == 0 ==> all_reported(after)
        }),
{
    law_batch_arrives(b, a, recv_ring);
}

/// A call is answered. Let its batch have landed at the peer `b`, let the handler there reply to what it
/// finds last, in the ring cycle where the open batch stands, and let the batch of the reply have landed
/// at the caller, where the call is in progress up to this message. The handler has found the request,
/// the caller finds the response last, with the user data of the call, and the call is over.
pub proof fn law_call_is_answered<U, V>(
    input: CallInput<U>,
    key: usize,
    a: EndpointState<U>,
    a1: EndpointState<U>,
    step: CallStep<U>,
    b: EndpointState<V>,
    ring_at_b: Seq<u8>,
    reply: ReplyInput,
    a2: EndpointState<U>,
    ring_at_a: Seq<u8>,
)
    requires
        a.wf(),
        a.open_batch(),
        in_place(a),
        a.batch_count < u32::MAX - 1,
        input.data.len() <= u32::MAX,
        0 <= input.allowance <= u64::MAX,
        input.allowance % 32 == 0,
        a.offset(a.meta_pos) + (a.producer - a.meta_pos) + input.size() <= a.len(),
        a.producer + input.size() <= u64::MAX,
        input.accepts(key, a, a1, step),
        a.slots <= 0x8000_0000,
        a.pending.len() < 0x8000_0000,
        countable(a.batch()),
        b.wf(),
        in_step(a1, b),
        in_range(a1, b),
        ring_at_b.len() == b.local.recv_ring_len,
        ring_at_b.len() <= usize::MAX,
        landed(a1.filled(), ring_at_b),
        ({
            let ask = b.inbox(ring_at_b, Seq::empty()).read(ring_at_b).asks.last();
            let b1 = b.received(ring_at_b, a1.filled().work_request().imm);
            let b2 = reply.placed(b1);
            &&& reply.call_id == ask.call_id
            &&& reply.response_allowance == ask.allowance
            &&& reply.data.len() <= u32::MAX
            &&& b1.wf()
            &&& b1.open_batch()
            &&& in_place(b1)
            &&& b1.batch_count < u32::MAX - 1
            &&& !b1.wrap_due(reply.size())
            &&& b1.producer + reply.size() <= u64::MAX
            &&& countable(b1.batch())
            &&& in_step(b2, a2)
            &&& in_range(b2, a2)
            &&& landed(b2.filled(), ring_at_a)
            &&& (Mail { pending: a2.pending, answers: Seq::empty(), asks: Seq::empty() }).open_all(
                b1.batch(),
            ).pending.contains_key(key)
        }),
        a2.wf(),
        a2.pending[key] == input.user_data,
        ring_at_a.len() == a2.local.recv_ring_len,
        ring_at_a.len() <= usize::MAX,
    ensures
        ({
            let imm_at_b = a1.filled().work_request().imm;
            let b1 = b.received(ring_at_b, imm_at_b);
            let imm_at_a = reply.placed(b1).filled().work_request().imm;
            let asks = b.inbox(ring_at_b, Seq::empty()).read(ring_at_b).asks;
            let mail = a2.inbox(ring_at_a, Seq::empty()).read(ring_at_a);
            &&& b.can_receive(ring_at_b, imm_at_b)
            &&& 0 < asks.len()
            &&& asks.last() == (Ask {
                call_id: call_id_of(key),
                payload: input.data,
                allowance: input.allowance,
            })
            &&& reply.start(b1) == (reply.placed(b1), ReplyStep::Done(Ok(())))
            &&& a2.can_receive(ring_at_a, imm_at_a)
            &&& 0 < mail.answers.len()
            &&& mail.answers.last() == (Answer {
                user_data: input.user_data,
                payload: reply.data,
            })
            &&& !a2.received(ring_at_a, imm_at_a).pending.contains_key(key)
        }),
{
    let b1 = b.received(ring_at_b, a1.filled().work_request().imm);
    law_request_reaches_handler(input, key, a, a1, step, b, ring_at_b);
    law_call_keys_stay_small(input, key, a, a1, step, 0x8000_0000);
    law_response_reaches_caller(reply, key, b1, a2, ring_at_a);
}

/// Behind a wrap that the device refused, every message waits for it: no message goes into the ring
/// cycle that it ends, and the next call or reply tries it again.
pub proof fn law_refused_wrap_comes_first<U>(s: EndpointState<U>, size: int)
    requires
        s.wf(),
        s.open_batch(),
        s.batch_count == 0,
        0 <= size,
    ensures
        ({
            let t = s.wrapped().refused();
            &&& t.wrap_due(size)
            &&& t.batch_count == 0
            &&& t.meta_pos == s.meta_pos
            &&& t.cycle_end() == s.cycle_end()
        }),
{
    lemma_offset_wrap(s.meta_pos, s.len());
}

} // verus!
