//! Why a message that was refused for want of room is taken in the end, and a call answered.
//!
//! A message is taken where it fits into the ring cycle and into the peer's ring. When the peer has
//! reported all as read, a message is either taken, or a wrap has room, behind which it is taken when
//! the peer has reported all as read again. And of two sides that have read all, a flush of each in turn
//! reports so, also where both rings are full.

use vstd::prelude::*;

use crate::dc::balance::{
    balanced, law_call_keeps_balance, law_connect_balances, law_flush_resume_keeps_balance,
    law_flush_start_keeps_balance, law_never_both_stuck, law_reply_keeps_balance,
};
use crate::dc::info::RemoteEndpointInfo;
use crate::dc::laws::{
    in_range, in_step, landed, law_batch_arrives, law_call_keys_stay_small,
    law_request_reaches_handler, law_response_reaches_caller, law_wrap_arrives,
};
use crate::dc::room::{has_reserve, law_reserve_returns_credit};
use crate::dc::state::{lemma_headed, lemma_sent, lemma_span, lemma_wrapped, EndpointState};
use crate::dc::step::{call_id_of, EmitStage, EmitStep};
use crate::error::{CallError, PostOutcome};
use crate::inbound::{Answer, Ask, Mail};
use crate::message::Format;
use crate::ring::{lemma_offset_aligned, lemma_offset_wrap, lemma_pow2_multiple_of_32};

verus! {

/// There is room for a message of `size` bytes, in the ring cycle and in the peer's ring.
pub open spec fn has_room<U>(s: EndpointState<U>, size: int) -> bool {
    s.cycle_room(size) && s.has_space(size)
}

/// No message is open, and the peer has reported all that was sent as read.
pub open spec fn all_reported<U>(s: EndpointState<U>) -> bool {
    &&& s.remote is Some
    &&& s.batch_count == 0
    &&& s.consumer == s.meta_pos
}

/// After the peer has reported all that was sent as read.
pub open spec fn reported<U>(s: EndpointState<U>) -> EndpointState<U> {
    EndpointState { consumer: s.flush_start, ..s }
}

/// A call or a reply is taken if and only if there is room for it.
pub proof fn law_taken_where_there_is_room<U>(
    s: EndpointState<U>,
    data: Seq<u8>,
    user_data: U,
    post: EndpointState<U>,
    r: Result<u32, CallError<U>>,
    call_id: u32,
)
    requires
        s.wf(),
        s.remote is Some,
    ensures
        s.calls(data, user_data, post, r) ==> (r is Ok <==> has_room(
            s,
            Format::Dc.padded(data.len() as int),
        )),
        s.replied(call_id, data).1 is Ok <==> has_room(s, Format::Dc.padded(data.len() as int)),
{
}

/// Where the peer's ring is as large as the send ring or larger, and all is reported as read, a wrap
/// away from the start of the ring cycle has room.
pub proof fn law_wrap_has_room<U>(s: EndpointState<U>)
    requires
        s.wf(),
        all_reported(s),
        s.len() <= s.remote_size(),
        s.offset(s.meta_pos) != 0,
    ensures
        s.wrap_fits(),
{
    lemma_pow2_multiple_of_32(s.len());
    lemma_offset_aligned(s.meta_pos, s.len());
}

/// A message that fits into an empty ring cycle and into an empty ring of the peer, each beside the
/// header of its batch, and into the latter beside the room for one more, finds room where all is
/// reported as read. Or it finds room for a wrap: the next flush posts it, and behind it the message
/// finds room when all is reported as read again.
#[verifier::rlimit(50)]
pub proof fn law_message_finds_room<U>(s: EndpointState<U>, size: int)
    requires
        s.wf(),
        all_reported(s),
        0 <= size,
        32 + size < s.len(),
        64 + size <= s.remote_size(),
        s.meta_pos + s.len() + 32 <= u64::MAX,
    ensures
        s.cycle_room(size) ==> has_room(s, size),
        !s.cycle_room(size) ==> {
            let (t, step) = s.wrap_wanted().emit_start();
            let stage = EmitStage::Wrap { after_batch: false };
            let (u, next) = t.emit_resume(stage, PostOutcome::Posted);
            &&& step == EmitStep::Post { stage, wqe: t.work_request() }
            &&& t == s.wrap_wanted().wrapped()
            &&& next == EmitStep::Done(Ok(true))
            &&& u == EndpointState { wrap_pending: false, ..t.sent() }
            &&& all_reported(reported(u))
            &&& has_room(reported(u), size)
        },
{
    let w = s.wrap_wanted();
    lemma_pow2_multiple_of_32(s.len());
    lemma_offset_aligned(s.meta_pos, s.len());
    lemma_offset_wrap(s.meta_pos, s.len());
    if !s.cycle_room(size) {
        assert(w.wrap_fits());
        lemma_wrapped(w);
        let t = w.wrapped();
        assert(w.emit_start().0 == t);
        assert(t.sent().meta_pos == s.cycle_end());
        assert(t.sent().offset(t.sent().meta_pos) == 0);
    }
}

/// Behind a wrap that the device refused, every message waits for it: none goes into the ring cycle that
/// it ends, and the next flush tries it again.
pub proof fn law_refused_wrap_comes_first<U>(s: EndpointState<U>, size: int)
    requires
        s.wf(),
        s.remote is Some,
        s.batch_count == 0,
        s.wrap_pending,
        s.wrap_fits(),
        s.meta_pos + s.len() <= u64::MAX,
        0 <= size,
    ensures
        ({
            let t = s.wrapped().refused();
            let (u, step) = t.emit_start();
            &&& t.wf()
            &&& !t.cycle_room(size)
            &&& step == EmitStep::Post {
                stage: EmitStage::Wrap { after_batch: false },
                wqe: u.work_request(),
            }
            &&& u.producer == s.wrapped().producer
            &&& u.told == s.unreturned()
        }),
{
    lemma_wrapped(s);
    lemma_offset_wrap(s.meta_pos, s.len());
}

/// After a flush whose work requests the device takes.
pub open spec fn flushed<U>(s: EndpointState<U>) -> EndpointState<U> {
    let (s1, step1) = s.emit_start();
    match step1 {
        EmitStep::Done(r) => s1,
        EmitStep::Post { stage, wqe } => {
            let (s2, step2) = s1.emit_resume(stage, PostOutcome::Posted);
            match step2 {
                EmitStep::Done(r) => s2,
                EmitStep::Post { stage: stage2, wqe: wqe2 } => s2.emit_resume(
                    stage2,
                    PostOutcome::Posted,
                ).0,
            }
        },
    }
}

/// `after` is the peer `r` when it has taken in all that a flush of `s` sends: it reads on behind it, and
/// knows of all that `s` has told it with it. Nothing else changes but for its calls in progress.
pub open spec fn hears<U, V>(
    r: EndpointState<V>,
    s: EndpointState<U>,
    after: EndpointState<V>,
) -> bool {
    let t = flushed(s);
    after == EndpointState {
        recv_producer: r.recv_producer + (t.flush_start - s.flush_start),
        recv_pos: t.flush_start,
        consumer: r.consumer + (t.notified - s.notified),
        pending: after.pending,
        ..r
    }
}

/// What a flush sends is heard. Where the bytes of each work request have landed before the peer takes
/// them in, the first in the receive ring `first`, and the wrap behind a batch in the receive ring
/// `second`, the peer has heard the flush.
#[verifier::rlimit(50)]
pub proof fn law_flush_is_heard<U, V>(
    s: EndpointState<U>,
    r: EndpointState<V>,
    slot: usize,
    first: Seq<u8>,
    second: Seq<u8>,
)
    requires
        s.wf(),
        r.wf(),
        s.remote is Some,
        s.batch_count < u32::MAX,
        s.producer + 2 * s.len() + 64 <= u64::MAX,
        r.recv_producer + 2 * s.len() <= u64::MAX,
        r.recv_pos + 2 * s.len() <= u64::MAX,
        r.consumer + s.unreturned() <= u64::MAX,
        in_step(s, r),
        first.len() == r.local.recv_ring_len,
        second.len() == r.local.recv_ring_len,
        first.len() <= usize::MAX,
    ensures
        ({
            let (s1, step1) = s.emit_start();
            match step1 {
                EmitStep::Done(result) => hears(r, s, r),
                EmitStep::Post { stage, wqe } => landed(s1, first) ==> {
                    let (s2, step2) = s1.emit_resume(stage, PostOutcome::Posted);
                    let r1 = r.received(slot, first);
                    &&& r.can_receive(first)
                    &&& match step2 {
                        EmitStep::Done(result) => hears(r, s, r1),
                        EmitStep::Post { stage: stage2, wqe: wqe2 } => landed(s2, second) ==> {
                            &&& r1.can_receive(second)
                            &&& hears(r, s, r1.received(slot, second))
                        },
                    }
                },
            }
        }),
{
    let (s1, step1) = s.emit_start();
    if step1 is Post && landed(s1, first) {
        lemma_first_heard(s, r, slot, first);
        if s.batch_count > 0 {
            let closed = s1.sent();
            let r1 = r.received(slot, first);
            lemma_span(s);
            lemma_headed(s, s.batch_count as u32);
            lemma_sent(s1);
            lemma_received(r, slot, first);
            if closed.wrap_pending && closed.wrap_fits() && landed(closed.wrapped(), second) {
                lemma_wrap_heard(closed, r1, slot, second);
            }
        }
    }
}

/// `after` is `r` when it has taken in the work request that `s` has put together.
spec fn takes_in<U, V>(r: EndpointState<V>, s: EndpointState<U>, after: EndpointState<V>) -> bool {
    after == EndpointState {
        recv_producer: r.recv_producer + (s.producer - s.flush_start),
        recv_pos: s.producer,
        consumer: r.consumer + s.told,
        pending: after.pending,
        ..r
    }
}

/// The first work request of a flush is taken in as it was sent.
#[verifier::rlimit(50)]
proof fn lemma_first_heard<U, V>(
    s: EndpointState<U>,
    r: EndpointState<V>,
    slot: usize,
    recv_ring: Seq<u8>,
)
    requires
        s.wf(),
        r.wf(),
        s.remote is Some,
        s.batch_count < u32::MAX,
        s.producer + 2 * s.len() + 64 <= u64::MAX,
        r.recv_producer + 2 * s.len() <= u64::MAX,
        r.consumer + s.unreturned() <= u64::MAX,
        in_step(s, r),
        recv_ring.len() == r.local.recv_ring_len,
        recv_ring.len() <= usize::MAX,
        s.emit_start().1 is Post,
        landed(s.emit_start().0, recv_ring),
    ensures
        r.can_receive(recv_ring),
        takes_in(r, s.emit_start().0, r.received(slot, recv_ring)),
{
    lemma_span(s);
    if s.batch_count == 0 && s.wrap_pending && s.wrap_fits() {
        lemma_wrap_heard(s, r, slot, recv_ring);
    } else {
        assert(s.emit_start().0 == s.filled());
        law_batch_arrives(s, r, slot, recv_ring);
    }
}

/// A wrap is taken in as it was sent.
proof fn lemma_wrap_heard<U, V>(
    s: EndpointState<U>,
    r: EndpointState<V>,
    slot: usize,
    recv_ring: Seq<u8>,
)
    requires
        s.wf(),
        r.wf(),
        s.remote is Some,
        s.batch_count == 0,
        s.wrap_pending,
        s.meta_pos + s.len() + 32 <= u64::MAX,
        r.recv_producer + s.len() <= u64::MAX,
        r.consumer + s.unreturned() <= u64::MAX,
        in_step(s, r),
        recv_ring.len() == r.local.recv_ring_len,
        landed(s.wrapped(), recv_ring),
    ensures
        r.can_receive(recv_ring),
        takes_in(r, s.wrapped(), r.received(slot, recv_ring)),
{
    law_wrap_arrives(s, r, slot, recv_ring);
}

/// Taking in a batch leaves an endpoint well.
proof fn lemma_received<V>(r: EndpointState<V>, slot: usize, recv_ring: Seq<u8>)
    requires
        r.wf(),
        r.can_receive(recv_ring),
        r.received(slot, recv_ring).recv_pos <= u64::MAX,
        r.recv_pos <= r.received(slot, recv_ring).recv_pos,
    ensures
        r.received(slot, recv_ring).wf(),
{
}

/// All that two connected endpoints have sent is read, and all that they have told has come in.
pub open spec fn quiet<U, V>(a: EndpointState<U>, b: EndpointState<V>) -> bool {
    &&& a.wf()
    &&& b.wf()
    &&& balanced(a, b)
    &&& a.recv_pos == b.flush_start
    &&& b.recv_pos == a.flush_start
    &&& a.consumer == b.notified
    &&& b.consumer == a.notified
}

/// Two endpoints that have just connected are quiet.
pub proof fn law_connect_is_quiet<U, V>(
    a: EndpointState<U>,
    b: EndpointState<V>,
    to_b: RemoteEndpointInfo,
    to_a: RemoteEndpointInfo,
)
    requires
        a.wf(),
        b.wf(),
        a.remote is None,
        b.remote is None,
        a.recv_pos == 0,
        b.recv_pos == 0,
        to_b.ring().valid(),
        to_a.ring().valid(),
        32 <= to_b.ring().size,
        32 <= to_a.ring().size,
    ensures
        quiet(a.linked(to_b), b.linked(to_a)),
{
    lemma_pow2_multiple_of_32(a.len());
    lemma_pow2_multiple_of_32(b.len());
    lemma_offset_aligned(0, a.len());
    lemma_offset_aligned(0, b.len());
    law_connect_balances(a, b, to_b, to_a);
}

/// Two sides stay quiet when one of them flushes and the other one hears it, and when a call or a reply is
/// taken or refused.
#[verifier::rlimit(50)]
pub proof fn law_quiet_is_kept<U, V>(a: EndpointState<U>, b: EndpointState<V>, after: EndpointState<V>)
    requires
        quiet(a, b),
        a.producer + 2 * a.len() + 64 <= u64::MAX,
    ensures
        hears(b, a, after) && after.wf() ==> quiet(flushed(a), after),
        forall|data: Seq<u8>, user_data: U, post: EndpointState<U>, r: Result<u32, CallError<U>>|
            #[trigger] a.calls(data, user_data, post, r) && post.wf() ==> quiet(post, b),
        forall|call_id: u32, data: Seq<u8>|
            (#[trigger] a.replied(call_id, data)).0.wf() ==> quiet(a.replied(call_id, data).0, b),
{
    assert forall|data: Seq<u8>, user_data: U, post: EndpointState<U>, r: Result<
        u32,
        CallError<U>,
    >| #[trigger] a.calls(data, user_data, post, r) && post.wf() implies quiet(post, b) by {
        law_call_keeps_balance(a, b, data, user_data, post, r);
    }
    assert forall|call_id: u32, data: Seq<u8>|
        (#[trigger] a.replied(call_id, data)).0.wf() implies quiet(
        a.replied(call_id, data).0,
        b,
    ) by {
        law_reply_keeps_balance(a, b, call_id, data);
    }
    lemma_flushed(a);
    lemma_flush_keeps_balance(a, b);
}

/// A flush keeps an endpoint well and keeps the balance.
#[verifier::rlimit(50)]
proof fn lemma_flush_keeps_balance<U, V>(a: EndpointState<U>, b: EndpointState<V>)
    requires
        a.wf(),
        balanced(a, b),
        a.producer + 2 * a.len() + 64 <= u64::MAX,
    ensures
        balanced(flushed(a), b),
        flushed(a).wf(),
{
    let (s1, step1) = a.emit_start();
    lemma_span(a);
    law_flush_start_keeps_balance(a, b);
    if let EmitStep::Post { stage, wqe } = step1 {
        if a.batch_count == 0 && a.wrap_pending && a.wrap_fits() {
            lemma_wrapped(a);
        } else {
            lemma_headed(a, a.batch_count as u32);
            assert(s1 == a.filled());
        }
        law_flush_resume_keeps_balance(s1, b, stage, PostOutcome::Posted);
        lemma_sent(s1);
        let (s2, step2) = s1.emit_resume(stage, PostOutcome::Posted);
        if let EmitStep::Post { stage: stage2, wqe: wqe2 } = step2 {
            lemma_wrapped(s1.sent());
            law_flush_resume_keeps_balance(s2, b, stage2, PostOutcome::Posted);
            lemma_sent(s2);
        }
    }
}

/// A flush leaves no message unsent. What it sends tells all that was read, and where there is room for a
/// batch header, it tells it in any case.
#[verifier::rlimit(50)]
proof fn lemma_flushed<U>(s: EndpointState<U>)
    requires
        s.wf(),
        s.remote is Some,
    ensures
        ({
            let t = flushed(s);
            &&& t.batch_count == 0
            &&& t.remote == s.remote
            &&& t.len() == s.len()
            &&& t.consumer == s.consumer
            &&& t.recv_pos == s.recv_pos
            &&& t.notified == s.recv_pos || t == s
            &&& has_reserve(s) ==> t.notified == s.recv_pos
            &&& t.wrap_pending ==> s.wrap_pending
        }),
{
    if has_reserve(s) && s.unreturned() > 0 {
        law_reserve_returns_credit(s);
    }
}

/// A message that was refused is taken in the end. Let two sides be quiet, and let each flush in its turn
/// and the other side hear it: first `a0`, then `b1`. When `a1` has heard that, it has room for the
/// message, or for the wrap behind which it goes. In that case let `a`, which asks for the wrap, flush
/// again, and `b` too, when it has heard that. When `a` has heard it, it has room for the message. So two
/// rounds are enough, whatever stood in the way: full rings on both sides, an open batch, or a wrap that
/// waits.
#[verifier::rlimit(50)]
pub proof fn law_refused_message_is_taken<U, V>(
    size: int,
    a0: EndpointState<U>,
    b0: EndpointState<V>,
    b1: EndpointState<V>,
    a1: EndpointState<U>,
    b2: EndpointState<V>,
    a2: EndpointState<U>,
)
    requires
        quiet(a0, b0),
        0 <= size,
        32 + size < a0.len(),
        64 + size <= a0.remote_size(),
        hears(b0, a0, b1),
        b1.wf(),
        hears(flushed(a0), b1, a1),
        a1.wf(),
        a1.meta_pos + a1.len() + 32 <= u64::MAX,
    ensures
        a1.cycle_room(size) ==> has_room(a1, size),
        !a1.cycle_room(size) && hears(flushed(b1), a1.wrap_wanted(), b2) && b2.wf() && hears(
            flushed(a1.wrap_wanted()),
            b2,
            a2,
        ) ==> has_room(a2, size),
{
    let a = flushed(a0);
    let b = flushed(b1);
    lemma_flushed(a0);
    law_never_both_stuck(a0, b0);
    assert(has_reserve(b1));
    lemma_flushed(b1);
    assert(a1.consumer == a1.flush_start);
    assert(all_reported(a1));
    lemma_room_or_wrap(a1, size);
    if !a1.cycle_room(size) {
        let w = a1.wrap_wanted();
        law_message_finds_room(a1, size);
        lemma_flushed(w);
        assert(flushed(w) == EndpointState { wrap_pending: false, ..w.wrapped().sent() });
        if hears(b, w, b2) && b2.wf() && hears(flushed(w), b2, a2) {
            assert(b2.batch_count == 0);
            assert(b2.consumer == b2.flush_start);
            assert(has_reserve(b2));
            lemma_flushed(b2);
            assert(a2 == EndpointState {
                recv_producer: a2.recv_producer,
                recv_pos: a2.recv_pos,
                pending: a2.pending,
                ..reported(flushed(w))
            });
        }
    }
}

/// A call is answered. Let its batch have landed at the peer `b`, let the handler there reply to what it
/// finds last, and let the batch of the reply have landed at the caller, where the call is in progress up
/// to this message. The handler has found the request, the caller finds the response last, with the user
/// data of the call, and the call is over.
pub proof fn law_call_is_answered<U, V>(
    a: EndpointState<U>,
    data: Seq<u8>,
    user_data: U,
    key: usize,
    a1: EndpointState<U>,
    result: Result<u32, CallError<U>>,
    b: EndpointState<V>,
    slot_at_b: usize,
    ring_at_b: Seq<u8>,
    payload: Seq<u8>,
    a2: EndpointState<U>,
    slot_at_a: usize,
    ring_at_a: Seq<u8>,
)
    requires
        a.wf(),
        a.remote is Some,
        a.room_to_run(data.len() as int),
        a.batch_count < u32::MAX - 1,
        data.len() <= u32::MAX,
        a.cycle_room(Format::Dc.padded(data.len() as int)),
        a.accepts(data, user_data, key, a1, result),
        a.slots <= 0x8000_0000,
        a.pending.len() < 0x8000_0000,
        b.wf(),
        in_step(a1, b),
        in_range(a1, b),
        ring_at_b.len() == b.local.recv_ring_len,
        ring_at_b.len() <= usize::MAX,
        landed(a1.filled(), ring_at_b),
        ({
            let asks = b.inbox(slot_at_b, ring_at_b, Seq::empty()).read(ring_at_b).asks;
            let b1 = b.received(slot_at_b, ring_at_b);
            let b2 = b1.replied(asks.last().call_id, payload).0;
            &&& b1.wf()
            &&& b1.room_to_run(payload.len() as int)
            &&& b1.batch_count < u32::MAX - 1
            &&& payload.len() <= u32::MAX
            &&& b1.replied(asks.last().call_id, payload).1 is Ok
            &&& in_step(b2, a2)
            &&& in_range(b2, a2)
            &&& landed(b2.filled(), ring_at_a)
            &&& (Mail { pending: a2.pending, answers: Seq::empty(), asks: Seq::empty() }).open_all(
                b1.batch(),
            ).pending.contains_key(key)
        }),
        a2.wf(),
        a2.pending[key] == user_data,
        ring_at_a.len() == a2.local.recv_ring_len,
        ring_at_a.len() <= usize::MAX,
    ensures
        ({
            let asks = b.inbox(slot_at_b, ring_at_b, Seq::empty()).read(ring_at_b).asks;
            let mail = a2.inbox(slot_at_a, ring_at_a, Seq::empty()).read(ring_at_a);
            &&& b.can_receive(ring_at_b)
            &&& 0 < asks.len()
            &&& asks.last() == (Ask { call_id: call_id_of(key), payload: data, allowance: 0 })
            &&& a2.can_receive(ring_at_a)
            &&& 0 < mail.answers.len()
            &&& mail.answers.last() == (Answer { user_data, payload })
            &&& !a2.received(slot_at_a, ring_at_a).pending.contains_key(key)
        }),
{
    law_request_reaches_handler(a, data, user_data, key, a1, result, b, slot_at_b, ring_at_b);
    law_call_keys_stay_small(a, data, user_data, key, a1, result, 0x8000_0000);
    law_response_reaches_caller(
        b.received(slot_at_b, ring_at_b),
        key,
        payload,
        a2,
        slot_at_a,
        ring_at_a,
    );
}

/// Where all is reported as read, a message finds room for itself or for a wrap.
proof fn lemma_room_or_wrap<U>(s: EndpointState<U>, size: int)
    requires
        s.wf(),
        all_reported(s),
        0 <= size,
        64 + size <= s.remote_size(),
    ensures
        s.cycle_room(size) ==> has_room(s, size),
        !s.cycle_room(size) ==> s.wrap_wanted().wrap_fits(),
{
    lemma_pow2_multiple_of_32(s.len());
    lemma_offset_aligned(s.meta_pos, s.len());
    lemma_offset_wrap(s.meta_pos, s.len());
}

} // verus!
