//! What holds of connections and of a context as a whole.

use vstd::prelude::*;

use crate::bytes::{le32_at, le64_at};
use crate::dc::shared::{
    lemma_same_endpoints, lemma_with_endpoint, ContextState, EndpointsStep,
};
use crate::dc::state::{lemma_headed, lemma_span, lemma_wrapped, lemma_wrote, EndpointState};
use crate::dc::step::{call_id_of, queued, refusal, EmitStage, EmitStep};
use crate::encoding::{
    law_batch_header_round_trip, lemma_header_copied, request_of, respond_to, response_id,
    WRAP_MESSAGE_COUNT,
};
use crate::error::{CallError, Error, PostOutcome};
use crate::inbound::{
    law_batch_is_read, lemma_last_ask, lemma_open_all_keeps, Answer, Ask, Inbox, Mail,
};
use crate::message::{
    lemma_messages_end_grows, lemma_messages_fit, lemma_same_bytes_same_messages, Format, Message,
};
use crate::ring::{
    is_pow2, lemma_cycle_inside_cycle, lemma_mask_is_mod, lemma_offset_step, lemma_offset_wrap,
};

verus! {

/// The bytes that `s` hands to the device lie in the receive ring of its peer.
pub open spec fn landed<U>(s: EndpointState<U>, recv_ring: Seq<u8>) -> bool {
    let at = s.offset(s.flush_start);
    let to = s.flush_start % recv_ring.len() as int;
    let delta = s.producer - s.flush_start;
    recv_ring.subrange(to, to + delta) == s.ring.subrange(at, at + delta)
}

/// The peer `r` reads on where `s` goes on to send, in a ring that is as large as the send ring or
/// larger.
pub open spec fn in_step<U, V>(s: EndpointState<U>, r: EndpointState<V>) -> bool {
    r.recv_pos == s.flush_start && s.len() <= r.local.recv_ring_len
}

/// The numbers in the next batch of `s` leave the positions of `r` in range.
pub open spec fn in_range<U, V>(s: EndpointState<U>, r: EndpointState<V>) -> bool {
    &&& r.recv_producer + (s.producer - s.flush_start) <= u64::MAX
    &&& r.consumer + s.unreturned() <= u64::MAX
}

/// The header of a closed batch reads back from where it landed.
proof fn lemma_landed_header<U>(s: EndpointState<U>, recv_ring: Seq<u8>, message_count: u32)
    requires
        s.wf(),
        s.remote is Some,
        is_pow2(recv_ring.len() as int),
        s.len() <= recv_ring.len(),
        landed(s.headed(message_count), recv_ring),
    ensures
        ({
            let to = s.flush_start % recv_ring.len() as int;
            &&& 0 <= to
            &&& to + (s.producer - s.flush_start) <= recv_ring.len()
            &&& 32 <= s.producer - s.flush_start
            &&& le64_at(recv_ring, to) == s.producer - s.flush_start
            &&& le64_at(recv_ring, to + 8) == s.unreturned()
            &&& le32_at(recv_ring, to + 16) == message_count
        }),
{
    let at = s.offset(s.flush_start);
    let size = recv_ring.len() as int;
    let to = s.flush_start % size;
    let delta = s.producer - s.flush_start;
    lemma_span(s);
    lemma_cycle_inside_cycle(s.flush_start, delta, s.len(), size);
    vstd::arithmetic::div_mod::lemma_mod_bound(s.flush_start, size);
    law_batch_header_round_trip(
        s.ring,
        at,
        delta as u64,
        s.unreturned() as u64,
        message_count,
    );
    lemma_header_copied(s.headed(message_count).ring, at, recv_ring, to, delta);
}

/// The messages of a closed batch read back from where they landed.
#[verifier::rlimit(50)]
proof fn lemma_landed_messages<U>(s: EndpointState<U>, recv_ring: Seq<u8>)
    requires
        s.wf(),
        s.remote is Some,
        s.batch_count == 0 ==> s.producer == s.meta_pos + 32,
        is_pow2(recv_ring.len() as int),
        s.len() <= recv_ring.len(),
        landed(s.filled(), recv_ring),
    ensures
        ({
            let n = s.batch_count as nat;
            let pos = s.meta_pos + 32;
            &&& Format::Dc.messages(recv_ring, pos, n) == s.batch()
            &&& Format::Dc.messages_end(recv_ring, pos, n) == s.producer
            &&& Format::Dc.messages_fit(recv_ring, pos, n)
        }),
{
    let t = s.filled();
    let n = s.batch_count as nat;
    let pos = s.meta_pos + 32;
    let at = s.offset(s.flush_start);
    let size = recv_ring.len() as int;
    let to = s.flush_start % size;
    let delta = s.producer - s.flush_start;
    lemma_span(s);
    lemma_headed(s, s.batch_count as u32);
    lemma_cycle_inside_cycle(s.flush_start, delta, s.len(), size);
    vstd::arithmetic::div_mod::lemma_mod_bound(s.flush_start, size);
    lemma_messages_end_grows(Format::Dc, t.ring, pos, 0, n);
    if n > 0 {
        lemma_offset_step(s.meta_pos, s.len(), 32);
        lemma_offset_step(s.meta_pos, size, 32);
        let a = s.offset(pos);
        let b = pos % size;
        let span = s.producer - pos;
        let sent = t.ring.subrange(at, at + delta);
        let seen = recv_ring.subrange(to, to + delta);
        assert(t.ring.subrange(a, a + span) =~= sent.subrange(32, delta));
        assert(recv_ring.subrange(b, b + span) =~= seen.subrange(32, delta));
        lemma_same_bytes_same_messages(Format::Dc, t.ring, pos, recv_ring, pos, n);
        lemma_messages_fit(Format::Dc, recv_ring, pos, n);
    }
}

/// A batch arrives as it was sent. Where the bytes of a closed batch have landed, the peer finds
/// its messages, one for one, with their payloads, and the credit that goes with them, and both
/// sides agree on where the next batch starts. This holds of a batch without messages too.
#[verifier::rlimit(50)]
pub proof fn law_batch_arrives<U, V>(
    s: EndpointState<U>,
    r: EndpointState<V>,
    slot: usize,
    recv_ring: Seq<u8>,
)
    requires
        s.wf(),
        s.remote is Some,
        s.batch_count < u32::MAX,
        s.batch_count == 0 ==> s.producer == s.meta_pos + 32,
        r.wf(),
        in_step(s, r),
        in_range(s, r),
        recv_ring.len() == r.local.recv_ring_len,
        recv_ring.len() <= usize::MAX,
        landed(s.filled(), recv_ring),
    ensures
        ({
            let inbox = r.inbox(slot, recv_ring, Seq::empty());
            let after = r.received(slot, recv_ring);
            &&& r.can_receive(recv_ring)
            &&& inbox.read(recv_ring) == (Mail {
                pending: r.pending,
                answers: Seq::empty(),
                asks: Seq::empty(),
            }).open_all(s.batch())
            &&& in_step(s.filled().sent(), after)
            &&& after.recv_producer == r.recv_producer + (s.producer - s.flush_start)
            &&& r.recv_producer == r.recv_pos ==> after.recv_producer == after.recv_pos
            &&& after.consumer == r.consumer + s.unreturned()
            &&& after.pending == inbox.pending
        }),
{
    let n = s.batch_count as nat;
    lemma_landed_header(s, recv_ring, s.batch_count as u32);
    lemma_landed_messages(s, recv_ring);
    let arrival = r.arrival(recv_ring);
    assert forall|i: nat| i < n implies #[trigger] arrival.whole(i) by {
        assert(Format::Dc.message_fits(
            recv_ring,
            Format::Dc.messages_end(recv_ring, s.meta_pos + 32, i),
        ));
    }
    assert forall|i: nat| i < n implies #[trigger] arrival.sound(r.pending, i) by {
        assert(arrival.whole(i));
    }
    assert(arrival.valid(r.pending, n));
    let before = Inbox { pending: r.pending, responses: Seq::empty(), requests: Seq::empty() };
    law_batch_is_read(arrival, slot, r.local.endpoint_id, before, n, n);
    assert(before.read(recv_ring) =~= Mail {
        pending: r.pending,
        answers: Seq::empty(),
        asks: Seq::empty(),
    });
}

/// A wrap takes both sides to the start of the next ring cycle of the send ring, also where its
/// header ends at the end of the ring cycle.
#[verifier::rlimit(50)]
pub proof fn law_wrap_arrives<U, V>(
    s: EndpointState<U>,
    r: EndpointState<V>,
    slot: usize,
    recv_ring: Seq<u8>,
)
    requires
        s.wf(),
        s.remote is Some,
        s.batch_count == 0,
        s.wrap_pending,
        s.meta_pos + s.len() + 32 <= u64::MAX,
        r.wf(),
        in_step(s, r),
        r.recv_producer + s.len() <= u64::MAX,
        r.consumer + s.unreturned() <= u64::MAX,
        recv_ring.len() == r.local.recv_ring_len,
        landed(s.wrapped(), recv_ring),
    ensures
        ({
            let t = s.wrapped();
            let after = r.received(slot, recv_ring);
            &&& r.can_receive(recv_ring)
            &&& in_step(t.sent(), after)
            &&& t.offset(t.sent().flush_start) == 0
            &&& after.recv_producer == r.recv_producer + (t.producer - t.flush_start)
            &&& r.recv_producer == r.recv_pos ==> after.recv_producer == after.recv_pos
            &&& after.consumer == r.consumer + s.unreturned()
            &&& after.pending == r.pending
        }),
{
    let t = s.wrapped();
    let size = recv_ring.len() as int;
    let at = s.offset(s.meta_pos);
    let to = s.meta_pos % size;
    let delta = t.producer - t.flush_start;
    lemma_wrapped(s);
    lemma_offset_wrap(s.meta_pos, s.len());
    lemma_cycle_inside_cycle(s.meta_pos, delta, s.len(), size);
    vstd::arithmetic::div_mod::lemma_mod_bound(s.meta_pos, size);
    law_batch_header_round_trip(
        s.ring,
        at,
        delta as u64,
        s.unreturned() as u64,
        WRAP_MESSAGE_COUNT,
    );
    lemma_header_copied(t.ring, at, recv_ring, to, delta);
}

/// A response ends the call that it answers, and no other: the caller gets its user data back with
/// the response.
pub proof fn law_response_ends_call<U>(mail: Mail<U>, key: usize, payload: Seq<u8>)
    requires
        mail.pending.contains_key(key),
        key < 0x8000_0000,
    ensures
        mail.open(Message { call_id: respond_to(call_id_of(key)), piggyback: 0, payload }) == (Mail {
            pending: mail.pending.remove(key),
            answers: mail.answers.push(Answer { user_data: mail.pending[key], payload }),
            asks: mail.asks,
        }),
{
    assert(request_of(respond_to(call_id_of(key))) == key);
}

/// Keys stay small: where no more than `bound` calls are in progress at once, every key is below `bound`.
pub proof fn law_call_keys_stay_small<U>(
    pre: EndpointState<U>,
    data: Seq<u8>,
    user_data: U,
    key: usize,
    post: EndpointState<U>,
    r: Result<u32, CallError<U>>,
    bound: nat,
)
    requires
        pre.accepts(data, user_data, key, post, r),
        pre.slots <= bound,
        pre.pending.len() < bound,
    ensures
        key < bound,
        post.slots <= bound,
{
}

/// An accepted call is the last message of the open batch, under a call identifier that no call in
/// progress has.
pub proof fn law_call_is_sent<U>(
    pre: EndpointState<U>,
    data: Seq<u8>,
    user_data: U,
    key: usize,
    post: EndpointState<U>,
    r: Result<u32, CallError<U>>,
)
    requires
        pre.wf(),
        pre.remote is Some,
        pre.room_to_run(data.len() as int),
        data.len() <= u32::MAX,
        pre.cycle_room(Format::Dc.padded(data.len() as int)),
        pre.accepts(data, user_data, key, post, r),
    ensures
        post.batch() == pre.batch().push(
            Message { call_id: call_id_of(key), piggyback: 0, payload: data },
        ),
        post.pending == pre.pending.insert(key, user_data),
        forall|k: usize| #[trigger]
            pre.pending.contains_key(k) ==> k != key && post.pending[k] == pre.pending[k],
{
    lemma_wrote(pre, call_id_of(key), data);
}

/// A reply that is taken is the last message of the open batch, under the identifier of the response.
pub proof fn law_reply_is_sent<U>(pre: EndpointState<U>, call_id: u32, data: Seq<u8>)
    requires
        pre.wf(),
        pre.room_to_run(data.len() as int),
        data.len() <= u32::MAX,
        pre.replied(call_id, data).1 is Ok,
    ensures
        pre.replied(call_id, data).0.batch() == pre.batch().push(
            Message { call_id: respond_to(call_id), piggyback: 0, payload: data },
        ),
{
    lemma_wrote(pre, respond_to(call_id), data);
}

/// A request reaches its handler. Where the batch of an accepted call has landed at the peer, the
/// handler there finds the request last, with the call identifier and its bytes.
#[verifier::rlimit(50)]
pub proof fn law_request_reaches_handler<U, V>(
    pre: EndpointState<U>,
    data: Seq<u8>,
    user_data: U,
    key: usize,
    post: EndpointState<U>,
    result: Result<u32, CallError<U>>,
    r: EndpointState<V>,
    slot: usize,
    recv_ring: Seq<u8>,
)
    requires
        pre.wf(),
        pre.remote is Some,
        pre.room_to_run(data.len() as int),
        pre.batch_count < u32::MAX - 1,
        data.len() <= u32::MAX,
        pre.cycle_room(Format::Dc.padded(data.len() as int)),
        pre.accepts(data, user_data, key, post, result),
        pre.slots <= 0x8000_0000,
        pre.pending.len() < 0x8000_0000,
        r.wf(),
        in_step(post, r),
        in_range(post, r),
        recv_ring.len() == r.local.recv_ring_len,
        recv_ring.len() <= usize::MAX,
        landed(post.filled(), recv_ring),
    ensures
        ({
            let asks = r.inbox(slot, recv_ring, Seq::empty()).read(recv_ring).asks;
            &&& r.can_receive(recv_ring)
            &&& 0 < asks.len()
            &&& asks.last() == (Ask { call_id: call_id_of(key), payload: data, allowance: 0 })
        }),
{
    let m = lemma_accepted_message(pre, data, user_data, key, post, result);
    lemma_last_message_asks(post, r, slot, recv_ring, pre.batch(), m);
}

/// Where the last message of a batch that has landed is a request, a handler finds it last.
#[verifier::rlimit(50)]
proof fn lemma_last_message_asks<U, V>(
    s: EndpointState<U>,
    r: EndpointState<V>,
    slot: usize,
    recv_ring: Seq<u8>,
    batch: Seq<Message>,
    m: Message,
)
    requires
        s.wf(),
        s.remote is Some,
        0 < s.batch_count < u32::MAX,
        s.batch() == batch.push(m),
        !response_id(m.call_id as int),
        r.wf(),
        in_step(s, r),
        in_range(s, r),
        recv_ring.len() == r.local.recv_ring_len,
        recv_ring.len() <= usize::MAX,
        landed(s.filled(), recv_ring),
    ensures
        ({
            let asks = r.inbox(slot, recv_ring, Seq::empty()).read(recv_ring).asks;
            &&& r.can_receive(recv_ring)
            &&& 0 < asks.len()
            &&& asks.last() == (Ask {
                call_id: m.call_id,
                payload: m.payload,
                allowance: m.piggyback * 32,
            })
        }),
{
    let start = Mail { pending: r.pending, answers: Seq::empty(), asks: Seq::empty() };
    law_batch_arrives(s, r, slot, recv_ring);
    lemma_last_ask(start, batch, m);
}

/// A small key is the identifier of a request.
proof fn lemma_key_is_request(key: usize)
    requires
        key < 0x8000_0000,
    ensures
        call_id_of(key) == key,
        !response_id(call_id_of(key) as int),
{
}

/// An accepted call leaves the endpoint well, with the request as the last message of the open batch.
#[verifier::spinoff_prover]
#[verifier::rlimit(50)]
proof fn lemma_accepted_message<U>(
    pre: EndpointState<U>,
    data: Seq<u8>,
    user_data: U,
    key: usize,
    post: EndpointState<U>,
    r: Result<u32, CallError<U>>,
) -> (m: Message)
    requires
        pre.wf(),
        pre.remote is Some,
        pre.room_to_run(data.len() as int),
        data.len() <= u32::MAX,
        pre.cycle_room(Format::Dc.padded(data.len() as int)),
        pre.accepts(data, user_data, key, post, r),
        pre.slots <= 0x8000_0000,
        pre.pending.len() < 0x8000_0000,
    ensures
        post.wf(),
        post.remote is Some,
        post.batch_count == pre.batch_count + 1,
        post.batch() == pre.batch().push(m),
        m == (Message { call_id: call_id_of(key), piggyback: 0, payload: data }),
        !response_id(m.call_id as int),
{
    law_call_keys_stay_small(pre, data, user_data, key, post, r, 0x8000_0000);
    lemma_key_is_request(key);
    let wrote = pre.wrote(call_id_of(key), data);
    lemma_wrote(pre, call_id_of(key), data);
    assert(post.ring == wrote.ring && post.meta_pos == wrote.meta_pos && post.batch_count
        == wrote.batch_count);
    assert(post.batch() == wrote.batch());
    Message { call_id: call_id_of(key), piggyback: 0, payload: data }
}

/// A response reaches its caller. Where the batch of a reply has landed at the peer, and the call is
/// in progress there up to this message, the caller finds the response last, with the user data of
/// the call, and the call is over.
#[verifier::rlimit(50)]
pub proof fn law_response_reaches_caller<U, V>(
    pre: EndpointState<U>,
    key: usize,
    data: Seq<u8>,
    r: EndpointState<V>,
    slot: usize,
    recv_ring: Seq<u8>,
)
    requires
        pre.wf(),
        pre.room_to_run(data.len() as int),
        pre.batch_count < u32::MAX - 1,
        data.len() <= u32::MAX,
        key < 0x8000_0000,
        pre.replied(call_id_of(key), data).1 is Ok,
        r.wf(),
        in_step(pre.replied(call_id_of(key), data).0, r),
        in_range(pre.replied(call_id_of(key), data).0, r),
        recv_ring.len() == r.local.recv_ring_len,
        recv_ring.len() <= usize::MAX,
        landed(pre.replied(call_id_of(key), data).0.filled(), recv_ring),
        (Mail { pending: r.pending, answers: Seq::empty(), asks: Seq::empty() }).open_all(
            pre.batch(),
        ).pending.contains_key(key),
    ensures
        ({
            let mail = r.inbox(slot, recv_ring, Seq::empty()).read(recv_ring);
            &&& r.can_receive(recv_ring)
            &&& 0 < mail.answers.len()
            &&& mail.answers.last() == (Answer { user_data: r.pending[key], payload: data })
            &&& !r.received(slot, recv_ring).pending.contains_key(key)
        }),
{
    let post = pre.replied(call_id_of(key), data).0;
    let start = Mail { pending: r.pending, answers: Seq::empty(), asks: Seq::empty() };
    law_reply_is_sent(pre, call_id_of(key), data);
    lemma_wrote(pre, respond_to(call_id_of(key)), data);
    law_batch_arrives(post, r, slot, recv_ring);
    assert(post.batch().drop_last() =~= pre.batch());
    lemma_open_all_keeps(start, pre.batch(), key);
    law_response_ends_call(start.open_all(pre.batch()), key, data);
}

/// Behind a wrap there is room in the ring cycle for every message that leaves room for the header of
/// its batch and a byte more.
pub proof fn law_wrap_makes_room<U>(s: EndpointState<U>, size: int)
    requires
        s.wf(),
        s.remote is Some,
        s.batch_count == 0,
        s.wrap_pending,
        s.meta_pos + s.len() + 32 <= u64::MAX,
    ensures
        s.wrapped().sent().cycle_room(size) <==> 32 + size < s.len(),
{
    lemma_wrapped(s);
    lemma_offset_wrap(s.meta_pos, s.len());
}

/// A flush tells the peer of everything that was read: the header of the batch that it sends reports
/// it, and where there is no other batch to send there is one for the report alone. When the device has
/// the batch, nothing is left to tell; where it refuses the batch, all of it is. A flush ends without a
/// batch only where there is nothing to tell or the peer's ring has no room.
pub proof fn law_flush_returns_credit<U>(s: EndpointState<U>)
    requires
        s.wf(),
        s.remote is Some,
    ensures
        ({
            let (t, step) = s.emit_start();
            match step {
                EmitStep::Post { stage, wqe } => {
                    &&& t.told == s.unreturned()
                    &&& t.sent().unreturned() == 0
                    &&& t.refused().unreturned() == s.unreturned()
                },
                EmitStep::Done(r) => {
                    &&& t.unreturned() == s.unreturned()
                    &&& s.batch_count == 0
                    &&& s.unreturned() == 0 || !t.batch_fits()
                },
            }
        }),
{
}

/// A work request that the device refuses costs nothing: the open batch stays, the peer counts as told
/// no more than before, and the next try tells it the same. A refused wrap stays at its place, and the
/// next try takes the same bytes.
pub proof fn law_refusal_loses_nothing<U>(s: EndpointState<U>, message_count: u32)
    requires
        s.wf(),
        s.remote is Some,
        s.batch_count == 0 ==> s.producer == s.meta_pos + 32,
    ensures
        ({
            let t = s.headed(message_count).refused();
            &&& t.notified == s.notified
            &&& t.producer == s.producer && t.meta_pos == s.meta_pos
            &&& t.flush_start == s.flush_start && t.batch_count == s.batch_count
            &&& t.batch() == s.batch()
            &&& t.wrap_pending == s.wrap_pending
            &&& t.headed(message_count).told == s.unreturned()
            &&& t.headed(message_count).sent().unreturned() == 0
        }),
        s.batch_count == 0 ==> {
            let t = s.wrapped().refused();
            &&& t.notified == s.notified
            &&& t.meta_pos == s.meta_pos
            &&& t.flush_start == s.flush_start && t.batch_count == s.batch_count
            &&& t.wrap_pending == s.wrap_pending
            &&& t.wrap_fits() == s.wrap_fits()
            &&& t.wrapped().told == s.wrapped().told
            &&& t.wrapped().producer == s.wrapped().producer
        },
{
    lemma_headed(s, message_count);
}

/// A flush whose work requests the device takes sends the open batch. It leaves a wrap to send only
/// where the peer's ring has no room for it.
#[verifier::rlimit(50)]
pub proof fn law_flush_sends_all<U>(s: EndpointState<U>)
    requires
        s.wf(),
        s.remote is Some,
    ensures
        ({
            let (s1, step1) = s.emit_start();
            match step1 {
                EmitStep::Done(r) => s1 == s && nothing_left(s),
                EmitStep::Post { stage, wqe } => {
                    let (s2, step2) = s1.emit_resume(stage, PostOutcome::Posted);
                    match step2 {
                        EmitStep::Done(r) => nothing_left(s2),
                        EmitStep::Post { stage: stage2, wqe: wqe2 } => {
                            let (s3, step3) = s2.emit_resume(stage2, PostOutcome::Posted);
                            step3 is Done && nothing_left(s3)
                        },
                    }
                },
            }
        }),
{
    let s1 = s.emit_start().0;
    lemma_tail_left(s, false);
    if s.batch_count > 0 {
        lemma_headed(s, s.batch_count as u32);
        lemma_tail_left(s1.sent(), true);
    }
}

/// No message waits to be sent, and a wrap only where it has no room.
pub open spec fn nothing_left<U>(s: EndpointState<U>) -> bool {
    &&& s.batch_count == 0
    &&& s.wrap_pending ==> !s.wrap_fits()
}

/// The stretch behind the open batch leaves no wrap that has room.
#[verifier::rlimit(50)]
proof fn lemma_tail_left<U>(s: EndpointState<U>, emitted: bool)
    requires
        s.remote is Some,
        0 < s.len(),
        0 <= s.meta_pos,
        s.batch_count == 0 ==> s.producer == s.meta_pos + 32 || s.wrap_pending && s.wrap_fits(),
    ensures
        s.batch_count == 0 ==> {
            let (t, step) = s.emit_tail(emitted);
            match step {
                EmitStep::Done(r) => nothing_left(t),
                EmitStep::Post { stage, wqe } => nothing_left(
                    t.emit_resume(stage, PostOutcome::Posted).0,
                ),
            }
        },
{
    if s.batch_count == 0 {
        lemma_offset_wrap(s.meta_pos, s.len());
        if s.offset(s.meta_pos) + 32 < s.len() {
            lemma_offset_step(s.meta_pos, s.len(), 32);
        } else {
            vstd::arithmetic::div_mod::lemma_mod_bound(s.meta_pos, s.len());
        }
    }
}

/// What a flush returns. `Ok(false)` means that there was no message, no wrap and nothing read to tell
/// the peer of, and nothing is posted then. `Ok(true)` means that the device took a work request, and an
/// error that it took none. Where there is only something read to tell of, one header goes out for it.
/// Where only the wrap behind a batch is refused, it stays to be sent.
#[verifier::rlimit(50)]
pub proof fn law_flush_result<U>(
    s: EndpointState<U>,
    outcome: PostOutcome,
    next_outcome: PostOutcome,
)
    requires
        s.wf(),
        s.remote is Some,
    ensures
        ({
            let (s1, step1) = s.emit_start();
            &&& step1 == EmitStep::Done(Ok(false)) <==> s.batch_count == 0 && !s.wrap_pending
                && s.unreturned() == 0
            &&& match step1 {
                EmitStep::Done(r) => {
                    &&& s1 == s
                    &&& r == Ok::<bool, Error>(false) || r == Err::<bool, Error>(Error::RingFull)
                },
                EmitStep::Post { stage, wqe } => {
                    let (s2, step2) = s1.emit_resume(stage, outcome);
                    &&& s.batch_count == 0 && !s.wrap_pending ==> {
                        &&& stage is CreditReturn
                        &&& s1 == s.headed(0)
                        &&& wqe == s1.work_request()
                        &&& wqe.sge.len == 32
                    }
                    &&& outcome !is Posted ==> step2 == EmitStep::Done(Err(refusal(outcome)))
                    &&& outcome is Posted ==> match step2 {
                        EmitStep::Done(r) => r == Ok::<bool, Error>(true),
                        EmitStep::Post { stage: stage2, wqe: wqe2 } => {
                            let (s3, step3) = s2.emit_resume(stage2, next_outcome);
                            &&& s.batch_count > 0 && s.wrap_pending
                            &&& stage is Batch && stage2 is Wrap
                            &&& step3 == EmitStep::Done(Ok(true))
                            &&& s3.wrap_pending == (next_outcome !is Posted)
                        },
                    }
                },
            }
        }),
{
}

/// A work request names exactly the bytes in use, inside the send ring and, where the peer's ring is
/// as large as the send ring or larger, inside that too.
pub proof fn law_write_stays_inside<U>(s: EndpointState<U>)
    requires
        s.wf(),
        s.remote is Some,
        is_pow2(s.remote_size()),
        s.len() <= s.remote_size(),
        s.len() <= u32::MAX,
    ensures
        ({
            let w = s.work_request();
            let delta = s.producer - s.flush_start;
            &&& w.sge.len == delta
            &&& w.sge.addr == s.local.send_ring_addr + s.offset(s.flush_start)
            &&& w.sge.addr + delta <= s.local.send_ring_addr + s.len()
            &&& s.remote->0.addr <= w.remote_addr
            &&& w.remote_addr + delta <= s.remote->0.addr + s.remote_size()
            &&& w.remote_addr == s.remote->0.addr + s.flush_start % s.remote_size()
        }),
{
    lemma_span(s);
    let delta = s.producer - s.flush_start;
    lemma_mask_is_mod(s.flush_start as u64, s.remote->0.size);
    lemma_cycle_inside_cycle(s.flush_start, delta, s.len(), s.remote_size());
    vstd::arithmetic::div_mod::lemma_mod_bound(s.flush_start, s.remote_size());
}

/// Where the send queue has no room for what an endpoint has to send first, the pass is over, and
/// the endpoint stands in the queue for the next pass.
pub proof fn law_full_queue_is_retried<U>(s: ContextState<U>)
    requires
        s.wf(),
        s.flushing is Some,
        ({
            let (slot, stage) = s.flushing->0;
            stage != EmitStage::Wrap { after_batch: true }
        }),
    ensures
        ({
            let (slot, stage) = s.flushing->0;
            let id = s.endpoints[slot as int].local.endpoint_id;
            let (t, step) = s.flush_resume(PostOutcome::QueueFull);
            &&& step is Done
            &&& t.dirty == queued(s.dirty, id)
            &&& t.dirty.contains(id)
            &&& t.flushing is None
            &&& t.endpoints[slot as int].batch_count == s.endpoints[slot as int].batch_count
            &&& t.endpoints[slot as int].wrap_pending == s.endpoints[slot as int].wrap_pending
        }),
{
    let (slot, stage) = s.flushing->0;
    let e = s.endpoints[slot as int];
    let q = queued(s.dirty, e.local.endpoint_id);
    if !s.dirty.contains(e.local.endpoint_id) {
        assert(q[s.dirty.len() as int] == e.local.endpoint_id);
    }
}

/// Endpoints that a pass takes from the front of the queue before it stops.
pub open spec fn walk_taken<U>(s: ContextState<U>) -> int
    decreases s.dirty.len(),
{
    if s.dirty.len() == 0 {
        0
    } else {
        let rest = ContextState { dirty: s.dirty.drop_first(), ..s };
        match s.slot_of(s.dirty[0]) {
            None => 1 + walk_taken(rest),
            Some(slot) => {
                let (e, step) = s.endpoints[slot as int].emit_start();
                if step is Post || step == EmitStep::Done(Err(Error::RingFull)) {
                    1
                } else {
                    1 + walk_taken(rest.tallied(slot, e))
                }
            },
        }
    }
}

/// From `s` to `t`, `k` endpoints were taken in the order of the queue, and the others were left alone.
/// The last one taken is the one that `step` is about. A pass that is over has emptied the queue, or has
/// put the last one, which waits for room in its peer's ring, back to the end.
pub open spec fn in_order<U>(
    s: ContextState<U>,
    t: ContextState<U>,
    step: EndpointsStep,
    k: int,
) -> bool {
    &&& 0 <= k <= s.dirty.len()
    &&& t.endpoints.len() == s.endpoints.len()
    &&& forall|i: int|
        0 <= i < s.endpoints.len() && !s.dirty.take(k).contains(s.endpoints[i].local.endpoint_id)
            ==> (#[trigger] t.endpoints[i]) == s.endpoints[i]
    &&& match step {
        EndpointsStep::Done { ring_doorbell } => {
            &&& k == s.dirty.len() && t.dirty.len() == 0 || 0 < k && t.dirty == s.dirty.skip(
                k,
            ).push(s.dirty[k - 1])
            &&& t.flushing is None
            &&& ring_doorbell == s.emitted
        },
        EndpointsStep::Post { slot, wqe } => {
            &&& 0 < k
            &&& t.dirty == s.dirty.skip(k)
            &&& s.slot_of(s.dirty[k - 1]) == Some(slot)
            &&& t.flushing matches Some((at, stage)) && at == slot
            &&& wqe == t.endpoints[slot as int].work_request()
        },
    }
}

/// One more endpoint in front of the queue, which alone may have moved on.
#[verifier::rlimit(50)]
proof fn lemma_in_order_behind<U>(
    s: ContextState<U>,
    next: ContextState<U>,
    t: ContextState<U>,
    step: EndpointsStep,
    k: int,
)
    requires
        0 < s.dirty.len(),
        next.dirty == s.dirty.drop_first(),
        next.endpoints.len() == s.endpoints.len(),
        next.registry == s.registry,
        next.emitted == s.emitted,
        forall|i: int|
            0 <= i < s.endpoints.len() ==> (#[trigger] next.endpoints[i]).local
                == s.endpoints[i].local,
        forall|i: int|
            0 <= i < s.endpoints.len() && s.endpoints[i].local.endpoint_id != s.dirty[0] ==> (
            #[trigger] next.endpoints[i]) == s.endpoints[i],
        in_order(next, t, step, k),
    ensures
        in_order(s, t, step, k + 1),
{
    assert(next.dirty.skip(k) =~= s.dirty.skip(k + 1));
    lemma_taken(s.dirty, k + 1);
    assert forall|i: int|
        0 <= i < s.endpoints.len() && !s.dirty.take(k + 1).contains(
            s.endpoints[i].local.endpoint_id,
        ) implies (#[trigger] t.endpoints[i]) == s.endpoints[i] by {
        assert(next.endpoints[i].local == s.endpoints[i].local);
        assert(next.dirty.take(k) =~= s.dirty.drop_first().take(k + 1 - 1));
        assert(!next.dirty.take(k).contains(next.endpoints[i].local.endpoint_id));
        assert(next.endpoints[i] == s.endpoints[i]);
    }
    if 0 < k {
        assert(next.dirty[k - 1] == s.dirty[k]);
    }
}

/// The first stretch of a flush keeps what is fixed.
#[verifier::rlimit(50)]
proof fn lemma_start_keeps<U>(e: EndpointState<U>)
    requires
        e.wf(),
        e.meta_pos + e.len() <= u64::MAX,
    ensures
        e.emit_start().0.local == e.local,
        e.emit_start().0.wf(),
        e.emit_start().1 matches EmitStep::Post { stage, wqe } ==> wqe
            == e.emit_start().0.work_request(),
{
    if e.batch_count > 0 {
        lemma_headed(e, e.batch_count as u32);
    } else {
        if e.wrap_pending && e.wrap_fits() {
            lemma_wrapped(e);
        } else if e.remote is Some {
            lemma_headed(e, 0);
        }
    }
}

/// A pass takes the endpoints in the order of the queue up to one that needs the device or waits for
/// room in its peer's ring, leaves the others alone, and is otherwise over when the queue is empty.
#[verifier::rlimit(50)]
pub proof fn law_flush_goes_in_order<U>(s: ContextState<U>)
    requires
        s.base_wf(),
        s.can_walk(),
    ensures
        in_order(s, s.flush_walk().0, s.flush_walk().1, walk_taken(s)),
    decreases s.dirty.len(),
{
    let (t, step) = s.flush_walk();
    if s.dirty.len() > 0 {
        let rest = ContextState { dirty: s.dirty.drop_first(), ..s };
        lemma_taken(s.dirty, 1);
        assert forall|i: int, j: int|
            0 <= i < rest.dirty.len() && 0 <= j < rest.dirty.len() && i != j implies rest.dirty[i]
            != rest.dirty[j] by {
            assert(s.dirty[i + 1] != s.dirty[j + 1]);
        }
        lemma_same_endpoints(s, rest);
        assert forall|i: int| 0 <= i < rest.endpoints.len() implies (
        #[trigger] rest.endpoints[i]).meta_pos + rest.endpoints[i].len() <= u64::MAX by {
            assert(s.endpoints[i].meta_pos + s.endpoints[i].len() <= u64::MAX);
        }
        match s.slot_of(s.dirty[0]) {
            None => {
                law_flush_goes_in_order(rest);
                lemma_in_order_behind(s, rest, t, step, walk_taken(rest));
            },
            Some(slot) => {
                assert(s.endpoint_wf(slot as int));
                let was = s.endpoints[slot as int];
                assert(was.meta_pos + was.len() <= u64::MAX);
                lemma_start_keeps(was);
                let (e, first) = was.emit_start();
                if first is Post {
                    assert(t.dirty =~= s.dirty.skip(1));
                } else if first == EmitStep::Done(Err(Error::RingFull)) {
                    assert(!rest.dirty.contains(s.dirty[0])) by {
                        if rest.dirty.contains(s.dirty[0]) {
                            let k = rest.dirty.index_of(s.dirty[0]);
                            assert(s.dirty[k + 1] == s.dirty[0]);
                        }
                    }
                    assert(rest.dirty =~= s.dirty.skip(1));
                } else {
                    let next = rest.tallied(slot, e);
                    lemma_with_endpoint(rest, slot, e.counted(), rest.dirty);
                    lemma_same_endpoints(
                        rest.with_endpoint(slot, e.counted(), rest.dirty),
                        next,
                    );
                    assert forall|i: int| 0 <= i < next.endpoints.len() implies (
                    #[trigger] next.endpoints[i]).meta_pos + next.endpoints[i].len()
                        <= u64::MAX by {
                        assert(s.endpoints[i].meta_pos + s.endpoints[i].len() <= u64::MAX);
                    }
                    law_flush_goes_in_order(next);
                    lemma_in_order_behind(s, next, t, step, walk_taken(next));
                }
            },
        }
    }
}

/// What is taken from a queue behind its first number is taken from the queue.
proof fn lemma_taken(queue: Seq<u32>, k: int)
    requires
        1 <= k <= queue.len(),
    ensures
        queue.take(k).contains(queue[0]),
        forall|x: u32| #[trigger]
            queue.drop_first().take(k - 1).contains(x) ==> queue.take(k).contains(x),
{
    assert(queue.take(k)[0] == queue[0]);
    assert forall|x: u32| #[trigger]
        queue.drop_first().take(k - 1).contains(x) implies queue.take(k).contains(x) by {
        let j = queue.drop_first().take(k - 1).index_of(x);
        assert(queue.take(k)[j + 1] == x);
    }
}

/// Each endpoint is made under the next number, by which it is found, and the others are found as
/// before. A number is never used twice, also not one that was used up by an endpoint that could not be
/// made.
pub proof fn law_number_finds_endpoint<U>(s: ContextState<U>, e: EndpointState<U>, endpoint_id: u32)
    requires
        s.wf(),
        s.endpoints.len() <= usize::MAX,
        e.local.endpoint_id == s.next_id,
    ensures
        s.slot_of(e.local.endpoint_id) is None,
        s.numbered().joined(e).slot_of(e.local.endpoint_id) == Some(s.endpoints.len() as usize),
        endpoint_id != e.local.endpoint_id ==> s.numbered().joined(e).slot_of(endpoint_id)
            == s.slot_of(endpoint_id),
        s.numbered().slot_of(endpoint_id) == s.slot_of(endpoint_id),
        s.numbered().next_id == s.next_id + 1,
        s.numbered().joined(e).next_id == s.next_id + 1,
{
    if s.registry.contains_key(e.local.endpoint_id) {
        assert(s.endpoint_wf(s.registry[e.local.endpoint_id] as int));
    }
}

} // verus!
