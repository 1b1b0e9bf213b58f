//! What holds of connections as a whole.

use vstd::prelude::*;

use crate::bytes::{le32_at, le64_at};
use crate::encoding::{
    law_batch_header_round_trip, law_imm_round_trip, lemma_header_copied, request_of, respond_to,
    response_id, WRAP_MESSAGE_COUNT,
};
use crate::error::{Error, PostOutcome};
use crate::inbound::{
    law_batch_is_read, lemma_last_ask, lemma_open_all_keeps, Answer, Ask, Inbox, Mail,
};
use crate::message::{
    lemma_messages_end_aligned, lemma_messages_end_grows, lemma_messages_fit, lemma_padded_bounds,
    lemma_same_bytes_same_messages, Format, Message,
};
use crate::rc::state::{lemma_headed, lemma_sent, lemma_wrapped, lemma_wrote, EndpointState};
use crate::rc::step::{
    call_id_of, flush_start, CallInput, CallStage, CallStep, ReplyInput, ReplyStage, ReplyStep,
};
use crate::ring::{
    is_pow2, lemma_cycle_inside_cycle, lemma_mask_is_mod, lemma_offset_aligned,
    lemma_offset_step, lemma_offset_wrap, lemma_pow2_multiple_of_32,
};

verus! {

/// The bytes that `s` hands to the device lie in the receive ring of its peer.
pub open spec fn landed<U>(s: EndpointState<U>, recv_ring: Seq<u8>) -> bool {
    let at = s.offset(s.flush_start);
    let to = s.flush_start % recv_ring.len() as int;
    let delta = s.producer - s.flush_start;
    recv_ring.subrange(to, to + delta) == s.ring.subrange(at, at + delta)
}

/// The peer `r` reads on where `s` goes on to send, in a ring that is as large as the send ring or
/// larger.
pub open spec fn in_step<U, V>(s: EndpointState<U>, r: EndpointState<V>) -> bool {
    r.recv_pos == s.flush_start && s.len() <= r.local.recv_ring_len
}

/// The numbers in the next batch of `s` leave the positions of `r` in range.
pub open spec fn in_range<U, V>(s: EndpointState<U>, r: EndpointState<V>) -> bool {
    &&& s.producer - s.flush_start < 0x20_0000_0000
    &&& r.recv_producer + (s.producer - s.flush_start) <= u64::MAX
    &&& r.consumer + (s.recv_pos - s.notified) <= u64::MAX
    &&& r.peer_credit + s.grant() <= u64::MAX
}

/// The bytes that each request in a batch sets aside for its response are a number of 64 bits.
pub open spec fn countable(batch: Seq<Message>) -> bool {
    forall|i: int|
        0 <= i < batch.len() ==> response_id((#[trigger] batch[i]).call_id as int)
            || batch[i].piggyback * 32 <= u64::MAX
}

/// What is in use and not yet with the device fills whole blocks of one ring cycle.
pub proof fn lemma_batch_span<U>(s: EndpointState<U>)
    requires
        s.wf(),
        s.open_batch(),
    ensures
        s.flush_start + 32 <= s.producer,
        (s.producer - s.flush_start) % 32 == 0,
        0 <= s.offset(s.flush_start),
        s.offset(s.flush_start) + (s.producer - s.flush_start) <= s.len(),
{
    lemma_pow2_multiple_of_32(s.len());
    lemma_offset_aligned(s.meta_pos, s.len());
    vstd::arithmetic::div_mod::lemma_mod_bound(s.meta_pos, s.len());
    lemma_messages_end_grows(Format::Rc, s.ring, s.meta_pos + 32, 0, s.batch_count as nat);
    lemma_messages_end_aligned(Format::Rc, s.ring, s.meta_pos + 32, s.batch_count as nat);
}

/// The header of a closed batch reads back from where it landed.
proof fn lemma_landed_header<U>(s: EndpointState<U>, recv_ring: Seq<u8>, message_count: u32)
    requires
        s.wf(),
        s.open_batch(),
        is_pow2(recv_ring.len() as int),
        s.len() <= recv_ring.len(),
        landed(s.headed(message_count), recv_ring),
    ensures
        ({
            let to = s.flush_start % recv_ring.len() as int;
            &&& 0 <= to
            &&& to + (s.producer - s.flush_start) <= recv_ring.len()
            &&& le64_at(recv_ring, to) == s.recv_pos - s.notified
            &&& le64_at(recv_ring, to + 8) == s.grant()
            &&& le32_at(recv_ring, to + 16) == message_count
        }),
{
    let at = s.offset(s.flush_start);
    let size = recv_ring.len() as int;
    let to = s.flush_start % size;
    let delta = s.producer - s.flush_start;
    lemma_batch_span(s);
    lemma_headed(s, message_count);
    lemma_cycle_inside_cycle(s.flush_start, delta, s.len(), size);
    vstd::arithmetic::div_mod::lemma_mod_bound(s.flush_start, size);
    law_batch_header_round_trip(
        s.ring,
        at,
        (s.recv_pos - s.notified) as u64,
        s.grant() as u64,
        message_count,
    );
    lemma_header_copied(s.headed(message_count).ring, at, recv_ring, to, delta);
}

/// The messages of a closed batch read back from where they landed.
#[verifier::rlimit(50)]
proof fn lemma_landed_messages<U>(s: EndpointState<U>, recv_ring: Seq<u8>)
    requires
        s.wf(),
        s.open_batch(),
        0 < s.batch_count,
        is_pow2(recv_ring.len() as int),
        s.len() <= recv_ring.len(),
        landed(s.filled(), recv_ring),
    ensures
        ({
            let n = s.batch_count as nat;
            let pos = s.meta_pos + 32;
            &&& Format::Rc.messages(recv_ring, pos, n) == s.batch()
            &&& Format::Rc.messages_end(recv_ring, pos, n) == s.producer
            &&& Format::Rc.messages_fit(recv_ring, pos, n)
        }),
{
    let t = s.filled();
    let n = s.batch_count as nat;
    let pos = s.meta_pos + 32;
    let at = s.offset(s.flush_start);
    let size = recv_ring.len() as int;
    let to = s.flush_start % size;
    let delta = s.producer - s.flush_start;
    lemma_batch_span(s);
    lemma_headed(s, s.batch_count as u32);
    lemma_cycle_inside_cycle(s.flush_start, delta, s.len(), size);
    vstd::arithmetic::div_mod::lemma_mod_bound(s.flush_start, size);
    lemma_messages_end_grows(Format::Rc, t.ring, pos, 0, n);
    lemma_offset_step(s.meta_pos, s.len(), 32);
    lemma_offset_step(s.meta_pos, size, 32);
    let a = s.offset(pos);
    let b = pos % size;
    let span = s.producer - pos;
    let sent = t.ring.subrange(at, at + delta);
    let seen = recv_ring.subrange(to, to + delta);
    assert(t.ring.subrange(a, a + span) =~= sent.subrange(32, delta));
    assert(recv_ring.subrange(b, b + span) =~= seen.subrange(32, delta));
    lemma_same_bytes_same_messages(Format::Rc, t.ring, pos, recv_ring, pos, n);
    lemma_messages_fit(Format::Rc, recv_ring, pos, n);
}

/// A batch arrives as it was sent. Where the bytes of a closed batch have landed, the peer finds
/// its messages, one for one, with their payloads, and the credit that goes with them, and both
/// sides agree on where the next batch starts.
#[verifier::rlimit(50)]
pub proof fn law_batch_arrives<U, V>(
    s: EndpointState<U>,
    r: EndpointState<V>,
    recv_ring: Seq<u8>,
)
    requires
        s.wf(),
        s.open_batch(),
        0 < s.batch_count < u32::MAX,
        r.wf(),
        in_step(s, r),
        in_range(s, r),
        recv_ring.len() == r.local.recv_ring_len,
        recv_ring.len() <= usize::MAX,
        landed(s.filled(), recv_ring),
        countable(s.batch()),
    ensures
        ({
            let imm = s.filled().work_request().imm;
            let inbox = r.inbox(recv_ring, Seq::empty());
            let after = r.received(recv_ring, imm);
            &&& r.can_receive(recv_ring, imm)
            &&& inbox.read(recv_ring) == (Mail {
                pending: r.pending,
                answers: Seq::empty(),
                asks: Seq::empty(),
            }).open_all(s.batch())
            &&& in_step(s.filled().sent(), after)
            &&& after.recv_producer == r.recv_producer + (s.producer - s.flush_start)
            &&& r.recv_producer == r.recv_pos ==> after.recv_producer == after.recv_pos
            &&& after.consumer == r.consumer + (s.recv_pos - s.notified)
            &&& after.peer_credit == r.peer_credit + s.grant()
            &&& after.pending == inbox.pending
        }),
{
    let n = s.batch_count as nat;
    let pos = s.meta_pos + 32;
    lemma_batch_span(s);
    lemma_landed_header(s, recv_ring, s.batch_count as u32);
    lemma_landed_messages(s, recv_ring);
    law_imm_round_trip(s.producer - s.flush_start);
    let arrival = r.arrival(recv_ring);
    assert forall|i: nat| i < n implies #[trigger] arrival.whole(i) by {
        lemma_nth_message(Format::Rc, recv_ring, pos, n, i);
        assert(Format::Rc.message_fits(recv_ring, Format::Rc.messages_end(recv_ring, pos, i)));
        assert(s.batch()[i as int] == Format::Rc.message_at(recv_ring, arrival.offset(i)));
    }
    assert forall|i: nat| i < n implies #[trigger] arrival.sound(r.pending, i) by {
        assert(arrival.whole(i));
    }
    assert(arrival.valid(r.pending, n));
    let before = Inbox { pending: r.pending, responses: Seq::empty(), requests: Seq::empty() };
    law_batch_is_read(arrival, r.local.slot, r.local.qpn, before, n, n);
    assert(before.read(recv_ring) =~= Mail {
        pending: r.pending,
        answers: Seq::empty(),
        asks: Seq::empty(),
    });
}

/// The messages from a position on, one by one.
proof fn lemma_nth_message(f: Format, ring: Seq<u8>, pos: int, n: nat, i: nat)
    requires
        i < n,
    ensures
        f.messages(ring, pos, n).len() == n,
        f.messages(ring, pos, n)[i as int] == f.message_at(
            ring,
            f.messages_end(ring, pos, i) % ring.len() as int,
        ),
    decreases n,
{
    lemma_messages_len(f, ring, pos, n);
    lemma_messages_len(f, ring, pos, (n - 1) as nat);
    if i < n - 1 {
        lemma_nth_message(f, ring, pos, (n - 1) as nat, i);
    }
}

/// There are as many messages as were counted.
proof fn lemma_messages_len(f: Format, ring: Seq<u8>, pos: int, n: nat)
    ensures
        f.messages(ring, pos, n).len() == n,
    decreases n,
{
    if n > 0 {
        lemma_messages_len(f, ring, pos, (n - 1) as nat);
    }
}

/// A wrap takes both sides to the start of the next ring cycle of the send ring, also where its header
/// ends at the end of the ring cycle, and moves credit like a batch.
#[verifier::rlimit(50)]
pub proof fn law_wrap_arrives<U, V>(s: EndpointState<U>, r: EndpointState<V>, recv_ring: Seq<u8>)
    requires
        s.wf(),
        s.open_batch(),
        s.batch_count == 0,
        s.meta_pos + s.len() + 32 <= u64::MAX,
        r.wf(),
        in_step(s, r),
        recv_ring.len() == r.local.recv_ring_len,
        ({
            let t = s.wrapped();
            &&& t.producer - t.flush_start < 0x20_0000_0000
            &&& r.recv_producer + s.len() <= u64::MAX
            &&& r.consumer + t.told <= u64::MAX
            &&& r.peer_credit + t.granted <= u64::MAX
        }),
        landed(s.wrapped(), recv_ring),
    ensures
        ({
            let t = s.wrapped();
            let imm = t.work_request().imm;
            let after = r.received(recv_ring, imm);
            &&& r.can_receive(recv_ring, imm)
            &&& in_step(t.sent(), after)
            &&& t.offset(t.sent().flush_start) == 0
            &&& after.recv_producer == r.recv_producer + (t.producer - t.flush_start)
            &&& r.recv_producer == r.recv_pos ==> after.recv_producer == after.recv_pos
            &&& after.consumer == r.consumer + (s.recv_pos - s.notified)
            &&& after.peer_credit == r.peer_credit + (t.sent().reservation - s.reservation)
            &&& after.pending == r.pending
        }),
{
    let t = s.wrapped();
    let size = recv_ring.len() as int;
    let at = s.offset(s.meta_pos);
    let to = s.meta_pos % size;
    let delta = t.producer - t.flush_start;
    let stretched = EndpointState { producer: s.cycle_end(), ..s };
    lemma_wrapped(s);
    lemma_batch_span(t);
    lemma_offset_wrap(s.meta_pos, s.len());
    lemma_cycle_inside_cycle(s.meta_pos, delta, s.len(), size);
    vstd::arithmetic::div_mod::lemma_mod_bound(s.meta_pos, size);
    law_imm_round_trip(delta);
    law_batch_header_round_trip(
        s.ring,
        at,
        (s.recv_pos - s.notified) as u64,
        stretched.grant() as u64,
        WRAP_MESSAGE_COUNT,
    );
    lemma_header_copied(t.ring, at, recv_ring, to, delta);
}

/// A response ends the call that it answers, and no other: the caller gets its user data back with
/// the response.
pub proof fn law_response_ends_call<U>(mail: Mail<U>, key: usize, payload: Seq<u8>)
    requires
        mail.pending.contains_key(key),
        key < 0x8000_0000,
    ensures
        mail.open(Message { call_id: respond_to(call_id_of(key)), piggyback: 0, payload }) == (Mail {
            pending: mail.pending.remove(key),
            answers: mail.answers.push(Answer { user_data: mail.pending[key], payload }),
            asks: mail.asks,
        }),
{
    assert(request_of(respond_to(call_id_of(key))) == key);
}

/// Keys stay small: where no more than `bound` calls are in progress at once, every key is below `bound`.
pub proof fn law_call_keys_stay_small<U>(
    input: CallInput<U>,
    key: usize,
    pre: EndpointState<U>,
    post: EndpointState<U>,
    step: CallStep<U>,
    bound: nat,
)
    requires
        input.accepts(key, pre, post, step),
        pre.slots <= bound,
        pre.pending.len() < bound,
    ensures
        key < bound,
        post.slots <= bound,
{
}

/// An accepted call is the last message of the open batch: the handler at the peer gets the
/// request, with the call identifier and with the bytes that the call set aside for the response.
pub proof fn law_call_is_sent<U>(
    input: CallInput<U>,
    key: usize,
    pre: EndpointState<U>,
    post: EndpointState<U>,
    step: CallStep<U>,
)
    requires
        pre.wf(),
        pre.open_batch(),
        pre.batch_count == 0 ==> pre.producer == pre.meta_pos + 32,
        pre.batch_count < u32::MAX,
        input.data.len() <= u32::MAX,
        0 <= input.allowance <= u64::MAX,
        pre.offset(pre.meta_pos) + (pre.producer - pre.meta_pos) + input.size() <= pre.len(),
        pre.producer + input.size() <= u64::MAX,
        input.accepts(key, pre, post, step),
    ensures
        post.batch() == pre.batch().push(
            Message {
                call_id: call_id_of(key),
                piggyback: (input.allowance / 32) as u64,
                payload: input.data,
            },
        ),
        post.pending == pre.pending.insert(key, input.user_data),
        forall|k: usize| #[trigger]
            pre.pending.contains_key(k) ==> k != key && post.pending[k] == pre.pending[k],
{
    lemma_wrote(pre, call_id_of(key), (input.allowance / 32) as u64, input.data);
}

/// A reply is the last message of the open batch, under the identifier of the response.
pub proof fn law_reply_is_sent<U>(input: ReplyInput, pre: EndpointState<U>)
    requires
        pre.wf(),
        pre.open_batch(),
        pre.batch_count == 0 ==> pre.producer == pre.meta_pos + 32,
        pre.batch_count < u32::MAX,
        input.data.len() <= u32::MAX,
        pre.offset(pre.meta_pos) + (pre.producer - pre.meta_pos) + input.size() <= pre.len(),
        pre.producer + input.size() <= u64::MAX,
    ensures
        input.placed(pre).batch() == pre.batch().push(
            Message { call_id: respond_to(input.call_id), piggyback: 0, payload: input.data },
        ),
{
    lemma_wrote(pre, respond_to(input.call_id), 0, input.data);
}

/// A request reaches its handler. Where the batch of an accepted call has landed at the peer, the
/// handler there finds the request last, with the call identifier, its bytes, and the bytes that the
/// call set aside for the response.
#[verifier::rlimit(50)]
pub proof fn law_request_reaches_handler<U, V>(
    input: CallInput<U>,
    key: usize,
    pre: EndpointState<U>,
    post: EndpointState<U>,
    step: CallStep<U>,
    r: EndpointState<V>,
    recv_ring: Seq<u8>,
)
    requires
        pre.wf(),
        pre.open_batch(),
        pre.batch_count == 0 ==> pre.producer == pre.meta_pos + 32,
        pre.batch_count < u32::MAX - 1,
        input.data.len() <= u32::MAX,
        0 <= input.allowance <= u64::MAX,
        input.allowance % 32 == 0,
        pre.offset(pre.meta_pos) + (pre.producer - pre.meta_pos) + input.size() <= pre.len(),
        pre.producer + input.size() <= u64::MAX,
        input.accepts(key, pre, post, step),
        pre.slots <= 0x8000_0000,
        pre.pending.len() < 0x8000_0000,
        countable(pre.batch()),
        r.wf(),
        in_step(post, r),
        in_range(post, r),
        recv_ring.len() == r.local.recv_ring_len,
        recv_ring.len() <= usize::MAX,
        landed(post.filled(), recv_ring),
    ensures
        ({
            let asks = r.inbox(recv_ring, Seq::empty()).read(recv_ring).asks;
            &&& r.can_receive(recv_ring, post.filled().work_request().imm)
            &&& 0 < asks.len()
            &&& asks.last() == (Ask {
                call_id: call_id_of(key),
                payload: input.data,
                allowance: input.allowance,
            })
        }),
{
    let m = lemma_accepted_message(input, key, pre, post, step);
    lemma_last_message_asks(post, r, recv_ring, pre.batch(), m);
}

/// A small key is the identifier of a request.
pub proof fn lemma_key_is_request(key: usize)
    requires
        key < 0x8000_0000,
    ensures
        call_id_of(key) == key,
        !response_id(call_id_of(key) as int),
{
}

/// An accepted call leaves the endpoint well, with the request as the last message of the open batch.
#[verifier::spinoff_prover]
#[verifier::rlimit(50)]
proof fn lemma_accepted_message<U>(
    input: CallInput<U>,
    key: usize,
    pre: EndpointState<U>,
    post: EndpointState<U>,
    step: CallStep<U>,
) -> (m: Message)
    requires
        pre.wf(),
        pre.open_batch(),
        pre.batch_count == 0 ==> pre.producer == pre.meta_pos + 32,
        pre.batch_count < u32::MAX,
        input.data.len() <= u32::MAX,
        0 <= input.allowance <= u64::MAX,
        input.allowance % 32 == 0,
        pre.offset(pre.meta_pos) + (pre.producer - pre.meta_pos) + input.size() <= pre.len(),
        pre.producer + input.size() <= u64::MAX,
        input.accepts(key, pre, post, step),
        pre.slots <= 0x8000_0000,
        pre.pending.len() < 0x8000_0000,
    ensures
        post.wf(),
        post.open_batch(),
        post.batch_count == pre.batch_count + 1,
        post.batch() == pre.batch().push(m),
        m.call_id == call_id_of(key),
        m.payload == input.data,
        m.piggyback * 32 == input.allowance,
        !response_id(m.call_id as int),
{
    law_call_keys_stay_small(input, key, pre, post, step, 0x8000_0000);
    lemma_key_is_request(key);
    let blocks = (input.allowance / 32) as u64;
    let wrote = pre.wrote(call_id_of(key), blocks, input.data);
    lemma_wrote(pre, call_id_of(key), blocks, input.data);
    assert(post.ring == wrote.ring && post.meta_pos == wrote.meta_pos && post.batch_count
        == wrote.batch_count);
    assert(post.batch() == wrote.batch());
    Message {
        call_id: call_id_of(key),
        piggyback: (input.allowance / 32) as u64,
        payload: input.data,
    }
}

/// Where the last message of a batch that has landed is a request, a handler finds it last.
#[verifier::rlimit(50)]
proof fn lemma_last_message_asks<U, V>(
    s: EndpointState<U>,
    r: EndpointState<V>,
    recv_ring: Seq<u8>,
    batch: Seq<Message>,
    m: Message,
)
    requires
        s.wf(),
        s.open_batch(),
        0 < s.batch_count < u32::MAX,
        s.batch() == batch.push(m),
        countable(batch),
        !response_id(m.call_id as int),
        m.piggyback * 32 <= u64::MAX,
        r.wf(),
        in_step(s, r),
        in_range(s, r),
        recv_ring.len() == r.local.recv_ring_len,
        recv_ring.len() <= usize::MAX,
        landed(s.filled(), recv_ring),
    ensures
        ({
            let asks = r.inbox(recv_ring, Seq::empty()).read(recv_ring).asks;
            &&& r.can_receive(recv_ring, s.filled().work_request().imm)
            &&& 0 < asks.len()
            &&& asks.last() == (Ask {
                call_id: m.call_id,
                payload: m.payload,
                allowance: m.piggyback * 32,
            })
        }),
{
    let start = Mail { pending: r.pending, answers: Seq::empty(), asks: Seq::empty() };
    lemma_countable_push(batch, m);
    law_batch_arrives(s, r, recv_ring);
    lemma_last_ask(start, batch, m);
}

/// One more message leaves a batch countable.
proof fn lemma_countable_push(batch: Seq<Message>, m: Message)
    requires
        countable(batch),
        response_id(m.call_id as int) || m.piggyback * 32 <= u64::MAX,
    ensures
        countable(batch.push(m)),
{
    assert forall|i: int| 0 <= i < batch.push(m).len() implies response_id(
        (#[trigger] batch.push(m)[i]).call_id as int,
    ) || batch.push(m)[i].piggyback * 32 <= u64::MAX by {
        if i < batch.len() {
            assert(batch.push(m)[i] == batch[i]);
        }
    }
}

/// A response reaches its caller. Where the batch of a reply has landed at the peer, and the call is
/// in progress there up to this message, the caller finds the response last, with the user data of
/// the call, and the call is over.
#[verifier::rlimit(50)]
pub proof fn law_response_reaches_caller<U, V>(
    input: ReplyInput,
    key: usize,
    pre: EndpointState<U>,
    r: EndpointState<V>,
    recv_ring: Seq<u8>,
)
    requires
        pre.wf(),
        pre.open_batch(),
        pre.batch_count == 0 ==> pre.producer == pre.meta_pos + 32,
        pre.batch_count < u32::MAX - 1,
        input.data.len() <= u32::MAX,
        0 <= input.response_allowance,
        pre.offset(pre.meta_pos) + (pre.producer - pre.meta_pos) + input.size() <= pre.len(),
        pre.producer + input.size() <= u64::MAX,
        key < 0x8000_0000,
        input.call_id == call_id_of(key),
        countable(pre.batch()),
        r.wf(),
        in_step(input.placed(pre), r),
        in_range(input.placed(pre), r),
        recv_ring.len() == r.local.recv_ring_len,
        recv_ring.len() <= usize::MAX,
        landed(input.placed(pre).filled(), recv_ring),
        (Mail { pending: r.pending, answers: Seq::empty(), asks: Seq::empty() }).open_all(
            pre.batch(),
        ).pending.contains_key(key),
    ensures
        ({
            let mail = r.inbox(recv_ring, Seq::empty()).read(recv_ring);
            let imm = input.placed(pre).filled().work_request().imm;
            &&& r.can_receive(recv_ring, imm)
            &&& 0 < mail.answers.len()
            &&& mail.answers.last() == (Answer { user_data: r.pending[key], payload: input.data })
            &&& !r.received(recv_ring, imm).pending.contains_key(key)
        }),
{
    let post = input.placed(pre);
    let start = Mail { pending: r.pending, answers: Seq::empty(), asks: Seq::empty() };
    law_reply_is_sent(input, pre);
    lemma_wrote(pre, respond_to(input.call_id), 0, input.data);
    let m = Message { call_id: respond_to(input.call_id), piggyback: 0, payload: input.data };
    lemma_countable_push(pre.batch(), m);
    law_batch_arrives(post, r, recv_ring);
    assert(pre.batch().push(m).drop_last() =~= pre.batch());
    lemma_open_all_keeps(start, pre.batch(), key);
    law_response_ends_call(start.open_all(pre.batch()), key, input.data);
}

/// A call that stopped at `stage` can go on, whatever the device says.
pub open spec fn call_can_go_on<U>(
    input: CallInput<U>,
    stage: CallStage,
    s: EndpointState<U>,
) -> bool {
    &&& s.wf()
    &&& s.open_batch()
    &&& s.room_to_run(input.data.len() as int)
    &&& s.holds(input.size())
    &&& stage is CloseBatch || stage is Wrap ==> input.allowance <= s.peer_credit
    &&& stage is Wrap ==> s.offset(s.producer) == 0
}

/// A reply that stopped at `stage` can go on, whatever the device says.
pub open spec fn reply_can_go_on<U>(
    input: ReplyInput,
    stage: ReplyStage,
    s: EndpointState<U>,
) -> bool {
    &&& s.wf()
    &&& s.open_batch()
    &&& s.room_to_run(input.data.len() as int)
    &&& 32 + input.size() <= s.len()
    &&& stage is Wrap ==> s.offset(s.producer) == 0
}

/// Where a call stops for the device, it can go on afterwards, and it stops no more than twice:
/// a second stop only follows the first where the open batch had to be closed, and ends in the next
/// ring cycle. Until it is taken, the calls in progress stay as they are.
#[verifier::rlimit(50)]
pub proof fn law_call_can_go_on<U>(
    input: CallInput<U>,
    pre: EndpointState<U>,
    post: EndpointState<U>,
    step: CallStep<U>,
    next: EndpointState<U>,
    next_step: CallStep<U>,
    last: EndpointState<U>,
    last_step: CallStep<U>,
)
    requires
        pre.wf(),
        pre.open_batch(),
        pre.batch_count < u32::MAX,
        pre.producer + 2 * pre.len() + input.size() + 160 <= u64::MAX,
        pre.holds(input.size()),
        0 <= input.allowance <= u64::MAX,
        input.starts(pre, post, step),
    ensures
        step matches CallStep::Post(p) ==> {
            &&& p.allowance == input.allowance
            &&& p.user_data == input.user_data
            &&& call_can_go_on(input, p.stage, post)
            &&& post.pending == pre.pending
            &&& input.resumes(p.stage, PostOutcome::Posted, post, next, next_step) ==> (
            next_step matches CallStep::Post(q) ==> {
                &&& p.stage is CloseBatch
                &&& q.stage is Wrap
                &&& q.allowance == input.allowance
                &&& q.user_data == input.user_data
                &&& call_can_go_on(input, q.stage, next)
                &&& next.pending == pre.pending
                &&& input.resumes(q.stage, PostOutcome::Posted, next, last, last_step)
                    ==> last_step is Done
            })
        },
{
    lemma_padded_bounds(Format::Rc, input.data.len() as int);
    lemma_headed(pre, pre.batch_count as u32);
    if pre.batch_count == 0 {
        lemma_wrapped(pre);
        lemma_offset_wrap(pre.meta_pos, pre.len());
    } else {
        lemma_sent(pre.filled());
        let s = pre.filled().sent();
        lemma_wrapped(s);
        lemma_offset_wrap(s.meta_pos, s.len());
    }
}

/// A reply that skips to the next ring cycle can go on when the device has answered, and is then placed.
#[verifier::rlimit(50)]
proof fn lemma_reply_skip_goes_on<U>(input: ReplyInput, s: EndpointState<U>)
    requires
        s.wf(),
        s.open_batch(),
        s.batch_count == 0,
        s.meta_pos + 2 * s.len() + input.size() + 128 <= u64::MAX,
        32 + input.size() <= s.len(),
    ensures
        ({
            let (t, step) = input.skip(s);
            match step {
                ReplyStep::Done(r) => r is Ok || r == Err::<(), Error>(Error::RingFull),
                ReplyStep::Post { stage, wqe } => {
                    &&& stage is Wrap
                    &&& reply_can_go_on(input, stage, t)
                    &&& input.resume(stage, PostOutcome::Posted, t).1 == ReplyStep::Done(Ok(()))
                },
            }
        }),
{
    lemma_wrapped(s);
    lemma_offset_wrap(s.meta_pos, s.len());
}

/// Where a reply stops for the device, it can go on afterwards; it stops no more than twice, and if
/// the device takes what it is handed, the reply is placed, or refused because the peer's ring has no
/// room for the bytes that it would skip.
#[verifier::rlimit(50)]
pub proof fn law_reply_can_go_on<U>(input: ReplyInput, pre: EndpointState<U>)
    requires
        pre.wf(),
        pre.open_batch(),
        pre.batch_count < u32::MAX,
        pre.producer + 2 * pre.len() + input.size() + 160 <= u64::MAX,
        32 + input.size() <= pre.len(),
    ensures
        ({
            let (post, step) = input.start(pre);
            match step {
                ReplyStep::Done(r) => r is Ok || r == Err::<(), Error>(Error::RingFull),
                ReplyStep::Post { stage, wqe } => {
                    let (next, next_step) = input.resume(stage, PostOutcome::Posted, post);
                    &&& reply_can_go_on(input, stage, post)
                    &&& match next_step {
                        ReplyStep::Done(r) => r is Ok || r == Err::<(), Error>(Error::RingFull)
                            && stage is CloseBatch,
                        ReplyStep::Post { stage: second, wqe: _ } => {
                            let (_, last_step) = input.resume(second, PostOutcome::Posted, next);
                            &&& stage is CloseBatch
                            &&& second is Wrap
                            &&& reply_can_go_on(input, second, next)
                            &&& last_step == ReplyStep::Done(Ok(()))
                        },
                    }
                },
            }
        }),
{
    if pre.batch_count == 0 {
        lemma_reply_skip_goes_on(input, pre);
    } else {
        lemma_headed(pre, pre.batch_count as u32);
        lemma_sent(pre.filled());
        lemma_reply_skip_goes_on(input, pre.filled().sent());
    }
}

/// A work request names exactly the bytes in use, inside the send ring and, where the peer's ring is
/// as large as the send ring or larger, inside that too.
pub proof fn law_write_stays_inside<U>(s: EndpointState<U>)
    requires
        s.wf(),
        s.open_batch(),
        is_pow2(s.remote_size()),
        s.len() <= s.remote_size(),
        s.len() <= u32::MAX,
    ensures
        ({
            let w = s.work_request();
            let delta = s.producer - s.flush_start;
            let gathered = match w.sge {
                Some(sge) => sge.len as int,
                None => 0,
            };
            &&& w.inline_len + gathered == delta
            &&& w.inline_offset == s.offset(s.flush_start)
            &&& w.inline_offset + delta <= s.len()
            &&& w.sge matches Some(sge) ==> sge.addr == s.local.send_ring_addr + w.inline_offset
                + w.inline_len
            &&& s.remote->0.addr <= w.remote_addr
            &&& w.remote_addr + delta <= s.remote->0.addr + s.remote_size()
            &&& w.remote_addr == s.remote->0.addr + s.flush_start % s.remote_size()
        }),
{
    lemma_batch_span(s);
    let len = s.len();
    let size = s.remote_size();
    let start = s.flush_start;
    let delta = s.producer - start;
    lemma_mask_is_mod(start as u64, s.remote->0.size);
    lemma_cycle_inside_cycle(start, delta, len, size);
    vstd::arithmetic::div_mod::lemma_mod_bound(start, size);
}

} // verus!
