//! What each operation of an endpoint does, field by field and byte by byte.

use vstd::prelude::*;

use crate::bytes::{
    le32_at, le32_bytes, le64_at, le64_bytes, lemma_le32_round_trip, lemma_le64_round_trip,
};
use crate::encoding::{law_batch_header_round_trip, law_topmost_bit_tells_response, respond_to};
use crate::error::{CallError, Error, PostOutcome};
use crate::inbound::{Arrival, Inbox, RecvMessage};
use crate::message::Format;
use crate::rc::info::{EndpointConfig, RemoteEndpointInfo, RemoteRingInfo, RingMemory, SrqEntry};
use crate::rc::state::{allowance_for, lemma_sent, raw_rdma, EndpointState, LocalSide, RawKind};
use crate::rc::step::{
    call_id_of, flush_start, queues, CallInput, CallStage, CallStep, FlushStep, ReplyInput,
    ReplyStage, ReplyStep,
};
use crate::ring::{is_pow2, lemma_mask_is_mod, lemma_offset_step};

verus! {

/// Bytes that a message with a payload of `len` bytes takes: its header of sixteen bytes and the payload,
/// up to the next multiple of 32.
pub open spec fn message_bytes(len: int) -> int {
    (len + 47) / 32 * 32
}

/// Bytes that were sent or are to be sent and that the peer has not reported as read.
pub open spec fn unread<U>(s: EndpointState<U>, up_to: int) -> int {
    if up_to > s.consumer {
        up_to - s.consumer
    } else {
        0
    }
}

/// The open batch with `size` more bytes stays short of the end of its ring cycle.
pub open spec fn stays_in_cycle<U>(s: EndpointState<U>, size: int) -> bool {
    s.meta_pos % s.ring.len() as int + (s.producer - s.meta_pos) + size < s.ring.len()
}

/// The position at which the next ring cycle starts.
pub open spec fn next_cycle<U>(s: EndpointState<U>) -> int {
    s.meta_pos + s.ring.len() - s.meta_pos % s.ring.len() as int
}

/// Two rings differ nowhere but in the bytes from `from` to `to`.
pub open spec fn same_but(a: Seq<u8>, b: Seq<u8>, from: int, to: int) -> bool {
    &&& a.len() == b.len()
    &&& forall|i: int|
        0 <= i < a.len() && !(from <= i < to) ==> (#[trigger] a[i]) == b[i]
}

/// A message that is put into the open batch stands behind it with all of its bytes: the call
/// identifier, the piggyback, the length and the payload. It counts as one message more, and nothing
/// else changes.
#[verifier::rlimit(50)]
pub proof fn law_message_is_written<U>(
    s: EndpointState<U>,
    call_id: u32,
    piggyback: u64,
    data: Seq<u8>,
)
    requires
        0 < s.ring.len(),
        0 <= s.producer,
        data.len() <= u32::MAX,
        s.producer % s.ring.len() as int + 16 + data.len() <= s.ring.len(),
    ensures
        ({
            let t = s.wrote(call_id, piggyback, data);
            let at = s.producer % s.ring.len() as int;
            &&& t == EndpointState {
                ring: t.ring,
                producer: s.producer + message_bytes(data.len() as int),
                batch_count: s.batch_count + 1,
                ..s
            }
            &&& same_but(t.ring, s.ring, at, at + 16 + data.len())
            &&& le32_at(t.ring, at) == call_id
            &&& le64_at(t.ring, at + 4) == piggyback
            &&& le32_at(t.ring, at + 12) == data.len()
            &&& t.ring.subrange(at + 16, at + 16 + data.len()) == data
        }),
{
    let at = s.producer % s.ring.len() as int;
    vstd::arithmetic::div_mod::lemma_mod_bound(s.producer, s.ring.len() as int);
    let t = s.wrote(call_id, piggyback, data);
    let header = Format::Rc.header_bytes(call_id, piggyback, data.len() as int);
    assert(header.len() == 16);
    assert(t.ring.subrange(at, at + 4) =~= le32_bytes(call_id as int));
    lemma_le32_round_trip(t.ring, at, call_id);
    assert(t.ring.subrange(at + 4, at + 12) =~= le64_bytes(piggyback as int));
    lemma_le64_round_trip(t.ring, at + 4, piggyback);
    assert(t.ring.subrange(at + 12, at + 16) =~= le32_bytes(data.len() as int));
    lemma_le32_round_trip(t.ring, at + 12, data.len() as u32);
    assert(t.ring.subrange(at + 16, at + 16 + data.len()) =~= data);
}

/// Credit that goes with a batch whose bytes in use end at `up_to`: a whole number of blocks, no more
/// than the policy leaves and no more than the peer's ring has room for twice, and as much as that.
pub open spec fn is_grant<U>(s: EndpointState<U>, up_to: int, g: int) -> bool {
    &&& 0 <= g
    &&& g % 32 == 0
    &&& s.reservation + g <= s.local.max_resp_reservation
    &&& 0 < g ==> unread(s, up_to) + 2 * (s.reservation + g) <= s.remote->0.size
    &&& s.reservation + g + 32 <= s.local.max_resp_reservation ==> s.remote->0.size < unread(
        s,
        up_to,
    ) + 2 * (s.reservation + g + 32)
}

/// The credit that is computed is the one that goes with the bytes in use.
#[verifier::rlimit(50)]
proof fn lemma_grant<U>(s: EndpointState<U>)
    requires
        0 <= s.reservation <= s.local.max_resp_reservation,
        s.remote is Some,
    ensures
        is_grant(s, s.producer, s.grant()),
        s.grant() <= u64::MAX,
{
}

/// The header of a batch lies at its start and holds the bytes read that the peer has not been told of,
/// the credit that goes with the batch, and the message count. Nothing else in the ring changes.
#[verifier::rlimit(50)]
pub proof fn law_header_is_written<U>(s: EndpointState<U>, message_count: u32)
    requires
        s.wf(),
        s.remote is Some,
        s.meta_pos % s.ring.len() as int + 32 <= s.ring.len(),
        0 <= s.meta_pos,
    ensures
        ({
            let t = s.headed(message_count);
            let at = s.meta_pos % s.ring.len() as int;
            &&& t == EndpointState {
                ring: t.ring,
                told: s.recv_pos - s.notified,
                granted: t.granted,
                ..s
            }
            &&& is_grant(s, s.producer, t.granted)
            &&& same_but(t.ring, s.ring, at, at + 32)
            &&& le64_at(t.ring, at) == s.recv_pos - s.notified
            &&& le64_at(t.ring, at + 8) == t.granted
            &&& le32_at(t.ring, at + 16) == message_count
        }),
        s.batch_count == message_count ==> s.filled() == s.headed(message_count),
{
    let at = s.meta_pos % s.ring.len() as int;
    vstd::arithmetic::div_mod::lemma_mod_bound(s.meta_pos, s.ring.len() as int);
    law_batch_header_round_trip(
        s.ring,
        at,
        (s.recv_pos - s.notified) as u64,
        s.grant() as u64,
        message_count,
    );
    lemma_grant(s);
}

/// The header of a wrap lies where the empty open batch stands. The bytes in use then run to the start of
/// the next ring cycle, and the credit that goes with the wrap leaves room for all of them.
#[verifier::rlimit(50)]
pub proof fn law_wrap_is_written<U>(s: EndpointState<U>)
    requires
        s.wf(),
        s.remote is Some,
        s.meta_pos % s.ring.len() as int + 32 <= s.ring.len(),
        0 <= s.meta_pos,
    ensures
        ({
            let t = s.wrapped();
            let at = s.meta_pos % s.ring.len() as int;
            &&& t == EndpointState {
                ring: t.ring,
                producer: next_cycle(s),
                told: s.recv_pos - s.notified,
                granted: t.granted,
                ..s
            }
            &&& is_grant(s, next_cycle(s), t.granted)
            &&& same_but(t.ring, s.ring, at, at + 32)
            &&& le64_at(t.ring, at) == s.recv_pos - s.notified
            &&& le64_at(t.ring, at + 8) == t.granted
            &&& le32_at(t.ring, at + 16) == 0xffff_ffff
        }),
{
    let u = EndpointState { producer: s.cycle_end(), ..s };
    let at = s.meta_pos % s.ring.len() as int;
    vstd::arithmetic::div_mod::lemma_mod_bound(s.meta_pos, s.ring.len() as int);
    law_batch_header_round_trip(
        s.ring,
        at,
        (s.recv_pos - s.notified) as u64,
        u.grant() as u64,
        0xffff_ffff,
    );
    lemma_grant(u);
}

/// What the device's answer changes. Where it took a work request, all bytes in use are with it, the peer
/// counts as told and granted what the header says, and an empty batch is open behind. Where it refused,
/// the peer counts as told and granted nothing, and everything else stays. Telling the device of its
/// work requests changes nothing but that it was told.
pub proof fn law_device_answer<U>(s: EndpointState<U>)
    ensures
        s.sent() == (EndpointState {
            flush_start: s.producer,
            meta_pos: s.producer,
            producer: s.producer + 32,
            batch_count: 0,
            notified: s.notified + s.told,
            reservation: s.reservation + s.granted,
            told: 0,
            granted: 0,
            unsignaled: if s.unsignaled < 64 {
                s.unsignaled + 1
            } else {
                0
            },
            needs_doorbell: true,
            ..s
        }),
        s.refused() == (EndpointState { told: 0, granted: 0, ..s }),
        s.rung() == (EndpointState { needs_doorbell: false, ..s }),
        s.marked() == (EndpointState { is_dirty: true, ..s }),
        s.unmarked() == (EndpointState { is_dirty: false, ..s }),
{
}

/// A work request writes the bytes in use, all of them and no others, to the place in the peer's ring
/// that their position names, with the peer's key, and announces how many blocks they are. Bytes that
/// are not put into the work request itself follow on those that are, in the send ring, under its key.
/// Every sixty-fifth asks for a completion, which is tagged with the queue pair.
#[verifier::rlimit(50)]
pub proof fn law_work_request_is_right<U>(s: EndpointState<U>)
    requires
        s.wf(),
        s.open_batch(),
        s.ring.len() <= usize::MAX,
        is_pow2(s.remote->0.size as int),
    ensures
        ({
            let w = s.work_request();
            let delta = s.producer - s.flush_start;
            let at = s.flush_start % s.ring.len() as int;
            &&& w.remote_addr == s.remote->0.addr + s.flush_start % (s.remote->0.size as int)
            &&& w.rkey == s.remote->0.rkey
            &&& w.imm as int == delta / 32 % 0x1_0000_0000
            &&& w.inline_offset == at
            &&& w.signaled == (if s.unsignaled < 64 {
                None
            } else {
                Some(SrqEntry { qpn: s.local.qpn })
            })
            &&& match w.sge {
                None => delta <= 220 && w.inline_len == delta,
                Some(sge) => {
                    &&& 220 < delta
                    &&& w.inline_len == 204
                    &&& sge.addr == s.local.send_ring_addr + at + 204
                    &&& sge.len as int == (delta - 204) % 0x1_0000_0000
                    &&& sge.lkey == s.local.send_ring_lkey
                },
            }
        }),
{
    crate::rc::laws::lemma_batch_span(s);
    lemma_mask_is_mod(s.flush_start as u64, s.remote->0.size);
    vstd::arithmetic::div_mod::lemma_mod_bound(s.flush_start, s.remote->0.size as int);
}

/// The call waits at `stage` for the device to take everything in use: nothing that the caller handed in
/// is lost meanwhile.
pub open spec fn call_waits<U>(
    input: CallInput<U>,
    stage: CallStage,
    post: EndpointState<U>,
    step: CallStep<U>,
) -> bool {
    &&& step matches CallStep::Post(p)
    &&& p.user_data == input.user_data
    &&& input.allowance <= u64::MAX ==> p.allowance == input.allowance
    &&& p.stage == stage
    &&& p.wqe == post.work_request()
}

/// The call is refused for `error`. Where messages are open, they are sent before.
pub open spec fn call_refused<U>(
    input: CallInput<U>,
    stage: CallStage,
    error: CallError<U>,
    pre: EndpointState<U>,
    post: EndpointState<U>,
    step: CallStep<U>,
) -> bool {
    if pre.batch_count == 0 {
        &&& step == CallStep::<U>::Done { result: Err(error), ring_doorbell: pre.needs_doorbell }
        &&& post == EndpointState { needs_doorbell: false, ..pre }
    } else {
        &&& call_waits(input, stage, post, step)
        &&& post == pre.filled()
    }
}

/// A message stands behind the open batch of `pre`, with all of its bytes.
pub open spec fn message_stands<U>(
    pre: EndpointState<U>,
    ring: Seq<u8>,
    call_id: int,
    piggyback: int,
    data: Seq<u8>,
) -> bool {
    let at = pre.producer % pre.ring.len() as int;
    &&& same_but(ring, pre.ring, at, at + 16 + data.len())
    &&& le32_at(ring, at) == call_id
    &&& le64_at(ring, at + 4) == piggyback
    &&& le32_at(ring, at + 12) == data.len()
    &&& ring.subrange(at + 16, at + 16 + data.len()) == data
}

/// The call is taken under a key that no call in progress has: its user data is kept under the key, its
/// credit is spent, and its request stands behind the open batch, with the key as the call identifier
/// and the credit in blocks. The endpoint is marked for the next flush, and nothing else changes.
pub open spec fn call_taken<U>(
    input: CallInput<U>,
    key: usize,
    pre: EndpointState<U>,
    post: EndpointState<U>,
    step: CallStep<U>,
) -> bool {
    &&& !pre.pending.contains_key(key)
    &&& step == CallStep::<U>::Done {
        result: Ok((key as int % 0x1_0000_0000) as u32),
        ring_doorbell: false,
    }
    &&& post == EndpointState {
        ring: post.ring,
        producer: pre.producer + message_bytes(input.data.len() as int),
        batch_count: pre.batch_count + 1,
        pending: pre.pending.insert(key, input.user_data),
        slots: post.slots,
        peer_credit: pre.peer_credit - input.allowance,
        is_dirty: true,
        ..pre
    }
    &&& message_stands(
        pre,
        post.ring,
        key as int % 0x1_0000_0000,
        input.allowance / 32,
        input.data,
    )
    &&& pre.slots <= post.slots <= pre.slots + 1
    &&& key < post.slots
}

/// The peer's ring has room for `size` bytes beside all that it has not reported as read and twice the
/// credit that it holds.
pub open spec fn peer_has_room<U>(s: EndpointState<U>, size: int) -> bool {
    size + 2 * s.reservation + unread(s, s.producer) <= s.remote->0.size
}

/// A request that stays in the cycle is taken where the peer's ring has room, however many messages are
/// open, and is refused for want of room where it has none.
#[verifier::rlimit(50)]
proof fn lemma_places<U>(
    input: CallInput<U>,
    pre: EndpointState<U>,
    post: EndpointState<U>,
    step: CallStep<U>,
)
    requires
        pre.remote is Some,
        0 < pre.ring.len(),
        0 <= pre.producer,
        0 <= pre.reservation,
        0 <= input.allowance <= u64::MAX,
        input.data.len() <= u32::MAX,
        pre.producer % pre.ring.len() as int + 16 + input.data.len() <= pre.ring.len(),
        input.places(pre, post, step),
    ensures
        peer_has_room(pre, message_bytes(input.data.len() as int)) ==> exists|key: usize| #[trigger]
            call_taken(input, key, pre, post, step),
        !peer_has_room(pre, message_bytes(input.data.len() as int)) ==> call_refused(
            input,
            CallStage::SpaceFlush,
            CallError::RingFull(input.user_data),
            pre,
            post,
            step,
        ),
{
    if peer_has_room(pre, message_bytes(input.data.len() as int)) {
        assert(pre.has_space(input.size()));
        let key = choose|key: usize| #[trigger] input.accepts(key, pre, post, step);
        let blocks = (input.allowance / 32) as u64;
        law_message_is_written(pre, call_id_of(key), blocks, input.data);
        assert(call_taken(input, key, pre, post, step));
    } else {
        assert(!pre.has_space(input.size()));
    }
}

/// What a call comes to first, for every endpoint and every request. An endpoint that is not connected
/// refuses it. One with too little credit refuses it for that. A request that stays in the ring cycle
/// of the open batch is taken if and only if the peer's ring has room for it, however many messages are
/// open. One that does not stay in the cycle waits until the open messages are sent, and then for a wrap,
/// where the peer's ring has room for that.
#[verifier::rlimit(50)]
pub proof fn law_call_comes_to<U>(
    input: CallInput<U>,
    pre: EndpointState<U>,
    post: EndpointState<U>,
    step: CallStep<U>,
)
    requires
        pre.wf(),
        pre.remote is Some ==> pre.open_batch(),
        pre.peer_credit <= u64::MAX,
        0 <= input.allowance,
        input.data.len() <= u32::MAX,
        input.starts(pre, post, step),
    ensures
        ({
            let size = message_bytes(input.data.len() as int);
            if pre.remote is None {
                &&& post == pre
                &&& step == CallStep::<U>::Done {
                    result: Err(CallError::Other(Error::RemoteConsumerUnknown)),
                    ring_doorbell: false,
                }
            } else if pre.peer_credit < input.allowance {
                call_refused(
                    input,
                    CallStage::CreditFlush,
                    CallError::InsufficientCredit(input.user_data),
                    pre,
                    post,
                    step,
                )
            } else if stays_in_cycle(pre, size) {
                if peer_has_room(pre, size) {
                    exists|key: usize| #[trigger] call_taken(input, key, pre, post, step)
                } else {
                    call_refused(
                        input,
                        CallStage::SpaceFlush,
                        CallError::RingFull(input.user_data),
                        pre,
                        post,
                        step,
                    )
                }
            } else if pre.batch_count > 0 {
                call_waits(input, CallStage::CloseBatch, post, step) && post == pre.filled()
            } else if unread(pre, next_cycle(pre)) + 2 * pre.reservation <= pre.remote->0.size {
                call_waits(input, CallStage::Wrap, post, step) && post == pre.wrapped()
            } else {
                call_refused(
                    input,
                    CallStage::SpaceFlush,
                    CallError::RingFull(input.user_data),
                    pre,
                    post,
                    step,
                )
            }
        }),
{
    let size = message_bytes(input.data.len() as int);
    assert(input.size() == size);
    if pre.remote is Some && input.allowance <= pre.peer_credit && stays_in_cycle(pre, size) {
        assert(!pre.wrap_due(size));
        assert(input.places(pre, post, step));
        lemma_room_at_producer(pre, size);
        lemma_places(input, pre, post, step);
    }
}

/// Where a message that stays in the cycle goes, its bytes lie in the ring.
proof fn lemma_room_at_producer<U>(s: EndpointState<U>, size: int)
    requires
        s.wf(),
        s.open_batch(),
        stays_in_cycle(s, size),
        0 <= size,
    ensures
        s.producer % s.ring.len() as int + size < s.ring.len(),
        s.producer % s.ring.len() as int == s.meta_pos % s.ring.len() as int + (s.producer
            - s.meta_pos),
{
    crate::rc::laws::lemma_batch_span(s);
    lemma_offset_step(s.meta_pos, s.ring.len() as int, s.producer - s.meta_pos);
}

/// What a call comes to when the device has answered. A refused work request ends it, and what was open
/// waits for the next try. Where the open messages went out for want of credit or of room, the call is
/// refused for that, and the device has to be told. Where they went out to make place for a wrap, the
/// wrap follows, if the peer's ring has room for it. Behind a wrap the call is taken if and only if the
/// peer's ring has room.
#[verifier::rlimit(50)]
pub proof fn law_call_goes_on_to<U>(
    input: CallInput<U>,
    stage: CallStage,
    outcome: PostOutcome,
    pre: EndpointState<U>,
    post: EndpointState<U>,
    step: CallStep<U>,
)
    requires
        pre.wf(),
        pre.open_batch(),
        pre.producer + 32 <= u64::MAX,
        0 <= input.allowance <= u64::MAX,
        input.data.len() <= u32::MAX,
        stage is Wrap ==> pre.producer % pre.ring.len() as int == 0,
        stage is Wrap ==> 32 + message_bytes(input.data.len() as int) <= pre.ring.len(),
        input.resumes(stage, outcome, pre, post, step),
    ensures
        ({
            let size = message_bytes(input.data.len() as int);
            let s = pre.sent();
            if outcome != PostOutcome::Posted {
                &&& post == pre.refused()
                &&& step == CallStep::<U>::Done {
                    result: Err(CallError::Other(Error::Io)),
                    ring_doorbell: false,
                }
            } else {
                match stage {
                    CallStage::CreditFlush => {
                        &&& post == EndpointState { needs_doorbell: false, ..s }
                        &&& step == CallStep::<U>::Done {
                            result: Err(CallError::InsufficientCredit(input.user_data)),
                            ring_doorbell: true,
                        }
                    },
                    CallStage::SpaceFlush => {
                        &&& post == EndpointState { needs_doorbell: false, ..s }
                        &&& step == CallStep::<U>::Done {
                            result: Err(CallError::RingFull(input.user_data)),
                            ring_doorbell: true,
                        }
                    },
                    CallStage::CloseBatch => if unread(s, next_cycle(s)) + 2 * s.reservation
                        <= s.remote->0.size {
                        call_waits(input, CallStage::Wrap, post, step) && post == s.wrapped()
                    } else {
                        call_refused(
                            input,
                            CallStage::SpaceFlush,
                            CallError::RingFull(input.user_data),
                            s,
                            post,
                            step,
                        )
                    },
                    CallStage::Wrap => if peer_has_room(s, size) {
                        exists|key: usize| #[trigger] call_taken(input, key, s, post, step)
                    } else {
                        call_refused(
                            input,
                            CallStage::SpaceFlush,
                            CallError::RingFull(input.user_data),
                            s,
                            post,
                            step,
                        )
                    },
                }
            }
        }),
{
    let s = pre.sent();
    lemma_sent(pre);
    if outcome is Posted && stage is Wrap {
        lemma_offset_step(pre.producer, pre.ring.len() as int, 32);
        lemma_places(input, s, post, step);
    }
}

/// The credit that a call takes: the bytes of the response message, of the length that the caller
/// allows, and of one batch header, up to the next multiple of 32 and no further.
pub proof fn law_allowance_is_exact(response_allowance: int)
    requires
        0 <= response_allowance,
    ensures
        allowance_for(response_allowance) % 32 == 0,
        response_allowance + 48 <= allowance_for(response_allowance) < response_allowance + 80,
{
}

/// A response stands behind the open batch with all of its bytes, under the identifier of its request
/// with the topmost bit set. The bytes that were set aside for it are free again, the endpoint is marked
/// for the next flush, and nothing else changes.
pub open spec fn reply_taken<U>(
    input: ReplyInput,
    pre: EndpointState<U>,
    post: EndpointState<U>,
) -> bool {
    &&& post == EndpointState {
        ring: post.ring,
        producer: pre.producer + message_bytes(input.data.len() as int),
        batch_count: pre.batch_count + 1,
        reservation: if pre.reservation > input.response_allowance {
            pre.reservation - input.response_allowance
        } else {
            0
        },
        is_dirty: true,
        ..pre
    }
    &&& message_stands(
        pre,
        post.ring,
        0x8000_0000 + input.call_id as int % 0x8000_0000,
        0,
        input.data,
    )
}

/// A reply that is put into the open batch carries everything that was handed in.
#[verifier::rlimit(50)]
proof fn lemma_placed<U>(input: ReplyInput, s: EndpointState<U>)
    requires
        0 < s.ring.len(),
        0 <= s.producer,
        input.data.len() <= u32::MAX,
        s.producer % s.ring.len() as int + 16 + input.data.len() <= s.ring.len(),
    ensures
        reply_taken(input, s, input.placed(s)),
{
    let id = respond_to(input.call_id);
    let wrote = s.wrote(id, 0, input.data);
    law_topmost_bit_tells_response(input.call_id);
    law_message_is_written(s, id, 0, input.data);
    assert(message_stands(s, wrote.ring, id as int, 0, input.data));
    assert(input.placed(s).ring == wrote.ring);
}

/// What a reply comes to first, for every endpoint and every response. An endpoint that is not connected
/// refuses it. A response that stays in the ring cycle of the open batch is taken. One that does not
/// waits until the open messages are sent, and then for a wrap; where the peer's ring has no room for
/// that, it is refused, and nothing changes.
#[verifier::rlimit(50)]
pub proof fn law_reply_comes_to<U>(input: ReplyInput, pre: EndpointState<U>)
    requires
        pre.wf(),
        pre.remote is Some ==> pre.open_batch(),
        input.data.len() <= u32::MAX,
    ensures
        ({
            let size = message_bytes(input.data.len() as int);
            let (post, step) = input.start(pre);
            if pre.remote is None {
                post == pre && step == ReplyStep::Done(Err(Error::RemoteConsumerUnknown))
            } else if stays_in_cycle(pre, size) {
                reply_taken(input, pre, post) && step == ReplyStep::Done(Ok(()))
            } else if pre.batch_count > 0 {
                &&& post == pre.filled()
                &&& step == ReplyStep::Post {
                    stage: ReplyStage::CloseBatch,
                    wqe: post.work_request(),
                }
            } else if unread(pre, next_cycle(pre)) <= pre.remote->0.size {
                &&& post == pre.wrapped()
                &&& step == ReplyStep::Post { stage: ReplyStage::Wrap, wqe: post.work_request() }
            } else {
                post == pre && step == ReplyStep::Done(Err(Error::RingFull))
            }
        }),
{
    let size = message_bytes(input.data.len() as int);
    assert(input.size() == size);
    if pre.remote is Some && stays_in_cycle(pre, size) {
        lemma_room_at_producer(pre, size);
        lemma_placed(input, pre);
    }
}

/// What a reply comes to when the device has answered. A refused work request ends it, and what was open
/// waits for the next try. Behind a wrap the response is taken. Behind the open messages it waits for a
/// wrap where the peer's ring has room for that. Where it has none, the response is refused if it needs
/// the wrap, and taken if the messages that were sent have filled their ring cycle.
#[verifier::rlimit(50)]
pub proof fn law_reply_goes_on_to<U>(
    input: ReplyInput,
    stage: ReplyStage,
    outcome: PostOutcome,
    pre: EndpointState<U>,
)
    requires
        pre.wf(),
        pre.open_batch(),
        pre.producer + 32 <= u64::MAX,
        input.data.len() <= u32::MAX,
        stage is Wrap ==> pre.producer % pre.ring.len() as int == 0,
        32 + message_bytes(input.data.len() as int) <= pre.ring.len(),
    ensures
        ({
            let size = message_bytes(input.data.len() as int);
            let s = pre.sent();
            let (post, step) = input.resume(stage, outcome, pre);
            let kept = if stays_in_cycle(s, size) {
                2 * s.reservation
            } else {
                0
            };
            if outcome != PostOutcome::Posted {
                post == pre.refused() && step == ReplyStep::Done(Err(Error::Io))
            } else if stage is Wrap {
                reply_taken(input, s, post) && step == ReplyStep::Done(Ok(()))
            } else if unread(s, next_cycle(s)) + kept <= s.remote->0.size {
                &&& post == s.wrapped()
                &&& step == ReplyStep::Post { stage: ReplyStage::Wrap, wqe: post.work_request() }
            } else if stays_in_cycle(s, size) {
                reply_taken(input, s, post) && step == ReplyStep::Done(Ok(()))
            } else {
                post == s && step == ReplyStep::Done(Err(Error::RingFull))
            }
        }),
{
    let size = message_bytes(input.data.len() as int);
    let s = pre.sent();
    assert(input.size() == size);
    if outcome is Posted {
        lemma_sent(pre);
        if stage is Wrap {
            lemma_offset_step(pre.producer, pre.ring.len() as int, 32);
            lemma_placed(input, s);
        } else if stays_in_cycle(s, size) {
            lemma_room_at_producer(s, size);
            lemma_placed(input, s);
        }
    }
}

/// A flush sends the open messages, and where there are none, it only has the device told of what it was
/// handed before.
pub proof fn law_flush_comes_to<U>(pre: EndpointState<U>)
    ensures
        pre.batch_count == 0 ==> flush_start(pre) == (
            EndpointState { needs_doorbell: false, ..pre },
            FlushStep::Done { ring_doorbell: pre.needs_doorbell },
        ),
        pre.batch_count != 0 ==> flush_start(pre) == (
            pre.filled(),
            FlushStep::Post(pre.filled().work_request()),
        ),
{
}

/// A raw read or write names the peer's memory and the local memory that were handed in, each by its own
/// address and key, and the length, and is tagged as no batch is.
pub proof fn law_raw_names_both_sides(
    kind: RawKind,
    remote_addr: u64,
    remote_rkey: u32,
    local_addr: u64,
    local_lkey: u32,
    len: u32,
)
    ensures
        ({
            let w = raw_rdma(kind, remote_addr, remote_rkey, local_addr, local_lkey, len);
            &&& w.kind == kind
            &&& w.remote_addr == remote_addr
            &&& w.rkey == remote_rkey
            &&& w.sge.addr == local_addr
            &&& w.sge.lkey == local_lkey
            &&& w.sge.len == len
            &&& w.signaled.qpn == 0xffff_ffff
        }),
{
}

/// Raw reads and writes are counted when the device takes them and when they are complete. Those that are
/// between the two are the outstanding ones.
pub proof fn law_raw_counts<U>(s: EndpointState<U>)
    requires
        0 <= s.raw_posted <= u32::MAX,
        0 <= s.raw_done <= u32::MAX,
    ensures
        s.raw_started() == (EndpointState {
            raw_posted: if s.raw_posted == u32::MAX {
                0
            } else {
                s.raw_posted + 1
            },
            ..s
        }),
        s.raw_finished() == (EndpointState {
            raw_done: if s.raw_done == u32::MAX {
                0
            } else {
                s.raw_done + 1
            },
            ..s
        }),
        s.raw_pending() == (if s.raw_done <= s.raw_posted {
            s.raw_posted - s.raw_done
        } else {
            s.raw_posted - s.raw_done + 0x1_0000_0000
        }),
{
}

/// Where the next batch is read, and with which count.
pub open spec fn batch_at<U>(s: EndpointState<U>) -> int {
    s.recv_pos % (s.local.recv_ring_len as int)
}

/// The messages of the next batch.
pub open spec fn batch_of<U>(s: EndpointState<U>, recv_ring: Seq<u8>) -> Arrival {
    Arrival { format: Format::Rc, ring: recv_ring, pos: s.recv_pos + 32 }
}

/// What a batch does when it is taken in. Its first number says how much more of this side's bytes the
/// peer has read, its second how much more credit the peer grants. The position moves on behind its
/// messages, or, where it is a wrap, by the bytes that were announced. Its messages take effect on the
/// calls in progress, the responses and the requests. Nothing else changes.
#[verifier::rlimit(50)]
pub proof fn law_batch_taken_in<U>(
    s: EndpointState<U>,
    recv_ring: Seq<u8>,
    imm: u32,
    requests: Seq<RecvMessage>,
)
    ensures
        ({
            let at = batch_at(s);
            let count = le32_at(recv_ring, at + 16);
            let bare = Inbox { pending: s.pending, responses: Seq::empty(), requests: Seq::empty() };
            let before = Inbox { pending: s.pending, responses: Seq::empty(), requests };
            let arrival = batch_of(s, recv_ring);
            let wrap = count == 0xffff_ffff;
            &&& s.received(recv_ring, imm) == EndpointState {
                recv_producer: s.recv_producer + 32 * imm,
                consumer: s.consumer + le64_at(recv_ring, at),
                peer_credit: s.peer_credit + le64_at(recv_ring, at + 8),
                recv_pos: if wrap {
                    s.recv_pos + 32 * imm
                } else {
                    Format::Rc.messages_end(recv_ring, s.recv_pos + 32, count as nat)
                },
                pending: if wrap {
                    s.pending
                } else {
                    arrival.settle(s.local.slot, s.local.qpn, bare, count as nat).pending
                },
                ..s
            }
            &&& s.inbox(recv_ring, requests) == (if wrap {
                before
            } else {
                arrival.settle(s.local.slot, s.local.qpn, before, count as nat)
            })
        }),
{
}

/// Which batches can be taken in: the header lies inside the receive ring, the numbers in it leave all
/// counters in 64 bits, and so do the messages, which lie inside the ring as far as they are needed. A
/// wrap moves on by at least its header.
pub proof fn law_which_batches_are_taken_in<U>(s: EndpointState<U>, recv_ring: Seq<u8>, imm: u32)
    ensures
        s.can_receive(recv_ring, imm) <==> {
            let at = batch_at(s);
            let count = le32_at(recv_ring, at + 16);
            &&& recv_ring.len() == s.local.recv_ring_len
            &&& at + 32 <= recv_ring.len()
            &&& s.recv_producer + 32 * imm <= u64::MAX
            &&& s.consumer + le64_at(recv_ring, at) <= u64::MAX
            &&& s.peer_credit + le64_at(recv_ring, at + 8) <= u64::MAX
            &&& count == 0xffff_ffff ==> 0 < imm && s.recv_pos + 32 * imm <= u64::MAX
            &&& count != 0xffff_ffff ==> batch_of(s, recv_ring).valid(s.pending, count as nat)
        },
{
}

/// A new endpoint holds what it was made from, and has sent, received, promised and counted nothing. The
/// most credit that its peer may hold is what was configured, but no more than a quarter of the
/// configured send ring.
pub proof fn law_new_endpoint<U>(
    config: EndpointConfig,
    slot: usize,
    qpn: u32,
    ring: Seq<u8>,
    memory: RingMemory,
)
    ensures
        ({
            let s = EndpointState::<U>::created(config, slot, qpn, ring, memory);
            let most = s.local.max_resp_reservation;
            &&& s.local == LocalSide {
                slot,
                qpn,
                send_ring_addr: memory.send_addr,
                send_ring_lkey: memory.send_lkey,
                recv_ring_addr: memory.recv_addr,
                recv_ring_rkey: memory.recv_rkey,
                recv_ring_len: memory.recv_len,
                max_resp_reservation: most,
            }
            &&& most == config.max_resp_reservation || most == config.send_ring_size / 4
            &&& most <= config.max_resp_reservation && most <= config.send_ring_size / 4
            &&& s.ring == ring
            &&& s.remote is None
            &&& s.producer == 0 && s.recv_producer == 0 && s.recv_pos == 0 && s.notified == 0
            &&& s.consumer == 0 && s.unsignaled == 0 && s.flush_start == 0 && s.meta_pos == 0
            &&& s.reservation == 0 && s.peer_credit == 0 && s.batch_count == 0
            &&& s.raw_posted == 0 && s.raw_done == 0 && s.told == 0 && s.granted == 0
            &&& !s.needs_doorbell && !s.is_dirty
            &&& s.pending == Map::<usize, U>::empty() && s.slots == 0
        }),
{
    let s = EndpointState::<U>::created(config, slot, qpn, ring, memory);
    let quarter = config.send_ring_size as int / 4;
    assert(quarter <= u64::MAX);
    assert(s.pending =~= Map::<usize, U>::empty());
}

/// Connecting takes over the peer's ring, with its address, key and size, and the credit that the peer
/// grants. This side grants the most that its policy allows, but no more than a quarter of that ring.
/// Nothing else changes; when the queue pair is connected, an empty batch is opened.
pub proof fn law_connected<U>(s: EndpointState<U>, remote: RemoteEndpointInfo)
    ensures
        ({
            let t = s.linked(remote.ring(), remote.initial_credit);
            let most = s.local.max_resp_reservation as int;
            let quarter = remote.recv_ring_size as int / 4;
            &&& t == EndpointState {
                remote: Some(
                    RemoteRingInfo {
                        addr: remote.recv_ring_addr,
                        rkey: remote.recv_ring_rkey,
                        size: remote.recv_ring_size,
                    },
                ),
                reservation: if most < quarter {
                    most
                } else {
                    quarter
                },
                peer_credit: remote.initial_credit as int,
                told: 0,
                granted: 0,
                ..s
            }
        }),
        s.prepared() == (EndpointState {
            meta_pos: s.producer,
            producer: s.producer + 32,
            batch_count: 0,
            ..s
        }),
        remote.ring().valid() <==> 0 < remote.recv_ring_size && remote.recv_ring_addr
            + remote.recv_ring_size <= u64::MAX,
{
}

/// The queue pair is connected to the peer's queue pair, from the given port and with the given sequence
/// numbers. The peer may write, and where raw operations are asked for, it may read too, and sixteen
/// reads may be outstanding either way.
pub proof fn law_queue_pair_connects_to(
    remote: RemoteEndpointInfo,
    local_psn: u32,
    port: u8,
    raw: bool,
)
    ensures
        ({
            let q = remote.transition(local_psn, port, raw);
            &&& q.qp_number == remote.qp_number
            &&& q.packet_sequence_number == remote.packet_sequence_number
            &&& q.local_identifier == remote.local_identifier
            &&& q.port == port
            &&& q.local_psn == local_psn
            &&& q.local_write && q.remote_write
            &&& q.remote_read == raw
            &&& raw ==> q.max_rd_atomic == 16 && q.max_dest_rd_atomic == 16
            &&& !raw ==> q.max_rd_atomic == 0 && q.max_dest_rd_atomic == 0
        }),
{
}

/// When a message can be sent at all: positions stay in 64 bits and the message count in 32, and a
/// request that the peer's ring has room for fits into the send ring behind a batch header.
pub proof fn law_what_can_be_sent<U>(s: EndpointState<U>, payload_len: int, size: int)
    ensures
        s.room_to_run(payload_len) <==> s.producer + s.ring.len() + message_bytes(payload_len) + 128
            <= u64::MAX && s.batch_count < u32::MAX,
        s.holds(size) <==> 32 + size <= s.ring.len() || s.remote->0.size < size || (
        s.remote->0.size < 32 + size && s.consumer <= s.meta_pos),
        s.fresh() <==> s.producer == 0 && s.meta_pos == 0 && s.flush_start == 0 && s.batch_count
            == 0,
        s.settled() <==> s.remote is None || s.open_batch(),
{
}

/// When a batch is open: the endpoint is connected, and the batch starts where the device left off, at a
/// multiple of 32. It lies inside one ring cycle and holds its header and its messages, or, where it is
/// empty, nothing but its header or the rest of the cycle.
pub proof fn law_when_a_batch_is_open<U>(s: EndpointState<U>)
    ensures
        s.open_batch() <==> {
            &&& s.remote is Some
            &&& s.flush_start == s.meta_pos
            &&& 0 <= s.meta_pos
            &&& s.meta_pos % 32 == 0
            &&& s.meta_pos % s.ring.len() as int + (s.producer - s.meta_pos) <= s.ring.len()
            &&& s.batch_count == 0 ==> s.producer == s.meta_pos + 32 || s.producer == next_cycle(s)
            &&& s.batch_count != 0 ==> 0 < s.batch_count && s.producer == Format::Rc.messages_end(
                s.ring,
                s.meta_pos + 32,
                s.batch_count as nat,
            )
        },
{
}

/// An endpoint that gets marked goes to the end of the queue, and otherwise the queue stays.
pub proof fn law_marked_goes_to_the_end<U>(
    pre: EndpointState<U>,
    post: EndpointState<U>,
    queue: Seq<usize>,
    queue_after: Seq<usize>,
)
    requires
        queues(pre, post, queue, queue_after),
    ensures
        !pre.is_dirty && post.is_dirty ==> queue_after == queue.push(pre.local.slot),
        pre.is_dirty || !post.is_dirty ==> queue_after == queue,
{
}

/// A connected endpoint with enough credit takes every request that stays in the ring cycle of the open
/// batch and for which the peer's ring has room, whatever else there is: however many messages are open,
/// however many calls are in progress, and whatever the request holds.
#[verifier::rlimit(50)]
pub proof fn law_request_with_room_is_taken<U>(
    input: CallInput<U>,
    pre: EndpointState<U>,
    post: EndpointState<U>,
    step: CallStep<U>,
)
    requires
        pre.wf(),
        pre.open_batch(),
        input.starts(pre, post, step),
        input.data.len() <= u32::MAX,
        0 <= input.allowance <= pre.peer_credit <= u64::MAX,
        pre.meta_pos % pre.ring.len() as int + (pre.producer - pre.meta_pos) + (input.data.len()
            + 47) / 32 * 32 < pre.ring.len(),
        (input.data.len() + 47) / 32 * 32 + 2 * pre.reservation + (pre.producer - pre.consumer)
            <= pre.remote->0.size,
        (input.data.len() + 47) / 32 * 32 + 2 * pre.reservation <= pre.remote->0.size,
    ensures
        step matches CallStep::Done { result: Ok(call_id), ring_doorbell } && !ring_doorbell && {
            let at = pre.producer % pre.ring.len() as int;
            &&& post.batch_count == pre.batch_count + 1
            &&& post.producer == pre.producer + (input.data.len() + 47) / 32 * 32
            &&& post.peer_credit == pre.peer_credit - input.allowance
            &&& post.is_dirty
            &&& le32_at(post.ring, at) == call_id
            &&& le64_at(post.ring, at + 4) == input.allowance / 32
            &&& le32_at(post.ring, at + 12) == input.data.len()
            &&& post.ring.subrange(at + 16, at + 16 + input.data.len()) == input.data
            &&& exists|key: usize|
                key as int % 0x1_0000_0000 == call_id && !pre.pending.contains_key(key)
                    && #[trigger] post.pending.contains_key(key) && post.pending[key]
                    == input.user_data && post.pending.remove(key) =~= pre.pending
        },
{
    law_call_comes_to(input, pre, post, step);
    let key = choose|key: usize| #[trigger] call_taken(input, key, pre, post, step);
    assert(post.pending.contains_key(key));
    assert(post.pending.remove(key) =~= pre.pending);
}

/// The measures in which room is counted, in numbers: a message takes its header and its payload up to
/// the next multiple of 32; what the peer has not reported as read lies behind the position that it has
/// reported; and a batch starts over when the ring cycle is used up.
pub proof fn law_measures<U>(s: EndpointState<U>, len: int, size: int, up_to: int, ring: Seq<u8>)
    ensures
        0 <= len ==> message_bytes(len) % 32 == 0 && len + 16 <= message_bytes(len) < len + 48,
        s.consumer <= up_to ==> unread(s, up_to) == up_to - s.consumer,
        up_to <= s.consumer ==> unread(s, up_to) == 0,
        stays_in_cycle(s, size) <==> s.meta_pos % s.ring.len() as int + (s.producer - s.meta_pos)
            + size < s.ring.len(),
        next_cycle(s) + s.meta_pos % s.ring.len() as int == s.meta_pos + s.ring.len(),
        s.consumer <= s.producer ==> (peer_has_room(s, size) <==> size + 2 * s.reservation + (
        s.producer - s.consumer) <= s.remote->0.size),
        s.producer <= s.consumer ==> (peer_has_room(s, size) <==> size + 2 * s.reservation
            <= s.remote->0.size),
        batch_at(s) == s.recv_pos % (s.local.recv_ring_len as int),
        batch_of(s, ring).format == Format::Rc,
        batch_of(s, ring).ring == ring,
        batch_of(s, ring).pos == s.recv_pos + 32,
{
}

} // verus!
